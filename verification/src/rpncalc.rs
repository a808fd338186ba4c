//! A tiny RPN calculator: parse a space-separated expression, then evaluate it.

use vstd::prelude::*;
use crate::num::{
    i64_value, int_text, int_text_reads_back, ints_in, lemma_int_text, lemma_nat_text, nat_text,
    read_i64,
};
use crate::text::{digit, same, split_white, views, white, words, words_stand_between_white_space};

verus! {

/// A token of an expression.
#[derive(Debug, Clone, Copy)]
pub enum Tok {
    Num(i64),
    Add,
    Sub,
    Mul,
    Div,
}

/// The token that a word is.
pub open spec fn tok_of(w: Seq<char>) -> Option<Tok> {
    if w == "+"@ {
        Some(Tok::Add)
    } else if w == "-"@ {
        Some(Tok::Sub)
    } else if w == "*"@ {
        Some(Tok::Mul)
    } else if w == "/"@ {
        Some(Tok::Div)
    } else {
        match i64_value(w) {
            Some(n) => Some(Tok::Num(n as i64)),
            None => None,
        }
    }
}

/// The tokens of some words, where each is one.
pub open spec fn toks_of(ws: Seq<Seq<char>>) -> Option<Seq<Tok>>
    decreases ws.len(),
{
    if ws.len() == 0 {
        Some(Seq::empty())
    } else {
        match (toks_of(ws.drop_last()), tok_of(ws.last())) {
            (Some(ts), Some(t)) => Some(ts.push(t)),
            _ => None,
        }
    }
}

/// The quotient, rounded towards zero.
pub open spec fn quotient(a: int, b: int) -> int {
    let x = if a < 0 {
        -a
    } else {
        a
    };
    let y = if b < 0 {
        -b
    } else {
        b
    };
    if (a < 0) == (b < 0) {
        x / y
    } else {
        -(x / y)
    }
}

/// What an operator makes of two numbers, where it makes one of 64 bits.
pub open spec fn applied(t: Tok, a: int, b: int) -> Option<int> {
    if t is Div && b == 0 {
        None
    } else {
        let v = match t {
            Tok::Num(n) => n as int,
            Tok::Add => a + b,
            Tok::Sub => a - b,
            Tok::Mul => a * b,
            Tok::Div => quotient(a, b),
        };
        if i64::MIN <= v <= i64::MAX {
            Some(v)
        } else {
            None
        }
    }
}

/// The stack after a token: a number goes on it, an operator takes the two
/// topmost and puts what it makes of them.
pub open spec fn after(stack: Seq<int>, t: Tok) -> Option<Seq<int>> {
    match t {
        Tok::Num(n) => Some(stack.push(n as int)),
        _ => if stack.len() < 2 {
            None
        } else {
            match applied(t, stack[stack.len() - 2], stack[stack.len() - 1]) {
                Some(v) => Some(stack.take(stack.len() - 2).push(v)),
                None => None,
            }
        },
    }
}

/// The stack after some tokens.
pub open spec fn stack_of(ts: Seq<Tok>) -> Option<Seq<int>>
    decreases ts.len(),
{
    if ts.len() == 0 {
        Some(Seq::empty())
    } else {
        match stack_of(ts.drop_last()) {
            Some(s) => after(s, ts.last()),
            None => None,
        }
    }
}

/// The value of some tokens: the number on top in the end.
pub open spec fn value_of(ts: Seq<Tok>) -> Option<int> {
    match stack_of(ts) {
        Some(s) => if s.len() > 0 {
            Some(s.last())
        } else {
            None
        },
        None => None,
    }
}

/// The value of an expression.
pub open spec fn calc_value(src: Seq<char>) -> Option<int> {
    match toks_of(words(src)) {
        Some(ts) => value_of(ts),
        None => None,
    }
}

proof fn lemma_prefix_toks(ws: Seq<Seq<char>>, i: int)
    requires
        0 <= i <= ws.len(),
        toks_of(ws) is Some,
    ensures
        toks_of(ws.take(i)) is Some,
    decreases ws.len() - i,
{
    if i < ws.len() {
        lemma_prefix_toks(ws, i + 1);
        assert(ws.take(i + 1).drop_last() =~= ws.take(i));
    } else {
        assert(ws.take(i) =~= ws);
    }
}

proof fn lemma_prefix_stack(ts: Seq<Tok>, i: int)
    requires
        0 <= i <= ts.len(),
        stack_of(ts) is Some,
    ensures
        stack_of(ts.take(i)) is Some,
    decreases ts.len() - i,
{
    if i < ts.len() {
        lemma_prefix_stack(ts, i + 1);
        assert(ts.take(i + 1).drop_last() =~= ts.take(i));
    } else {
        assert(ts.take(i) =~= ts);
    }
}

fn read_tok(w: &str) -> (t: Tok)
    requires
        tok_of(w@) is Some,
    ensures
        Some(t) == tok_of(w@),
{
    if same(w, "+") {
        Tok::Add
    } else if same(w, "-") {
        Tok::Sub
    } else if same(w, "*") {
        Tok::Mul
    } else if same(w, "/") {
        Tok::Div
    } else {
        match read_i64(w) {
            Some(n) => Tok::Num(n),
            None => Tok::Num(0),
        }
    }
}

/// The tokens of an expression of numbers and operators.
pub fn parse(src: &str) -> (r: Vec<Tok>)
    requires
        toks_of(words(src@)) is Some,
    ensures
        Some(r@) == toks_of(words(src@)),
{
    let ws = split_white(src);
    let ghost all = views(ws@);
    let mut r: Vec<Tok> = Vec::new();
    let mut i: usize = 0;
    assert(all.take(0) =~= Seq::empty());
    while i < ws.len()
        invariant
            i <= ws.len(),
            all == views(ws@),
            toks_of(all) is Some,
            Some(r@) == toks_of(all.take(i as int)),
        decreases ws.len() - i,
    {
        proof {
            lemma_prefix_toks(all, i + 1);
        }
        assert(all.take(i + 1).drop_last() =~= all.take(i as int));
        assert(all.take(i + 1).last() == ws@[i as int]@);
        r.push(read_tok(ws[i].as_str()));
        i += 1;
    }
    assert(all.take(all.len() as int) =~= all);
    r
}

fn size(n: i64) -> (r: u64)
    ensures
        r == if n < 0 {
            -n
        } else {
            n as int
        },
{
    if n >= 0 {
        n as u64
    } else if n == i64::MIN {
        0x8000_0000_0000_0000
    } else {
        (-n) as u64
    }
}

fn divide(a: i64, b: i64) -> (r: i64)
    requires
        applied(Tok::Div, a as int, b as int) is Some,
    ensures
        r == quotient(a as int, b as int),
{
    let q: u64 = size(a) / size(b);
    if (a < 0) == (b < 0) {
        q as i64
    } else if q == 0x8000_0000_0000_0000 {
        i64::MIN
    } else {
        proof {
            let x = size_of(a as int);
            let y = size_of(b as int);
            assert(x / y <= x) by (nonlinear_arith)
                requires
                    x >= 0,
                    y >= 1,
            ;
        }
        -(q as i64)
    }
}

spec fn size_of(n: int) -> int {
    if n < 0 {
        -n
    } else {
        n
    }
}

fn apply(t: Tok, a: i64, b: i64) -> (r: i64)
    requires
        applied(t, a as int, b as int) is Some,
    ensures
        Some(r as int) == applied(t, a as int, b as int),
{
    match t {
        Tok::Num(n) => n,
        Tok::Add => a + b,
        Tok::Sub => a - b,
        Tok::Mul => a * b,
        Tok::Div => divide(a, b),
    }
}

/// The value of tokens that have one.
pub fn eval(tokens: &[Tok]) -> (r: i64)
    requires
        value_of(tokens@) is Some,
    ensures
        Some(r as int) == value_of(tokens@),
{
    let mut stack: Vec<i64> = Vec::new();
    let mut i: usize = 0;
    assert(tokens@.take(0) =~= Seq::empty());
    assert(ints_in(stack@) =~= Seq::empty());
    while i < tokens.len()
        invariant
            i <= tokens.len(),
            stack_of(tokens@) is Some,
            Some(ints_in(stack@)) == stack_of(tokens@.take(i as int)),
        decreases tokens.len() - i,
    {
        proof {
            lemma_prefix_stack(tokens@, i + 1);
        }
        assert(tokens@.take(i + 1).drop_last() =~= tokens@.take(i as int));
        assert(tokens@.take(i + 1).last() == tokens@[i as int]);
        let t = tokens[i];
        let ghost before = ints_in(stack@);
        match t {
            Tok::Num(n) => {
                stack.push(n);
                assert(ints_in(stack@) =~= before.push(n as int));
            },
            _ => {
                let k: usize = stack.len();
                let b: i64 = stack[k - 1];
                let a: i64 = stack[k - 2];
                assert(before[k - 1] == b && before[k - 2] == a);
                let v: i64 = apply(t, a, b);
                stack.truncate(k - 2);
                stack.push(v);
                assert(ints_in(stack@) =~= before.take(k - 2).push(v as int));
            },
        }
        i += 1;
    }
    assert(tokens@.take(tokens@.len() as int) =~= tokens@);
    stack[stack.len() - 1]
}

/// Evaluate an RPN expression such as `"10 3 - 2 * 1 +"`.
pub fn calc(src: &str) -> (r: i64)
    requires
        calc_value(src@) is Some,
    ensures
        Some(r as int) == calc_value(src@),
{
    let ts = parse(src);
    eval(ts.as_slice())
}

/// Two expressions with a value each and an operator behind them are the
/// operator applied to their values, the first on the left.
pub proof fn an_operator_applies_to_what_stands_before_it(
    x: Seq<Tok>,
    y: Seq<Tok>,
    t: Tok,
    a: int,
    b: int,
)
    requires
        stack_of(x) == Some(seq![a]),
        stack_of(y) == Some(seq![b]),
        t !is Num,
    ensures
        value_of((x + y).push(t)) == applied(t, a, b),
{
    lemma_stack_concat(x, y, seq![a], seq![b]);
    assert((x + y).push(t).drop_last() =~= x + y);
    let s = seq![a] + seq![b];
    assert(s[0] == a && s[1] == b && s.len() == 2);
    if applied(t, a, b) is Some {
        assert(after(s, t) == Some(s.take(0).push(applied(t, a, b)->0)));
        assert(s.take(0).push(applied(t, a, b)->0).last() == applied(t, a, b)->0);
    }
}

proof fn lemma_stack_concat(x: Seq<Tok>, y: Seq<Tok>, p: Seq<int>, q: Seq<int>)
    requires
        stack_of(x) == Some(p),
        stack_of(y) == Some(q),
    ensures
        stack_of(x + y) == Some(p + q),
    decreases y.len(),
{
    if y.len() == 0 {
        assert(x + y =~= x);
        assert(p + q =~= p);
    } else {
        let front = y.drop_last();
        assert((x + y).drop_last() =~= x + front);
        assert((x + y).last() == y.last());
        let s = stack_of(front)->0;
        lemma_stack_concat(x, front, p, s);
        match y.last() {
            Tok::Num(n) => {
                assert((p + s).push(n as int) =~= p + s.push(n as int));
            },
            t => {
                let m = s.len();
                let k = (p + s).len();
                assert((p + s)[k - 1] == s[m - 1] && (p + s)[k - 2] == s[m - 2]);
                let v = applied(t, s[m - 2], s[m - 1])->0;
                assert((p + s).take(k - 2).push(v) =~= p + s.take(m - 2).push(v));
            },
        }
    }
}

/// A quotient is the whole number of times that the divisor goes into the
/// dividend: what is left over is smaller than the divisor and has the sign of
/// the dividend.
pub proof fn quotients_are_cut_off_towards_zero(a: int, b: int)
    requires
        b != 0,
    ensures
        ({
            let left = a - quotient(a, b) * b;
            &&& b > 0 ==> -b < left < b
            &&& b < 0 ==> b < left < -b
            &&& a >= 0 ==> left >= 0
            &&& a <= 0 ==> left <= 0
        }),
{
    let x = size_of(a);
    let y = size_of(b);
    let q = x / y;
    let r = x % y;
    assert(x == y * q + r && 0 <= r < y) by (nonlinear_arith)
        requires
            x >= 0,
            y > 0,
            q == x / y,
            r == x % y,
    ;
    if b > 0 {
        if a >= 0 {
            assert(quotient(a, b) == q);
            assert(q * b == y * q) by (nonlinear_arith)
                requires
                    y == b,
            ;
        } else {
            assert(quotient(a, b) == -q);
            assert((-q) * b == -(y * q)) by (nonlinear_arith)
                requires
                    y == b,
            ;
        }
    } else {
        if a < 0 {
            assert(quotient(a, b) == q);
            assert(q * b == -(y * q)) by (nonlinear_arith)
                requires
                    y == -b,
            ;
        } else {
            assert(quotient(a, b) == -q);
            assert((-q) * b == y * q) by (nonlinear_arith)
                requires
                    y == -b,
            ;
        }
    }
}

proof fn lemma_number_word(n: int)
    requires
        i64::MIN <= n <= i64::MAX,
    ensures
        tok_of(int_text(n)) == Some(Tok::Num(n as i64)),
        int_text(n).len() > 0,
        forall|i: int| 0 <= i < int_text(n).len() ==> !white(#[trigger] int_text(n)[i]),
{
    reveal_strlit("+");
    reveal_strlit("-");
    reveal_strlit("*");
    reveal_strlit("/");
    lemma_int_text(n);
    int_text_reads_back(n);
    let t = int_text(n);
    assert("+"@[0] == '+' && "*"@[0] == '*' && "/"@[0] == '/' && "-"@[0] == '-');
    if t == "-"@ {
        if n >= 0 {
            lemma_nat_text(n);
            assert(digit(t[0]));
        } else {
            lemma_nat_text(-n);
            assert(t.len() == 1 + nat_text(-n).len());
        }
    }
    assert(digit(t[0]) || t[0] == '-');
}

/// Two numbers and an operator behind them are the sum, the difference, the
/// product or the quotient of the two, where that is a number of 64 bits.
pub proof fn operators_do_their_arithmetic(a: int, b: int)
    requires
        i64::MIN <= a <= i64::MAX,
        i64::MIN <= b <= i64::MAX,
    ensures
        ({
            let two = int_text(a) + seq![' '] + int_text(b);
            &&& i64::MIN <= a + b <= i64::MAX ==> calc_value(two + seq![' '] + "+"@) == Some(a + b)
            &&& i64::MIN <= a - b <= i64::MAX ==> calc_value(two + seq![' '] + "-"@) == Some(a - b)
            &&& i64::MIN <= a * b <= i64::MAX ==> calc_value(two + seq![' '] + "*"@) == Some(a * b)
            &&& b != 0 && i64::MIN <= quotient(a, b) <= i64::MAX ==> calc_value(
                two + seq![' '] + "/"@,
            ) == Some(quotient(a, b))
            &&& b == 0 ==> calc_value(two + seq![' '] + "/"@) is None
            &&& calc_value(int_text(a)) == Some(a)
            &&& calc_value(int_text(a) + seq![' '] + "+"@) is None
        }),
{
    reveal_strlit("+");
    reveal_strlit("-");
    reveal_strlit("*");
    reveal_strlit("/");
    assert("+"@[0] == '+' && "*"@[0] == '*' && "/"@[0] == '/' && "-"@[0] == '-');
    lemma_number_word(a);
    lemma_number_word(b);
    let x = int_text(a);
    let y = int_text(b);
    let two = x + seq![' '] + y;
    words_stand_between_white_space(Seq::empty(), ' ', x);
    words_stand_between_white_space(x, ' ', y);
    let none = Seq::<Seq<char>>::empty();
    let one = seq![x];
    assert(one.drop_last() =~= none);
    assert(seq![x].push(y).drop_last() =~= one);
    let t1 = seq![Tok::Num(a as i64)];
    let t2 = t1.push(Tok::Num(b as i64));
    assert(toks_of(none) == Some(Seq::<Tok>::empty()));
    assert(Seq::<Tok>::empty().push(Tok::Num(a as i64)) =~= t1);
    assert(toks_of(one) == Some(t1));
    assert(toks_of(one.push(y)) == Some(t2));
    assert(t1.drop_last() =~= Seq::<Tok>::empty());
    assert(t2.drop_last() =~= t1);
    assert(stack_of(Seq::<Tok>::empty()) == Some(Seq::<int>::empty()));
    assert(stack_of(t1) == Some(Seq::<int>::empty().push(a)));
    assert(stack_of(t2) == Some(Seq::<int>::empty().push(a).push(b)));
    lemma_operator(x, y, a, b, "+"@, Tok::Add);
    lemma_operator(x, y, a, b, "-"@, Tok::Sub);
    lemma_operator(x, y, a, b, "*"@, Tok::Mul);
    lemma_operator(x, y, a, b, "/"@, Tok::Div);
    words_stand_between_white_space(x, ' ', "+"@);
    let bad = one.push("+"@);
    assert(bad.drop_last() =~= one);
    assert(toks_of(bad) == Some(t1.push(Tok::Add)));
    assert(t1.push(Tok::Add).drop_last() =~= t1);
}

proof fn lemma_operator(x: Seq<char>, y: Seq<char>, a: int, b: int, w: Seq<char>, t: Tok)
    requires
        x == int_text(a),
        y == int_text(b),
        i64::MIN <= a <= i64::MAX,
        i64::MIN <= b <= i64::MAX,
        w.len() == 1,
        !white(w[0]),
        tok_of(w) == Some(t),
        t !is Num,
    ensures
        calc_value(x + seq![' '] + y + seq![' '] + w) == applied(t, a, b),
{
    lemma_number_word(a);
    lemma_number_word(b);
    let two = x + seq![' '] + y;
    words_stand_between_white_space(Seq::empty(), ' ', x);
    words_stand_between_white_space(x, ' ', y);
    words_stand_between_white_space(two, ' ', w);
    let none = Seq::<Seq<char>>::empty();
    let one = seq![x];
    let all = one.push(y).push(w);
    assert(one.drop_last() =~= none);
    assert(one.push(y).drop_last() =~= one);
    assert(all.drop_last() =~= one.push(y));
    let t0 = Seq::<Tok>::empty();
    let t1 = t0.push(Tok::Num(a as i64));
    let t2 = t1.push(Tok::Num(b as i64));
    let t3 = t2.push(t);
    assert(toks_of(none) == Some(t0));
    assert(toks_of(one) == Some(t1));
    assert(toks_of(one.push(y)) == Some(t2));
    assert(toks_of(all) == Some(t3));
    assert(t1.drop_last() =~= t0 && t2.drop_last() =~= t1 && t3.drop_last() =~= t2);
    let s0 = Seq::<int>::empty();
    assert(stack_of(t0) == Some(s0));
    assert(stack_of(t1) == Some(s0.push(a)));
    assert(stack_of(t2) == Some(s0.push(a).push(b)));
    let s2 = s0.push(a).push(b);
    assert(s2.take(0) =~= s0);
}

} // verus!
