//! `continue --until` conditions: `<path> <op> <value>`.

use vstd::prelude::*;
use crate::decimal::{
    double_of, exponent_mark, point_mark, read_double, unsigned_part,
    whole_numbers_are_read_in_order, Double,
};
use crate::num::{int_text, lemma_int_text};
use crate::render::LONGEST_TYPE;
use crate::text::{
    begins, chars_of, debug_text, digit, either, lemma_strip_end, lemma_strip_start,
    lemma_trim_around, lemma_trimmed, lower, lowered, occurs, occurs_at, owned, same, show_debug,
    strip, strip_of, text_of, trim, trimmed, white,
};

verus! {

// ---------------------------------------------------------------------------
// Parsing
// ---------------------------------------------------------------------------

/// A `continue --until` condition: `<path> <op> <value>`, where `path` is a
/// variable path `evaluate` understands and `op` is one of `== != < <= > >=`.
#[derive(Debug, PartialEq)]
pub struct Predicate {
    pub path: String,
    pub op: &'static str,
    pub rhs: String,
}

/// The operator that stands at position `i`.
pub open spec fn operator_at(s: Seq<char>, i: int) -> Option<Seq<char>> {
    if occurs_at(s, "=="@, i) {
        Some("=="@)
    } else if occurs_at(s, "!="@, i) {
        Some("!="@)
    } else if occurs_at(s, "<="@, i) {
        Some("<="@)
    } else if occurs_at(s, ">="@, i) {
        Some(">="@)
    } else if occurs_at(s, "<"@, i) {
        Some("<"@)
    } else if occurs_at(s, ">"@, i) {
        Some(">"@)
    } else {
        None
    }
}

/// The first position from `i` on at which an operator stands.
pub open spec fn first_operator(s: Seq<char>, i: int) -> Option<int>
    decreases s.len() - i,
{
    if i < 0 || i >= s.len() {
        None
    } else if operator_at(s, i) is Some {
        Some(i)
    } else {
        first_operator(s, i + 1)
    }
}

/// The path, the operator and the value of a condition.
pub open spec fn predicate_of(s: Seq<char>) -> Option<(Seq<char>, Seq<char>, Seq<char>)> {
    match first_operator(s, 0) {
        Some(i) => {
            let op = operator_at(s, i)->0;
            let path = trimmed(s.take(i));
            let rhs = trimmed(s.skip(i + op.len()));
            if path.len() == 0 || rhs.len() == 0 || operator_at(rhs, 0) is Some {
                None
            } else {
                Some((path, op, rhs))
            }
        },
        None => None,
    }
}

/// What is said of a text that is no condition.
pub open spec fn bad_condition(s: Seq<char>) -> Seq<char> {
    "cannot parse condition "@ + debug_text(s)
        + " — want `<path> <op> <value>` with op one of == != < <= > >=, e.g. `sum >= 100`"@
}

fn read_operator(v: &Vec<char>, i: usize) -> (r: Option<&'static str>)
    ensures
        match r {
            Some(op) => operator_at(v@, i as int) == Some(op@),
            None => operator_at(v@, i as int) is None,
        },
{
    if occurs(v, &chars_of("=="), i) {
        Some("==")
    } else if occurs(v, &chars_of("!="), i) {
        Some("!=")
    } else if occurs(v, &chars_of("<="), i) {
        Some("<=")
    } else if occurs(v, &chars_of(">="), i) {
        Some(">=")
    } else if occurs(v, &chars_of("<"), i) {
        Some("<")
    } else if occurs(v, &chars_of(">"), i) {
        Some(">")
    } else {
        None
    }
}

fn bad(s: &str) -> (r: String)
    ensures
        r@ == bad_condition(s@),
{
    let mut e = String::from_str("cannot parse condition ");
    let d = show_debug(s);
    e.append(d.as_str());
    e.append(" — want `<path> <op> <value>` with op one of == != < <= > >=, e.g. `sum >= 100`");
    e
}

/// Parse `sum >= 100` / `items[0].qty == 3` into a `Predicate`. Two-character
/// operators are matched before their one-character prefixes so `<=` is never
/// read as `<`.
pub fn parse_predicate(s: &str) -> (r: Result<Predicate, String>)
    ensures
        match r {
            Ok(p) => predicate_of(s@) == Some((p.path@, p.op@, p.rhs@)),
            Err(e) => predicate_of(s@) is None && e@ == bad_condition(s@),
        },
{
    let v = chars_of(s);
    let mut i: usize = 0;
    while i < v.len()
        invariant
            v@ == s@,
            i <= v.len(),
            first_operator(s@, 0) == first_operator(s@, i as int),
        decreases v.len() - i,
    {
        match read_operator(&v, i) {
            Some(op) => {
                let n: usize = chars_of(op).len();
                let path_text = text_of(&v, 0, i);
                assert(i + n <= v.len());
                let rhs_text = text_of(&v, i + n, v.len());
                assert(path_text@ =~= s@.take(i as int));
                assert(rhs_text@ =~= s@.skip(i + n));
                let path = trim(path_text.as_str());
                let rhs = trim(rhs_text.as_str());
                if path.as_str().is_empty() || rhs.as_str().is_empty() {
                    return Err(bad(s));
                }
                return match read_operator(&chars_of(rhs.as_str()), 0) {
                    Some(_) => Err(bad(s)),
                    None => Ok(Predicate { path, op, rhs }),
                };
            },
            None => {},
        }
        i += 1;
    }
    Err(bad(s))
}

/// A condition as text.
pub open spec fn predicate_text(path: Seq<char>, op: Seq<char>, rhs: Seq<char>) -> Seq<char> {
    path + " "@ + op + " "@ + rhs
}

impl Predicate {
    /// The condition as text.
    pub fn show(&self) -> (r: String)
        ensures
            r@ == predicate_text(self.path@, self.op@, self.rhs@),
    {
        let mut r = owned(self.path.as_str());
        r.append(" ");
        r.append(self.op);
        r.append(" ");
        r.append(self.rhs.as_str());
        r
    }
}

/// Whether an operator stands at a position, by the characters there.
proof fn lemma_operator_chars(s: Seq<char>, i: int)
    requires
        0 <= i,
    ensures
        operator_at(s, i) is Some <==> i < s.len() && (s[i] == '<' || s[i] == '>' || (i + 1
            < s.len() && (s[i] == '=' || s[i] == '!') && s[i + 1] == '=')),
        operator_at(s, i) matches Some(op) ==> 1 <= op.len() <= 2 && i + op.len() <= s.len()
            && s.subrange(i, i + op.len()) == op && (op.len() == 1 ==> (i + 1 < s.len() ==> s[i + 1]
            != '=')),
{
    reveal_strlit("==");
    reveal_strlit("!=");
    reveal_strlit("<=");
    reveal_strlit(">=");
    reveal_strlit("<");
    reveal_strlit(">");
    if i + 2 <= s.len() {
        let two = s.subrange(i, i + 2);
        assert(two[0] == s[i] && two[1] == s[i + 1]);
        if s[i + 1] == '=' {
            if s[i] == '=' {
                assert(two =~= "=="@);
            } else if s[i] == '!' {
                assert(two =~= "!="@);
            } else if s[i] == '<' {
                assert(two =~= "<="@);
            } else if s[i] == '>' {
                assert(two =~= ">="@);
            }
        }
    }
    if i < s.len() {
        let one = s.subrange(i, i + 1);
        assert(one[0] == s[i]);
        if s[i] == '<' {
            assert(one =~= "<"@);
        } else if s[i] == '>' {
            assert(one =~= ">"@);
        }
    }
}

proof fn lemma_first_operator(s: Seq<char>, i: int)
    requires
        0 <= i,
    ensures
        first_operator(s, i) matches Some(k) ==> i <= k < s.len() && operator_at(s, k) is Some
            && forall|j: int| i <= j < k ==> (#[trigger] operator_at(s, j)) is None,
    decreases s.len() - i,
{
    if i < s.len() && operator_at(s, i) is None {
        lemma_first_operator(s, i + 1);
    }
}

proof fn lemma_operator_found(s: Seq<char>, i: int, k: int)
    requires
        0 <= i <= k < s.len(),
        operator_at(s, k) is Some,
        forall|j: int| i <= j < k ==> (#[trigger] operator_at(s, j)) is None,
    ensures
        first_operator(s, i) == Some(k),
    decreases k - i,
{
    if i < k {
        assert(operator_at(s, i) is None);
        lemma_operator_found(s, i + 1, k);
    }
}

/// A condition that was read, and is shown, reads as itself again.
pub proof fn conditions_read_back(s: Seq<char>)
    requires
        predicate_of(s) is Some,
    ensures
        predicate_of(
            predicate_text((predicate_of(s)->0).0, (predicate_of(s)->0).1, (predicate_of(s)->0).2),
        ) == predicate_of(s),
{
    let (path, op, rhs) = predicate_of(s)->0;
    let t = predicate_text(path, op, rhs);
    lemma_first_operator(s, 0);
    let i = first_operator(s, 0)->0;
    lemma_operator_chars(s, i);
    let (a, b) = lemma_trimmed(s.take(i));
    let (c, d) = lemma_trimmed(s.skip(i + op.len()));
    reveal_strlit(" ");
    let gap = " "@;
    assert(gap.len() == 1 && gap[0] == ' ');
    let n = path.len() as int;
    let k = n + 1;
    assert forall|j: int| 0 <= j < n implies t[j] == s[a + j] by {
        assert(t[j] == path[j]);
    }
    assert(t[n] == ' ');
    // nothing before the operator is one
    assert forall|j: int| 0 <= j < k implies (#[trigger] operator_at(t, j)) is None by {
        lemma_operator_chars(t, j);
        if j < n {
            lemma_operator_chars(s, a + j);
            assert(operator_at(s, a + j) is None);
        }
    }
    // the operator stands where it is shown
    assert(t.subrange(k, k + op.len()) =~= op);
    assert(t[k + op.len()] == ' ');
    lemma_same_operator(s, i, t, k);
    lemma_operator_found(t, 0, k);
    // and what stands around it is trimmed already
    assert(t.take(k) =~= Seq::<char>::empty() + path + gap);
    lemma_trim_around(Seq::empty(), path, gap);
    assert(t.skip(k + op.len()) =~= gap + rhs + Seq::<char>::empty());
    lemma_trim_around(gap, rhs, Seq::empty());
}

/// A text with an operator of another and a blank behind it has that operator
/// there.
proof fn lemma_same_operator(s: Seq<char>, i: int, t: Seq<char>, k: int)
    requires
        0 <= i,
        0 <= k,
        operator_at(s, i) matches Some(op) && k + op.len() < t.len() && t[k + op.len()] == ' '
            && t.subrange(k, k + op.len()) == op,
    ensures
        operator_at(t, k) == operator_at(s, i),
{
    reveal_strlit("==");
    reveal_strlit("!=");
    reveal_strlit("<=");
    reveal_strlit(">=");
    reveal_strlit("<");
    reveal_strlit(">");
    let op = operator_at(s, i)->0;
    if k + 2 <= t.len() {
        let two = t.subrange(k, k + 2);
        assert(two[0] == t[k] && two[1] == t[k + 1]);
    }
    let one = t.subrange(k, k + 1);
    assert(one[0] == t[k]);
    assert("=="@[0] == '=' && "=="@[1] == '=' && "!="@[0] == '!' && "!="@[1] == '=');
    assert("<="@[0] == '<' && "<="@[1] == '=' && ">="@[0] == '>' && ">="@[1] == '=');
    assert("<"@[0] == '<' && ">"@[0] == '>');
}

// ---------------------------------------------------------------------------
// Checking
// ---------------------------------------------------------------------------

/// How many angle brackets are open before position `i`; the arrow `->` closes
/// none.
pub open spec fn open_brackets(s: Seq<char>, i: int) -> int
    decreases i,
{
    if i <= 0 || i > s.len() {
        0
    } else {
        let n = open_brackets(s, i - 1);
        if s[i - 1] == '<' {
            n + 1
        } else if s[i - 1] == '>' && n > 0 && !(i > 1 && s[i - 2] == '-') {
            n - 1
        } else {
            n
        }
    }
}

/// The ` = ` between a type and a value stands at `i`: outside angle brackets,
/// or where a type name that is cut off ends.
pub open spec fn sep_at(s: Seq<char>, i: int) -> bool {
    occurs_at(s, " = "@, i) && (open_brackets(s, i) == 0 || i == LONGEST_TYPE)
}

/// The first such position at or after `i`.
pub open spec fn sep_from(s: Seq<char>, i: int) -> Option<int>
    decreases s.len() - i,
{
    if i < 0 || i >= s.len() {
        None
    } else if sep_at(s, i) {
        Some(i)
    } else {
        sep_from(s, i + 1)
    }
}

/// The value in `type = value`; the whole text where no ` = ` ends a type.
pub open spec fn value_in(repr: Seq<char>) -> Seq<char> {
    match sep_from(repr, 0) {
        Some(i) => repr.skip(i + 3),
        None => repr,
    }
}

/// The value side of a `type = value` render (for the `(was …)` note); returns
/// the whole string if there is no `=`.
pub fn value_part(repr: &str) -> (r: String)
    ensures
        r@ == value_in(repr@),
{
    proof {
        reveal_strlit(" = ");
    }
    let v = chars_of(repr);
    let ghost s = repr@;
    let mut depth: usize = 0;
    let mut i: usize = 0;
    while i < v.len()
        invariant
            i <= v.len(),
            v@ == s,
            depth <= i,
            depth == open_brackets(s, i as int),
            sep_from(s, 0) == sep_from(s, i as int),
            s == repr@,
            " = "@ == seq![' ', '=', ' '],
        decreases v.len() - i,
    {
        if (depth == 0 || i == LONGEST_TYPE) && v.len() - i >= 3 && v[i] == ' ' && v[i + 1] == '='
            && v[i + 2] == ' ' {
            assert(s.subrange(i as int, i + 3) =~= " = "@);
            let value = text_of(&v, i + 3, v.len());
            assert(value@ =~= s.skip(i + 3));
            return value;
        }
        proof {
            if occurs_at(s, " = "@, i as int) {
                let found = s.subrange(i as int, i + 3);
                assert(found[0] == s[i as int] && found[1] == s[i + 1] && found[2] == s[i + 2]);
            }
        }
        if v[i] == '<' {
            depth += 1;
        } else if v[i] == '>' && depth > 0 && !(i > 0 && v[i - 1] == '-') {
            depth -= 1;
        }
        i += 1;
    }
    owned(repr)
}

/// What stands before a position decides how many brackets are open there.
proof fn lemma_open_brackets(s: Seq<char>, t: Seq<char>, i: int)
    requires
        0 <= i <= s.len(),
        i <= t.len(),
        s.take(i) == t.take(i),
    ensures
        open_brackets(s, i) == open_brackets(t, i),
    decreases i,
{
    if i > 0 {
        assert(s.take(i - 1) =~= s.take(i).take(i - 1));
        assert(t.take(i - 1) =~= t.take(i).take(i - 1));
        assert(s[i - 1] == s.take(i)[i - 1] && t[i - 1] == t.take(i)[i - 1]);
        if i > 1 {
            assert(s[i - 2] == s.take(i)[i - 2] && t[i - 2] == t.take(i)[i - 2]);
        }
        lemma_open_brackets(s, t, i - 1);
    }
}

proof fn lemma_first_sep(s: Seq<char>, i: int, k: int)
    requires
        0 <= i <= k,
        sep_at(s, k),
        k < s.len(),
        forall|j: int| i <= j < k ==> !#[trigger] sep_at(s, j),
    ensures
        sep_from(s, i) == Some(k),
    decreases k - i,
{
    if i < k {
        assert(!sep_at(s, i));
        lemma_first_sep(s, i + 1, k);
    }
}

/// A value that is shown behind its type reads back, whatever it holds: where
/// the type's brackets are closed or it was cut off, and the first ` = ` that
/// can end it is the one behind it.
pub proof fn shown_value_reads_back(typ: Seq<char>, value: Seq<char>)
    requires
        open_brackets(typ, typ.len() as int) == 0 || typ.len() == LONGEST_TYPE,
        forall|i: int| 0 <= i < typ.len() ==> !#[trigger] sep_at(typ + " = "@, i),
    ensures
        value_in(typ + " = "@ + value) == value,
{
    reveal_strlit(" = ");
    let n = typ.len() as int;
    let head = typ + " = "@;
    let s = head + value;
    assert forall|i: int| 0 <= i < n implies !#[trigger] sep_at(s, i) by {
        assert(!sep_at(head, i));
        assert(s.take(i) =~= head.take(i));
        lemma_open_brackets(s, head, i);
        assert(s.subrange(i, i + 3) =~= head.subrange(i, i + 3));
    }
    assert(s.subrange(n, n + 3) =~= " = "@);
    assert(s.take(n) =~= typ.take(n));
    lemma_open_brackets(s, typ, n);
    lemma_first_sep(s, 0, n);
    assert(s.skip(n + 3) =~= value);
}

/// How two numbers compare: one that is not a number differs from all.
pub open spec fn numbers_compare(a: Double, op: Seq<char>, b: Double) -> bool {
    match (a, b) {
        (Double::Place(x), Double::Place(y)) => {
            ||| op == "=="@ && x == y
            ||| op == "!="@ && x != y
            ||| op == "<"@ && x < y
            ||| op == "<="@ && x <= y
            ||| op == ">"@ && x > y
            ||| op == ">="@ && x >= y
        },
        _ => op == "!="@,
    }
}

/// The text without quotes around it.
pub open spec fn unquoted(s: Seq<char>) -> Seq<char> {
    strip(s, either('"', '"'))
}

/// The observed value satisfies the condition.
pub open spec fn holds(observed: Seq<char>, op: Seq<char>, rhs: Seq<char>) -> bool {
    let a = trimmed(value_in(observed));
    let b = trimmed(rhs);
    if "("@.is_prefix_of(observed) {
        false
    } else {
        match (double_of(a), double_of(b)) {
            (Some(x), Some(y)) => numbers_compare(x, op, y),
            _ => if op == "=="@ {
                unquoted(a) == unquoted(b)
            } else if op == "!="@ {
                unquoted(a) != unquoted(b)
            } else {
                false
            },
        }
    }
}

fn compare(a: Double, op: &str, b: Double) -> (r: bool)
    ensures
        r == numbers_compare(a, op@, b),
{
    proof {
        reveal_strlit("==");
        reveal_strlit("!=");
        reveal_strlit("<");
        reveal_strlit("<=");
        reveal_strlit(">");
        reveal_strlit(">=");
        assert("=="@[0] == '=' && "!="@[0] == '!' && "<"@[0] == '<' && "<="@[0] == '<' && ">"@[0]
            == '>' && ">="@[0] == '>');
        assert("<"@.len() == 1 && "<="@.len() == 2 && ">"@.len() == 1 && ">="@.len() == 2);
    }
    match (a, b) {
        (Double::Place(x), Double::Place(y)) => {
            if same(op, "==") {
                x == y
            } else if same(op, "!=") {
                x != y
            } else if same(op, "<") {
                x < y
            } else if same(op, "<=") {
                x <= y
            } else if same(op, ">") {
                x > y
            } else if same(op, ">=") {
                x >= y
            } else {
                false
            }
        },
        _ => same(op, "!="),
    }
}

/// Does an observed value (as `evaluate` renders it, e.g. `i64 = 5`) satisfy
/// `op rhs`? Numeric comparison when both sides parse as numbers; otherwise
/// string equality with surrounding quotes stripped (`== !=` only — ordering
/// two non-numbers is always false). Evaluation errors never hold.
pub fn predicate_holds(observed: &str, op: &str, rhs: &str) -> (r: bool)
    ensures
        r == holds(observed@, op@, rhs@),
{
    if begins(observed, "(") {
        return false;  // "(cannot evaluate …)" / "(not stopped)"
    }
    let part = value_part(observed);
    let lhs = trim(part.as_str());
    let rhs = trim(rhs);
    match read_double(lhs.as_str()) {
        Some(x) => match read_double(rhs.as_str()) {
            Some(y) => {
                return compare(x, op, y);
            },
            None => {},
        },
        None => {},
    }
    let a = strip_of(lhs.as_str(), '"', '"');
    let b = strip_of(rhs.as_str(), '"', '"');
    proof {
        reveal_strlit("==");
        reveal_strlit("!=");
        assert("=="@[0] == '=' && "!="@[0] == '!');
    }
    if same(op, "==") {
        same(a.as_str(), b.as_str())
    } else if same(op, "!=") {
        !same(a.as_str(), b.as_str())
    } else {
        false
    }
}

/// A value that could not be evaluated satisfies no condition, and what is not
/// a number is neither before nor behind anything.
pub proof fn what_never_holds(observed: Seq<char>, op: Seq<char>, rhs: Seq<char>)
    ensures
        "("@.is_prefix_of(observed) ==> !holds(observed, op, rhs),
        (double_of(trimmed(value_in(observed))) is None || double_of(trimmed(rhs)) is None) && op
            != "=="@ && op != "!="@ ==> !holds(observed, op, rhs),
{
}

/// Of two opposite conditions on a value that was evaluated, exactly one holds.
pub proof fn equal_or_not(observed: Seq<char>, rhs: Seq<char>)
    requires
        !"("@.is_prefix_of(observed),
    ensures
        holds(observed, "=="@, rhs) <==> !holds(observed, "!="@, rhs),
{
    reveal_strlit("==");
    reveal_strlit("!=");
    reveal_strlit("<");
    reveal_strlit(">");
    reveal_strlit("<=");
    reveal_strlit(">=");
    assert("=="@[0] == '=' && "!="@[0] == '!');
    assert("<="@[0] == '<' && ">="@[0] == '>');
    assert("<"@.len() == 1 && ">"@.len() == 1);
}

// ---------------------------------------------------------------------------
// What conditions mean
// ---------------------------------------------------------------------------

proof fn lemma_operators_apart()
    ensures
        "=="@ != "!="@,
        "=="@ != "<"@,
        "=="@ != "<="@,
        "=="@ != ">"@,
        "=="@ != ">="@,
        "!="@ != "<"@,
        "!="@ != "<="@,
        "!="@ != ">"@,
        "!="@ != ">="@,
        "<"@ != "<="@,
        "<"@ != ">"@,
        "<"@ != ">="@,
        "<="@ != ">"@,
        "<="@ != ">="@,
        ">"@ != ">="@,
{
    reveal_strlit("==");
    reveal_strlit("!=");
    reveal_strlit("<");
    reveal_strlit("<=");
    reveal_strlit(">");
    reveal_strlit(">=");
    assert("=="@[0] == '=' && "!="@[0] == '!' && "<"@[0] == '<' && "<="@[0] == '<' && ">"@[0] == '>'
        && ">="@[0] == '>');
    assert("<"@.len() == 1 && "<="@.len() == 2 && ">"@.len() == 1 && ">="@.len() == 2);
}

/// The six operators order numbers as one order: of any two numbers exactly
/// one is less, equal or greater; `<=` and `>=` are that or equal; `!=` is not
/// equal; what holds one way round holds the other way round of the opposite
/// operator; and less than less is less. What is not a number differs from
/// everything and satisfies nothing else.
pub proof fn the_operators_agree(a: i64, b: i64, c: i64, d: Double)
    ensures
        ({
            let x = Double::Place(a);
            let y = Double::Place(b);
            let z = Double::Place(c);
            &&& numbers_compare(x, ">="@, y) <==> numbers_compare(x, ">"@, y) || numbers_compare(
                x,
                "=="@,
                y,
            )
            &&& numbers_compare(x, "<="@, y) <==> numbers_compare(x, "<"@, y) || numbers_compare(
                x,
                "=="@,
                y,
            )
            &&& numbers_compare(x, ">="@, y) <==> !numbers_compare(x, "<"@, y)
            &&& numbers_compare(x, "<="@, y) <==> !numbers_compare(x, ">"@, y)
            &&& numbers_compare(x, "!="@, y) <==> !numbers_compare(x, "=="@, y)
            &&& !(numbers_compare(x, "<"@, y) && numbers_compare(x, ">"@, y))
            &&& numbers_compare(x, "=="@, y) ==> !numbers_compare(x, "<"@, y) && !numbers_compare(
                x,
                ">"@,
                y,
            )
            &&& numbers_compare(x, "<"@, y) <==> numbers_compare(y, ">"@, x)
            &&& numbers_compare(x, "<="@, y) <==> numbers_compare(y, ">="@, x)
            &&& numbers_compare(x, "=="@, y) <==> a == b
            &&& numbers_compare(x, "<"@, y) && numbers_compare(y, "<"@, z) ==> numbers_compare(
                x,
                "<"@,
                z,
            )
            &&& a < b ==> numbers_compare(x, "<"@, y)
            &&& numbers_compare(d, "!="@, Double::Nan) && numbers_compare(Double::Nan, "!="@, d)
            &&& forall|op: Seq<char>|
                op != "!="@ ==> !#[trigger] numbers_compare(d, op, Double::Nan) && !numbers_compare(
                    Double::Nan,
                    op,
                    d,
                )
        }),
{
    lemma_operators_apart();
}

proof fn lemma_plain_type(typ: Seq<char>, value: Seq<char>)
    requires
        forall|i: int| 0 <= i < typ.len() ==> #[trigger] typ[i] != '=' && typ[i] != '<',
    ensures
        value_in(typ + " = "@ + value) == value,
{
    reveal_strlit(" = ");
    lemma_nothing_open(typ, typ.len() as int);
    let head = typ + " = "@;
    assert forall|i: int| 0 <= i < typ.len() implies !#[trigger] sep_at(head, i) by {
        if occurs_at(head, " = "@, i) {
            assert(head.subrange(i, i + 3)[1] == head[i + 1]);
            if i + 1 < typ.len() {
                assert(head[i + 1] == typ[i + 1]);
            } else {
                assert(head[i + 1] == " = "@[0]);
            }
        }
    }
    shown_value_reads_back(typ, value);
}

proof fn lemma_nothing_open(s: Seq<char>, i: int)
    requires
        0 <= i <= s.len(),
        forall|k: int| 0 <= k < s.len() ==> #[trigger] s[k] != '<',
    ensures
        open_brackets(s, i) == 0,
    decreases i,
{
    if i > 0 {
        lemma_nothing_open(s, i - 1);
    }
}

proof fn lemma_number_is_trimmed(n: int)
    ensures
        trimmed(int_text(n)) == int_text(n),
{
    lemma_int_text(n);
    let none = Seq::<char>::empty();
    let t = int_text(n);
    assert(digit(t[0]) || t[0] == '-');
    let last = t[t.len() - 1];
    assert(digit(last) || last == '-');
    assert(none + t + none =~= t);
    lemma_trim_around(none, t, none);
}

/// A condition on a whole number of at most 53 bits, shown behind its type,
/// holds exactly where it holds of the number.
pub proof fn conditions_on_whole_numbers_hold_of_them(typ: Seq<char>, m: int, n: int)
    requires
        typ.len() > 0,
        typ[0] != '(',
        forall|i: int| 0 <= i < typ.len() ==> #[trigger] typ[i] != '=' && typ[i] != '<',
        -0x20_0000_0000_0000 <= m <= 0x20_0000_0000_0000,
        -0x20_0000_0000_0000 <= n <= 0x20_0000_0000_0000,
    ensures
        holds(typ + " = "@ + int_text(m), "=="@, int_text(n)) <==> m == n,
        holds(typ + " = "@ + int_text(m), "!="@, int_text(n)) <==> m != n,
        holds(typ + " = "@ + int_text(m), "<"@, int_text(n)) <==> m < n,
        holds(typ + " = "@ + int_text(m), "<="@, int_text(n)) <==> m <= n,
        holds(typ + " = "@ + int_text(m), ">"@, int_text(n)) <==> m > n,
        holds(typ + " = "@ + int_text(m), ">="@, int_text(n)) <==> m >= n,
{
    lemma_operators_apart();
    lemma_plain_type(typ, int_text(m));
    lemma_number_is_trimmed(m);
    lemma_number_is_trimmed(n);
    whole_numbers_are_read_in_order(m, n);
    let shown = typ + " = "@ + int_text(m);
    reveal_strlit("(");
    assert(shown[0] == typ[0]);
    assert(!"("@.is_prefix_of(shown)) by {
        if "("@.is_prefix_of(shown) {
            assert("("@[0] == '(');
        }
    }
}

proof fn lemma_quote_is_no_number(s: Seq<char>)
    requires
        s.len() > 0,
        s[0] == '"',
    ensures
        double_of(s) is None,
{
    reveal_strlit("nan");
    reveal_strlit("inf");
    reveal_strlit("infinity");
    assert(unsigned_part(s) == s);
    assert(lowered(s)[0] == lower(s[0]));
    assert("nan"@[0] == 'n' && "inf"@[0] == 'i' && "infinity"@[0] == 'i');
    let e = exponent_mark(s, 0);
    lemma_mark_behind(s, 0);
    let a = s.take(e);
    assert(a[0] == '"');
    lemma_point_behind(a, 0);
    let p = point_mark(a, 0);
    let ds = if p < a.len() {
        a.take(p) + a.skip(p + 1)
    } else {
        a
    };
    assert(ds[0] == '"');
    assert(!digit(ds[0]));
}

proof fn lemma_mark_behind(s: Seq<char>, i: int)
    requires
        0 <= i < s.len(),
        lower(s[i]) != 'e',
    ensures
        i < exponent_mark(s, i) <= s.len(),
    decreases s.len() - i,
{
    reveal_with_fuel(exponent_mark, 2);
    if i + 1 < s.len() && lower(s[i + 1]) != 'e' {
        lemma_mark_behind(s, i + 1);
    }
}

proof fn lemma_point_behind(s: Seq<char>, i: int)
    requires
        0 <= i < s.len(),
        s[i] != '.',
    ensures
        i < point_mark(s, i) <= s.len(),
    decreases s.len() - i,
{
    reveal_with_fuel(point_mark, 2);
    if i + 1 < s.len() && s[i + 1] != '.' {
        lemma_point_behind(s, i + 1);
    }
}

proof fn lemma_unquoted(s: Seq<char>)
    requires
        forall|i: int| 0 <= i < s.len() ==> #[trigger] s[i] != '"',
    ensures
        unquoted(s) == s,
        unquoted(seq!['"'] + s + seq!['"']) == s,
{
    let p = either('"', '"');
    lemma_strip_start(s, p, 0);
    assert(s.skip(0) =~= s);
    lemma_strip_end(s, p, s.len() as int);
    assert(s.take(s.len() as int) =~= s);
    let q = seq!['"'] + s + seq!['"'];
    if s.len() > 0 {
        assert(q[1] == s[0]);
        lemma_strip_start(q, p, 1);
        let t = q.skip(1);
        assert(t =~= s + seq!['"']);
        assert(t[t.len() - 2] == s[s.len() - 1]);
        lemma_strip_end(t, p, t.len() - 1);
        assert(t.take(t.len() - 1) =~= s);
    } else {
        assert(q =~= seq!['"', '"']);
        lemma_strip_start(q, p, 2);
        assert(q.skip(2) =~= Seq::<char>::empty());
        lemma_strip_end(Seq::<char>::empty(), p, 0);
        assert(Seq::<char>::empty().take(0) =~= s);
    }
}

/// A string is compared by what stands between its quotation marks, with a
/// value that may stand between them or not; and strings are not ordered.
pub proof fn conditions_on_strings_hold_of_their_text(
    typ: Seq<char>,
    text: Seq<char>,
    value: Seq<char>,
)
    requires
        typ.len() > 0,
        typ[0] != '(',
        forall|i: int| 0 <= i < typ.len() ==> #[trigger] typ[i] != '=' && typ[i] != '<',
        forall|i: int| 0 <= i < text.len() ==> #[trigger] text[i] != '"',
        forall|i: int| 0 <= i < value.len() ==> #[trigger] value[i] != '"',
        value.len() > 0,
        !white(value[0]),
        !white(value.last()),
    ensures
        ({
            let shown = typ + " = "@ + (seq!['"'] + text + seq!['"']);
            let quoted = seq!['"'] + value + seq!['"'];
            &&& holds(shown, "=="@, value) <==> text == value
            &&& holds(shown, "!="@, value) <==> text != value
            &&& holds(shown, "=="@, quoted) <==> text == value
            &&& holds(shown, "!="@, quoted) <==> text != value
            &&& !holds(shown, "<"@, value) && !holds(shown, "<="@, value) && !holds(
                shown,
                ">"@,
                value,
            ) && !holds(shown, ">="@, value)
        }),
{
    lemma_operators_apart();
    let none = Seq::<char>::empty();
    let a = seq!['"'] + text + seq!['"'];
    let quoted = seq!['"'] + value + seq!['"'];
    let shown = typ + " = "@ + a;
    lemma_plain_type(typ, a);
    assert(a[0] == '"' && a.last() == '"');
    assert(quoted[0] == '"' && quoted.last() == '"');
    assert(none + a + none =~= a);
    lemma_trim_around(none, a, none);
    assert(none + quoted + none =~= quoted);
    lemma_trim_around(none, quoted, none);
    assert(none + value + none =~= value);
    lemma_trim_around(none, value, none);
    lemma_quote_is_no_number(a);
    lemma_unquoted(text);
    lemma_unquoted(value);
    reveal_strlit("(");
    assert(shown[0] == typ[0]);
    assert(!"("@.is_prefix_of(shown)) by {
        if "("@.is_prefix_of(shown) {
            assert("("@[0] == '(');
        }
    }
}

proof fn lemma_operator_here(t: Seq<char>, k: int, op: Seq<char>)
    requires
        0 <= k,
        op == "=="@ || op == "!="@ || op == "<"@ || op == "<="@ || op == ">"@ || op == ">="@,
        k + op.len() < t.len(),
        t.subrange(k, k + op.len()) == op,
        t[k + op.len()] != '=',
    ensures
        operator_at(t, k) == Some(op),
{
    reveal_strlit("==");
    reveal_strlit("!=");
    reveal_strlit("<=");
    reveal_strlit(">=");
    reveal_strlit("<");
    reveal_strlit(">");
    if k + 2 <= t.len() {
        let two = t.subrange(k, k + 2);
        assert(two[0] == t[k] && two[1] == t[k + 1]);
    }
    let one = t.subrange(k, k + 1);
    assert(one[0] == t[k]);
    assert(t.subrange(k, k + op.len())[0] == t[k]);
    if op.len() == 2 {
        assert(t.subrange(k, k + op.len())[1] == t[k + 1]);
    }
    assert("=="@[0] == '=' && "=="@[1] == '=' && "!="@[0] == '!' && "!="@[1] == '=');
    assert("<="@[0] == '<' && "<="@[1] == '=' && ">="@[0] == '>' && ">="@[1] == '=');
    assert("<"@[0] == '<' && ">"@[0] == '>');
}

/// A path, one of the six operators and a value, with any white space around
/// them, make the condition of those three.
pub proof fn conditions_are_read(
    before: Seq<char>,
    path: Seq<char>,
    gap: Seq<char>,
    op: Seq<char>,
    space: Seq<char>,
    rhs: Seq<char>,
    after: Seq<char>,
)
    requires
        op == "=="@ || op == "!="@ || op == "<"@ || op == "<="@ || op == ">"@ || op == ">="@,
        path.len() > 0,
        !white(path[0]),
        !white(path.last()),
        forall|i: int|
            0 <= i < path.len() ==> #[trigger] path[i] != '=' && path[i] != '!' && path[i] != '<'
                && path[i] != '>',
        rhs.len() > 0,
        !white(rhs[0]),
        !white(rhs.last()),
        rhs[0] != '=' && rhs[0] != '!' && rhs[0] != '<' && rhs[0] != '>',
        forall|i: int| 0 <= i < before.len() ==> white(#[trigger] before[i]),
        forall|i: int| 0 <= i < gap.len() ==> white(#[trigger] gap[i]),
        forall|i: int| 0 <= i < space.len() ==> white(#[trigger] space[i]),
        forall|i: int| 0 <= i < after.len() ==> white(#[trigger] after[i]),
    ensures
        predicate_of((before + path + gap) + op + (space + rhs + after)) == Some((path, op, rhs)),
{
    let left = before + path + gap;
    let right = space + rhs + after;
    let s = left + op + right;
    let k = left.len() as int;
    reveal_strlit("==");
    reveal_strlit("!=");
    reveal_strlit("<=");
    reveal_strlit(">=");
    reveal_strlit("<");
    reveal_strlit(">");
    assert forall|j: int| 0 <= j < k implies s[j] != '=' && s[j] != '!' && s[j] != '<' && s[j]
        != '>' by {
        if j < before.len() {
            assert(s[j] == before[j]);
        } else if j < before.len() + path.len() {
            assert(s[j] == path[j - before.len()]);
        } else {
            assert(s[j] == gap[j - before.len() - path.len()]);
        }
    }
    assert forall|j: int| 0 <= j < k implies (#[trigger] operator_at(s, j)) is None by {
        lemma_operator_chars(s, j);
    }
    assert(s.subrange(k, k + op.len()) =~= op);
    assert(s[k + op.len()] == right[0]);
    if space.len() > 0 {
        assert(right[0] == space[0]);
    } else {
        assert(right[0] == rhs[0]);
    }
    lemma_operator_here(s, k, op);
    lemma_operator_found(s, 0, k);
    assert(s.take(k) =~= left);
    assert(s.skip(k + op.len()) =~= right);
    lemma_trim_around(before, path, gap);
    lemma_trim_around(space, rhs, after);
    lemma_operator_chars(rhs, 0);
}

/// A text without any of the characters that operators are made of is no
/// condition.
pub proof fn without_an_operator_there_is_no_condition(s: Seq<char>)
    requires
        forall|i: int| 0 <= i < s.len() ==> #[trigger] s[i] != '=' && s[i] != '<' && s[i] != '>',
    ensures
        predicate_of(s) is None,
{
    lemma_first_operator(s, 0);
    if let Some(k) = first_operator(s, 0) {
        lemma_operator_chars(s, k);
    }
}

proof fn lemma_brackets_within(a: Seq<char>, b: Seq<char>, i: int)
    requires
        forall|k: int| 0 <= k < a.len() ==> #[trigger] a[k] != '<' && a[k] != '>',
        forall|k: int|
            0 <= k < b.len() ==> #[trigger] b[k] != '<' && (b[k] == '>' ==> k > 0 && b[k - 1]
                == '-'),
        0 <= i <= a.len() + 1 + b.len(),
    ensures
        open_brackets(a + seq!['<'] + b + seq!['>'], i) == if i <= a.len() {
            0int
        } else {
            1
        },
    decreases i,
{
    let s = a + seq!['<'] + b + seq!['>'];
    if i > 0 {
        lemma_brackets_within(a, b, i - 1);
        if i <= a.len() {
            assert(s[i - 1] == a[i - 1]);
        } else if i > a.len() + 1 {
            let k = i - a.len() - 2;
            assert(s[i - 1] == b[k]);
            if b[k] == '>' {
                assert(s[i - 2] == b[k - 1]);
            }
        }
    }
}

/// The value of a variable is what stands behind its type, though an ` = ` stand
/// between the brackets of the type, or an arrow.
pub proof fn the_value_stands_behind_its_type(
    a: Seq<char>,
    b: Seq<char>,
    value: Seq<char>,
    plain: Seq<char>,
)
    requires
        forall|k: int| 0 <= k < a.len() ==> #[trigger] a[k] != '<' && a[k] != '>' && a[k] != '=',
        forall|k: int|
            0 <= k < b.len() ==> #[trigger] b[k] != '<' && (b[k] == '>' ==> k > 0 && b[k - 1]
                == '-'),
        b.len() == 0 || b.last() != '-',
        a.len() + b.len() + 2 < LONGEST_TYPE,
        forall|k: int| 0 <= k < plain.len() ==> #[trigger] plain[k] != '=',
    ensures
        value_in(a + seq!['<'] + b + seq!['>'] + " = "@ + value) == value,
        value_in(a + " = "@ + value) == value,
        value_in(plain) == plain,
{
    reveal_strlit(" = ");
    let t = a + seq!['<'] + b + seq!['>'];
    let n = t.len() as int;
    lemma_brackets_within(a, b, n - 1);
    assert(t[n - 1] == '>');
    if b.len() > 0 {
        assert(t[n - 2] == b.last());
    } else {
        assert(t[n - 2] == '<');
    }
    assert(open_brackets(t, n) == 0);
    let head = t + " = "@;
    assert forall|i: int| 0 <= i < n implies !#[trigger] sep_at(head, i) by {
        lemma_brackets_within(a, b, i);
        assert(head.take(i) =~= t.take(i));
        lemma_open_brackets(head, t, i);
        if occurs_at(head, " = "@, i) {
            let found = head.subrange(i, i + 3);
            assert(found[0] == head[i] && found[1] == head[i + 1]);
            if i + 1 < a.len() {
                assert(head[i + 1] == a[i + 1]);
            } else if i + 1 == a.len() {
                assert(head[i + 1] == '<');
            } else if i == a.len() {
                assert(head[i] == '<');
            }
        }
    }
    shown_value_reads_back(t, value);
    let short = a + " = "@;
    lemma_no_brackets(a, a.len() as int);
    assert forall|i: int| 0 <= i < a.len() implies !#[trigger] sep_at(short, i) by {
        if occurs_at(short, " = "@, i) {
            let found = short.subrange(i, i + 3);
            assert(found[1] == short[i + 1]);
            if i + 1 < a.len() {
                assert(short[i + 1] == a[i + 1]);
            }
        }
    }
    shown_value_reads_back(a, value);
    assert forall|i: int| 0 <= i < plain.len() implies !#[trigger] sep_at(plain, i) by {
        if occurs_at(plain, " = "@, i) {
            assert(plain.subrange(i, i + 3)[1] == plain[i + 1]);
        }
    }
    lemma_no_sep(plain, 0);
}

proof fn lemma_no_brackets(a: Seq<char>, i: int)
    requires
        forall|k: int| 0 <= k < a.len() ==> #[trigger] a[k] != '<' && a[k] != '>',
        0 <= i <= a.len(),
    ensures
        open_brackets(a, i) == 0,
    decreases i,
{
    if i > 0 {
        lemma_no_brackets(a, i - 1);
    }
}

proof fn lemma_no_sep(s: Seq<char>, i: int)
    requires
        0 <= i <= s.len(),
        forall|k: int| 0 <= k < s.len() ==> !#[trigger] sep_at(s, k),
    ensures
        sep_from(s, i) is None,
    decreases s.len() - i,
{
    if i < s.len() {
        lemma_no_sep(s, i + 1);
    }
}

} // verus!
