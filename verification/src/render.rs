//! Turn lldb's raw type/symbol/value strings into readable Rust.

use vstd::prelude::*;
use crate::num::{int_text, lemma_int_text};
use crate::text::{
    begins, chars_of, contains, digit, ends, hex_digit, is_lower, is_white, lemma_rfound_upto,
    lemma_strip_start, lemma_trim_around, lemma_trimmed, lower_case, occurs_at, owned, replace_all,
    replaced, rfind_chars, rfind_upto, same, text_of, trim, trim_front, trimmed, trimmed_start,
    white, whites,
};

verus! {

// ---------------------------------------------------------------------------
// Types
// ---------------------------------------------------------------------------

/// The most characters that are shown of a type name.
pub const LONGEST_TYPE: usize = 80;

/// A character of an identifier: an ASCII letter or digit, an underscore, or
/// a character beyond ASCII that is not white space.
pub open spec fn ident_char(c: char) -> bool {
    '0' <= c <= '9' || 'A' <= c <= 'Z' || 'a' <= c <= 'z' || c == '_' || (c > '\x7f' && !white(c))
}

/// A lower-case letter or an underscore, as a module's name begins.
pub open spec fn module_char(c: char) -> bool {
    ident_char(c) && (lower_case(c) || c == '_')
}

/// An identifier may begin at `i`: none reaches up to there.
pub open spec fn word_start(s: Seq<char>, i: int) -> bool {
    i == 0 || !ident_char(s[i - 1])
}

/// The end of the run of identifier characters from `i` on.
pub open spec fn ident_end(s: Seq<char>, i: int) -> int
    decreases s.len() - i,
{
    if 0 <= i < s.len() && ident_char(s[i]) {
        ident_end(s, i + 1)
    } else {
        i
    }
}

/// `::` stands at `i`.
pub open spec fn path_sep_at(s: Seq<char>, i: int) -> bool {
    0 <= i && i + 1 < s.len() && s[i] == ':' && s[i + 1] == ':'
}

/// An identifier in lower case begins at `i`.
pub open spec fn module_start(s: Seq<char>, i: int) -> bool {
    0 <= i < s.len() && word_start(s, i) && module_char(s[i])
}

/// A segment of a module path stands at `i`: an identifier in lower case that
/// `::` follows.
pub open spec fn segment_at(s: Seq<char>, i: int) -> bool {
    module_start(s, i) && path_sep_at(s, ident_end(s, i))
}

pub proof fn lemma_ident_end(s: Seq<char>, i: int)
    requires
        0 <= i <= s.len(),
    ensures
        i <= ident_end(s, i) <= s.len(),
        i < s.len() && ident_char(s[i]) ==> i < ident_end(s, i),
        forall|k: int| i <= k < ident_end(s, i) ==> ident_char(#[trigger] s[k]),
        ident_end(s, i) < s.len() ==> !ident_char(s[ident_end(s, i)]),
    decreases s.len() - i,
{
    if i < s.len() && ident_char(s[i]) {
        lemma_ident_end(s, i + 1);
    }
}

/// What is left of a type name from `i` on once each segment of a module path
/// is dropped, together with the `::` behind it.
pub open spec fn without_modules(s: Seq<char>, i: int) -> Seq<char>
    decreases s.len() - i,
{
    if i < 0 || i >= s.len() {
        Seq::empty()
    } else if module_start(s, i) {
        let j = ident_end(s, i);
        proof {
            lemma_ident_end(s, i);
        }
        if path_sep_at(s, j) {
            without_modules(s, j + 2)
        } else {
            s.subrange(i, j) + without_modules(s, j)
        }
    } else {
        seq![s[i]] + without_modules(s, i + 1)
    }
}

/// The first `n` characters.
pub open spec fn at_most(s: Seq<char>, n: int) -> Seq<char> {
    if s.len() > n {
        s.take(n)
    } else {
        s
    }
}

/// A type name without module paths, and without the default allocator: an
/// argument `Global` that is the last of several, or by its full path the only
/// one. Other names that hold `Global` are kept. Cut off after 80 characters.
pub open spec fn short_type_of(t: Seq<char>) -> Seq<char> {
    let s = replaced(t, "<alloc::alloc::Global>"@, "<>"@);
    at_most(
        trimmed(replaced(without_modules(s, 0), ", Global>"@, ">"@)),
        LONGEST_TYPE as int,
    )
}

fn is_ident(c: char) -> (r: bool)
    ensures
        r == ident_char(c),
{
    ('0' <= c && c <= '9') || ('A' <= c && c <= 'Z') || ('a' <= c && c <= 'z') || c == '_' || (c
        > '\x7f' && !is_white(c))
}

/// `alloc::vec::Vec<demo::Item, alloc::alloc::Global>` -> `Vec<Item>`.
/// Drops lowercase module path segments (an identifier immediately followed by
/// `::`), keeping type names.
pub fn short_type(t: &str) -> (r: String)
    ensures
        r@ == short_type_of(t@),
        r@.len() <= LONGEST_TYPE,
{
    let whole = replace_all(t, "<alloc::alloc::Global>", "<>");
    let v = chars_of(whole.as_str());
    let ghost s = whole@;
    let mut out = String::new();
    let mut i: usize = 0;
    while i < v.len()
        invariant
            i <= v.len(),
            v@ == s,
            without_modules(s, 0) == out@ + without_modules(s, i as int),
        decreases v.len() - i,
    {
        let ghost before = out@;
        let at_boundary = i == 0 || !is_ident(v[i - 1]);
        if at_boundary && is_ident(v[i]) && (is_lower(v[i]) || v[i] == '_') {
            let mut j: usize = i;
            proof {
                lemma_ident_end(s, i as int);
            }
            while j < v.len() && is_ident(v[j])
                invariant
                    i <= j <= v.len(),
                    v@ == s,
                    ident_end(s, i as int) == ident_end(s, j as int),
                decreases v.len() - j,
            {
                j += 1;
            }
            assert(j == ident_end(s, i as int));
            if j < v.len() && v.len() - j > 1 && v[j] == ':' && v[j + 1] == ':' {
                i = j + 2;
                continue;
            }
            let part = text_of(&v, i, j);
            out.append(part.as_str());
            assert(before + (part@ + without_modules(s, j as int)) =~= out@ + without_modules(
                s,
                j as int,
            ));
            i = j;
            continue;
        }
        out.push(v[i]);
        assert(before + (seq![s[i as int]] + without_modules(s, i + 1)) =~= out@ + without_modules(
            s,
            i + 1,
        ));
        i += 1;
    }
    assert(out@ =~= without_modules(s, 0));
    let out = replace_all(out.as_str(), ", Global>", ">");
    let out = trim(out.as_str());
    let v = chars_of(out.as_str());
    if v.len() > LONGEST_TYPE {
        let cut = text_of(&v, 0, LONGEST_TYPE);
        assert(cut@ == out@.take(LONGEST_TYPE as int));
        cut
    } else {
        out
    }
}

/// No segment of a module path is left.
pub open spec fn no_segments(s: Seq<char>) -> bool {
    forall|i: int| !#[trigger] segment_at(s, i)
}

/// No segment of a module path is left where `s` stands behind other text,
/// and an identifier may begin at its start where `fresh` says so.
spec fn none_behind(s: Seq<char>, fresh: bool) -> bool {
    forall|i: int| #[trigger] segment_at(s, i) ==> i == 0 && !fresh
}

/// Every run of colons has exactly two of them.
pub open spec fn paired_colons(s: Seq<char>) -> bool {
    forall|i: int|
        0 <= i < s.len() && (#[trigger] s[i]) == ':' ==> if i > 0 && s[i - 1] == ':' {
            (i < 2 || s[i - 2] != ':') && (i + 1 >= s.len() || s[i + 1] != ':')
        } else {
            path_sep_at(s, i) && (i + 2 >= s.len() || s[i + 2] != ':')
        }
}

/// The run of identifier characters in text that follows other text.
proof fn lemma_ident_end_behind(a: Seq<char>, b: Seq<char>, i: int)
    requires
        0 <= i <= b.len(),
    ensures
        ident_end(a + b, a.len() + i) == a.len() + ident_end(b, i),
    decreases b.len() - i,
{
    if i < b.len() && ident_char(b[i]) {
        assert((a + b)[a.len() + i] == b[i]);
        lemma_ident_end_behind(a, b, i + 1);
    } else if i < b.len() {
        assert((a + b)[a.len() + i] == b[i]);
    }
}

/// Text behind a word, or behind a character that is of none, and no segment in
/// it.
proof fn lemma_none_in_front(a: Seq<char>, b: Seq<char>, fresh: bool)
    requires
        a.len() > 0,
        none_behind(b, !ident_char(a.last())),
        forall|k: int| 0 < k < a.len() ==> !word_start(a, k),
        fresh ==> !segment_at(a + b, 0),
    ensures
        none_behind(a + b, fresh),
{
    let s = a + b;
    assert forall|i: int| #[trigger] segment_at(s, i) implies i == 0 && !fresh by {
        if 0 < i < a.len() {
            assert(s[i - 1] == a[i - 1]);
            assert(!word_start(a, i));
        } else if i >= a.len() {
            let k = i - a.len();
            lemma_ident_end_behind(a, b, k);
            lemma_ident_end(b, k);
            assert(s[i] == b[k]);
            let e = ident_end(b, k);
            assert(s[a.len() + e] == b[e]);
            assert(s[a.len() + e + 1] == b[e + 1]);
            if k > 0 {
                assert(s[i - 1] == b[k - 1]);
            } else {
                assert(s[i - 1] == a.last());
            }
            assert(segment_at(b, k));
        }
    }
}

/// What follows a word, once segments are dropped, is what stood behind it.
proof fn lemma_word_kept(s: Seq<char>, i: int)
    requires
        0 <= i <= s.len(),
        !word_start(s, i),
    ensures
        without_modules(s, i) == s.subrange(i, ident_end(s, i)) + without_modules(
            s,
            ident_end(s, i),
        ),
    decreases s.len() - i,
{
    if i < s.len() && ident_char(s[i]) {
        lemma_word_kept(s, i + 1);
        lemma_ident_end(s, i + 1);
        let e = ident_end(s, i);
        assert(s.subrange(i, e) =~= seq![s[i]] + s.subrange(i + 1, e));
        assert(s.subrange(i, e) + without_modules(s, e) =~= seq![s[i]] + (s.subrange(i + 1, e)
            + without_modules(s, e)));
    } else {
        assert(s.subrange(i, i) =~= Seq::empty());
        assert(s.subrange(i, i) + without_modules(s, i) =~= without_modules(s, i));
    }
}

/// Text from a character on that is of no identifier begins with it.
proof fn lemma_mark_kept(s: Seq<char>, i: int)
    requires
        0 <= i < s.len(),
        !ident_char(s[i]),
    ensures
        without_modules(s, i).len() > 0,
        without_modules(s, i)[0] == s[i],
{
}

proof fn lemma_none_left(s: Seq<char>, i: int)
    requires
        0 <= i <= s.len(),
        paired_colons(s),
    ensures
        none_behind(without_modules(s, i), word_start(s, i)),
        without_modules(s, i).len() <= s.len() - i,
    decreases s.len() - i,
{
    if i == s.len() {
    } else if module_start(s, i) {
        let j = ident_end(s, i);
        lemma_ident_end(s, i);
        if path_sep_at(s, j) {
            lemma_none_left(s, j + 2);
        } else {
            lemma_none_left(s, j);
            let a = s.subrange(i, j);
            let b = without_modules(s, j);
            assert(a.last() == s[j - 1]);
            assert forall|k: int| 0 < k < a.len() implies !word_start(a, k) by {
                assert(a[k - 1] == s[i + k - 1]);
            }
            assert forall|k: int| 0 <= k < a.len() implies ident_char(#[trigger] a[k]) by {
                assert(a[k] == s[i + k]);
            }
            if j < s.len() {
                lemma_mark_kept(s, j);
            }
            lemma_word_from(a, b, 0);
            if segment_at(a + b, 0) {
                assert((a + b)[a.len() as int] == b[0]);
                assert(s[j] == ':');
                assert(s[j - 1] != ':');
            }
            lemma_none_in_front(a, b, true);
        }
    } else {
        lemma_none_left(s, i + 1);
        let a = seq![s[i]];
        let b = without_modules(s, i + 1);
        assert(a.last() == s[i]);
        assert((a + b)[0] == s[i]);
        lemma_none_in_front(a, b, word_start(s, i));
    }
}

/// A word in front of text that begins with no identifier ends where that
/// begins.
proof fn lemma_word_from(a: Seq<char>, b: Seq<char>, i: int)
    requires
        0 <= i <= a.len(),
        forall|k: int| 0 <= k < a.len() ==> ident_char(#[trigger] a[k]),
        b.len() > 0 ==> !ident_char(b[0]),
    ensures
        ident_end(a + b, i) == a.len(),
    decreases a.len() - i,
{
    if i < a.len() {
        assert((a + b)[i] == a[i]);
        lemma_word_from(a, b, i + 1);
    } else if b.len() > 0 {
        assert((a + b)[i] == b[0]);
    }
}

/// Text without segments stays as it is.
proof fn lemma_nothing_dropped(s: Seq<char>, i: int)
    requires
        0 <= i <= s.len(),
        no_segments(s),
    ensures
        without_modules(s, i) == s.skip(i),
    decreases s.len() - i,
{
    if i < s.len() {
        if module_start(s, i) {
            assert(!segment_at(s, i));
            let j = ident_end(s, i);
            lemma_ident_end(s, i);
            lemma_nothing_dropped(s, j);
            assert(s.subrange(i, j) + s.skip(j) =~= s.skip(i));
        } else {
            lemma_nothing_dropped(s, i + 1);
            assert(seq![s[i]] + s.skip(i + 1) =~= s.skip(i));
        }
    } else {
        assert(s.skip(i) =~= Seq::empty());
    }
}

/// A word that is left stood there before.
proof fn lemma_words_stood(s: Seq<char>, i: int, p: Seq<char>, k: int)
    requires
        0 <= i <= s.len(),
        p.len() > 0,
        forall|q: int| 0 <= q < p.len() ==> ident_char(#[trigger] p[q]),
        occurs_at(without_modules(s, i), p, k),
    ensures
        contains(s, p),
    decreases s.len() - i,
{
    let w = without_modules(s, i);
    let found = w.subrange(k, k + p.len());
    assert forall|q: int| k <= q < k + p.len() implies ident_char(#[trigger] w[q]) by {
        assert(w[q] == found[q - k]);
        assert(found[q - k] == p[q - k]);
    }
    lemma_ident_end(s, i);
    if i < s.len() && segment_at(s, i) {
        lemma_words_stood(s, ident_end(s, i) + 2, p, k);
    } else if i < s.len() && ident_char(s[i]) {
        let e = ident_end(s, i);
        let a = s.subrange(i, e);
        let b = without_modules(s, e);
        if !module_start(s, i) {
            lemma_word_kept(s, i + 1);
            assert(ident_end(s, i + 1) == e);
            assert(a =~= seq![s[i]] + s.subrange(i + 1, e));
            assert(w =~= a + b);
        }
        if k >= a.len() {
            assert(b.subrange(k - a.len(), k - a.len() + p.len()) =~= found);
            lemma_words_stood(s, e, p, k - a.len());
        } else {
            if k + p.len() > a.len() {
                assert(w[a.len() as int] == b[0]);
                if e < s.len() {
                    lemma_mark_kept(s, e);
                }
                assert(false);
            }
            assert(s.subrange(i + k, i + k + p.len()) =~= found);
            assert(occurs_at(s, p, i + k));
        }
    } else if i < s.len() {
        assert(w[0] == s[i]);
        let b = without_modules(s, i + 1);
        assert(b.subrange(k - 1, k - 1 + p.len()) =~= found);
        lemma_words_stood(s, i + 1, p, k - 1);
    }
}

/// Text in which a text does not stand stays as it is where that is replaced.
proof fn lemma_nothing_replaced(s: Seq<char>, p: Seq<char>, with: Seq<char>)
    requires
        !contains(s, p),
    ensures
        replaced(s, p, with) == s,
    decreases s.len(),
{
    if p.len() > 0 && s.len() >= p.len() {
        assert(!occurs_at(s, p, 0));
        let rest = s.skip(1);
        if contains(rest, p) {
            let i = choose|i: int| occurs_at(rest, p, i);
            assert(s.subrange(i + 1, i + 1 + p.len()) =~= rest.subrange(i, i + p.len()));
            assert(occurs_at(s, p, i + 1));
        }
        lemma_nothing_replaced(rest, p, with);
        assert(seq![s[0]] + rest =~= s);
    }
}

/// A part of a text holds no text that the whole does not.
proof fn lemma_part_contains(s: Seq<char>, a: int, b: int, p: Seq<char>)
    requires
        0 <= a <= b <= s.len(),
        contains(s.subrange(a, b), p),
    ensures
        contains(s, p),
{
    let t = s.subrange(a, b);
    let i = choose|i: int| occurs_at(t, p, i);
    assert(s.subrange(a + i, a + i + p.len()) =~= t.subrange(i, i + p.len()));
    assert(occurs_at(s, p, a + i));
}

/// The run of identifier characters in a part of a text.
proof fn lemma_ident_end_part(s: Seq<char>, a: int, b: int, i: int)
    requires
        0 <= a <= b <= s.len(),
        0 <= i <= b - a,
    ensures
        ident_end(s.subrange(a, b), i) == ident_end(s, a + i) - a || ident_end(
            s.subrange(a, b),
            i,
        ) == b - a,
    decreases b - a - i,
{
    let t = s.subrange(a, b);
    if i < t.len() {
        assert(t[i] == s[a + i]);
        if ident_char(t[i]) {
            lemma_ident_end_part(s, a, b, i + 1);
        }
    }
}

/// Trimming leaves no segment where there was none.
proof fn lemma_trimmed_segments(s: Seq<char>)
    requires
        no_segments(s),
    ensures
        no_segments(trimmed(s)),
{
    let (a, b) = lemma_trimmed(s);
    let t = trimmed(s);
    assert forall|i: int| !#[trigger] segment_at(t, i) by {
        if segment_at(t, i) {
            let e = ident_end(t, i);
            lemma_ident_end(t, i);
            lemma_ident_end_part(s, a, b, i);
            assert(e < t.len());
            assert(s[a + e] == t[e] && s[a + e + 1] == t[e + 1]);
            assert(s[a + i] == t[i]);
            if i > 0 {
                assert(s[a + i - 1] == t[i - 1]);
            }
            assert(segment_at(s, a + i));
        }
    }
}

/// Shortening a type name twice is shortening it once, and no segment of a
/// module path is left: for names of at most 80 characters whose colons come in
/// pairs, in which the default allocator's name does not stand.
pub proof fn shortening_is_idempotent(t: Seq<char>)
    requires
        t.len() <= LONGEST_TYPE,
        !contains(t, "Global"@),
        paired_colons(t),
    ensures
        no_segments(short_type_of(t)),
        short_type_of(short_type_of(t)) == short_type_of(t),
{
    reveal_strlit("Global");
    reveal_strlit("<alloc::alloc::Global>");
    reveal_strlit(", Global>");
    let name = "Global"@;
    let only = "<alloc::alloc::Global>"@;
    let last = ", Global>"@;
    assert(only.subrange(15, 21) =~= name);
    assert(last.subrange(2, 8) =~= name);
    if contains(t, only) {
        let i = choose|i: int| occurs_at(t, only, i);
        assert(t.subrange(i, i + only.len()).subrange(15, 21) =~= t.subrange(i + 15, i + 21));
        assert(occurs_at(t, name, i + 15));
    }
    lemma_nothing_replaced(t, only, "<>"@);
    let w = without_modules(t, 0);
    lemma_none_left(t, 0);
    assert forall|i: int| !#[trigger] segment_at(w, i) by {}
    if contains(w, last) {
        let i = choose|i: int| occurs_at(w, last, i);
        assert(w.subrange(i, i + last.len()).subrange(2, 8) =~= w.subrange(i + 2, i + 8));
        assert(occurs_at(w, name, i + 2));
        lemma_words_stood(t, 0, name, i + 2);
    }
    lemma_nothing_replaced(w, last, ">"@);
    let (a, b) = lemma_trimmed(w);
    let s = trimmed(w);
    lemma_trimmed_segments(w);
    assert(short_type_of(t) == s);
    if contains(s, last) {
        lemma_part_contains(w, a, b, last);
    }
    if contains(s, only) {
        let i = choose|i: int| occurs_at(s, only, i);
        assert(s.subrange(i, i + only.len()).subrange(15, 21) =~= s.subrange(i + 15, i + 21));
        assert(occurs_at(s, name, i + 15));
        lemma_part_contains(w, a, b, name);
        let k = choose|k: int| occurs_at(w, name, k);
        lemma_words_stood(t, 0, name, k);
    }
    lemma_nothing_replaced(s, only, "<>"@);
    lemma_nothing_dropped(s, 0);
    assert(s.skip(0) =~= s);
    lemma_nothing_replaced(s, last, ">"@);
    lemma_trimmed(s);
    if s.len() > 0 {
        lemma_trim_around(Seq::empty(), s, Seq::empty());
        assert(Seq::empty() + s + Seq::empty() =~= s);
    } else {
        assert(trimmed(s) =~= s);
    }
}

// ---------------------------------------------------------------------------
// Symbols
// ---------------------------------------------------------------------------

/// A symbol without the hash that ends it: `::h` and eight or more
/// hexadecimal digits.
pub open spec fn without_hash(s: Seq<char>) -> Seq<char> {
    match rfind_upto(s, "::h"@, s.len() as int) {
        Some(i) => {
            let tail = s.skip(i + 3);
            if tail.len() >= 8 && forall|k: int| 0 <= k < tail.len() ==> hex_digit(#[trigger] tail[k]) {
                s.take(i)
            } else {
                s
            }
        },
        None => s,
    }
}

/// A symbol with the legacy mangling of punctuation decoded.
pub open spec fn demangled(s: Seq<char>) -> Seq<char> {
    let s = replaced(s, "$LT$"@, "<"@);
    let s = replaced(s, "$GT$"@, ">"@);
    let s = replaced(s, "$u20$"@, " "@);
    let s = replaced(s, "$C$"@, ","@);
    let s = replaced(s, "$LP$"@, "("@);
    let s = replaced(s, "$RP$"@, ")"@);
    let s = replaced(s, "$u7b$"@, "{"@);
    let s = replaced(s, "$u7d$"@, "}"@);
    let s = replaced(s, "$RF$"@, "&"@);
    let s = replaced(s, "$BP$"@, "*"@);
    let s = replaced(s, "$u5b$"@, "["@);
    let s = replaced(s, "$u5d$"@, "]"@);
    replaced(s, ".."@, "::"@)
}

pub open spec fn short_fn_of(s: Seq<char>) -> Seq<char> {
    demangled(without_hash(s))
}

fn is_hex(c: char) -> (r: bool)
    ensures
        r == hex_digit(c),
{
    ('0' <= c && c <= '9') || ('a' <= c && c <= 'f') || ('A' <= c && c <= 'F')
}

fn strip_hash(name: &str) -> (r: String)
    ensures
        r@ == without_hash(name@),
{
    let v = chars_of(name);
    let p = chars_of("::h");
    proof {
        reveal_strlit("::h");
    }
    match rfind_chars(&v, &p) {
        Some(i) => {
            let ghost tail = name@.skip(i + 3);
            if v.len() - (i + 3) < 8 {
                return owned(name);
            }
            let mut k: usize = i + 3;
            while k < v.len()
                invariant
                    i + 3 <= k <= v.len(),
                    v@ == name@,
                    tail == name@.skip(i + 3),
                    tail.len() >= 8,
                    rfind_upto(name@, "::h"@, name@.len() as int) == Some(i as int),
                    forall|q: int| 0 <= q < k - (i + 3) ==> hex_digit(#[trigger] tail[q]),
                decreases v.len() - k,
            {
                assert(tail[k - (i + 3)] == v@[k as int]);
                if !is_hex(v[k]) {
                    return owned(name);
                }
                k += 1;
            }
            let cut = text_of(&v, 0, i);
            assert(cut@ == name@.take(i as int));
            cut
        },
        None => owned(name),
    }
}

/// `demo::total::h71bcff96...` -> `demo::total`; decodes legacy `$LT$` mangling.
pub fn short_fn(name: &str) -> (r: String)
    ensures
        r@ == short_fn_of(name@),
{
    let s = strip_hash(name);
    let s = replace_all(s.as_str(), "$LT$", "<");
    let s = replace_all(s.as_str(), "$GT$", ">");
    let s = replace_all(s.as_str(), "$u20$", " ");
    let s = replace_all(s.as_str(), "$C$", ",");
    let s = replace_all(s.as_str(), "$LP$", "(");
    let s = replace_all(s.as_str(), "$RP$", ")");
    let s = replace_all(s.as_str(), "$u7b$", "{");
    let s = replace_all(s.as_str(), "$u7d$", "}");
    let s = replace_all(s.as_str(), "$RF$", "&");
    let s = replace_all(s.as_str(), "$BP$", "*");
    let s = replace_all(s.as_str(), "$u5b$", "[");
    let s = replace_all(s.as_str(), "$u5d$", "]");
    replace_all(s.as_str(), "..", "::")
}

// ---------------------------------------------------------------------------
// Leaves
// ---------------------------------------------------------------------------

/// A value text that is complete: quoted, parenthesised, a number, a boolean
/// or `None`.
pub open spec fn leaf_value(v: Seq<char>) -> bool {
    let t = trimmed_start(v);
    ||| t.len() > 0 && (t[0] == '"' || t[0] == '\'' || t[0] == '(' || t[0] == '-' || digit(t[0]))
    ||| t == "true"@
    ||| t == "false"@
    ||| t == "None"@
}

/// A value string that is already a complete leaf (no children worth expanding).
pub fn is_leaf_value(v: &str) -> (r: bool)
    ensures
        r == leaf_value(v@),
{
    let t = trim_front(v);
    let cs = chars_of(t.as_str());
    if cs.len() > 0 {
        let c = cs[0];
        if c == '"' || c == '\'' || c == '(' || c == '-' || ('0' <= c && c <= '9') {
            return true;
        }
    }
    same(t.as_str(), "true") || same(t.as_str(), "false") || same(t.as_str(), "None")
}

/// `u`, `i` or `f` before a digit, or a machine-sized integer.
pub open spec fn num_type(t: Seq<char>) -> bool {
    ||| t.len() > 1 && (t[0] == 'u' || t[0] == 'i' || t[0] == 'f') && digit(t[1])
    ||| "usize"@.is_prefix_of(t)
    ||| "isize"@.is_prefix_of(t)
}

/// A type whose values are single leaves: strings, characters, booleans,
/// numbers.
pub open spec fn leaf_type(t: Seq<char>) -> bool {
    ||| "String"@.is_suffix_of(t)
    ||| "str"@.is_suffix_of(t)
    ||| "char"@.is_suffix_of(t)
    ||| "bool"@.is_suffix_of(t)
    ||| num_type(t)
}

/// A type that renders as a single leaf value (primitive / string / char).
pub fn is_leaf_type(t: &str) -> (r: bool)
    ensures
        r == leaf_type(t@),
{
    ends(t, "String") || ends(t, "str") || ends(t, "char") || ends(t, "bool") || is_num_type(t)
}

pub fn is_num_type(t: &str) -> (r: bool)
    ensures
        r == num_type(t@),
{
    let cs = chars_of(t);
    if cs.len() > 1 && (cs[0] == 'u' || cs[0] == 'i' || cs[0] == 'f') && '0' <= cs[1] && cs[1]
        <= '9' {
        return true;
    }
    begins(t, "usize") || begins(t, "isize")
}

// ---------------------------------------------------------------------------
// What names are shown as
// ---------------------------------------------------------------------------

/// Text whose first part holds no beginning of what is replaced keeps it.
proof fn lemma_replaced_behind(a: Seq<char>, b: Seq<char>, p: Seq<char>, with: Seq<char>)
    requires
        p.len() > 0,
        forall|i: int| 0 <= i < a.len() ==> #[trigger] a[i] != p[0],
    ensures
        replaced(a + b, p, with) == a + replaced(b, p, with),
    decreases a.len(),
{
    let s = a + b;
    if a.len() == 0 {
        assert(s =~= b);
        assert(a + replaced(b, p, with) =~= replaced(b, p, with));
    } else {
        let rest = a.skip(1);
        assert forall|i: int| 0 <= i < rest.len() implies #[trigger] rest[i] != p[0] by {
            assert(rest[i] == a[i + 1]);
        }
        lemma_replaced_behind(rest, b, p, with);
        assert(s.skip(1) =~= rest + b);
        if s.len() < p.len() {
            lemma_nothing_fits(rest + b, p, with);
            lemma_nothing_fits(b, p, with);
        } else {
            if occurs_at(s, p, 0) {
                assert(s.subrange(0, p.len() as int)[0] == s[0]);
                assert(s[0] == a[0]);
            }
            assert(s[0] == a[0]);
            assert(seq![s[0]] + (rest + replaced(b, p, with)) =~= a + replaced(b, p, with));
        }
    }
}

proof fn lemma_nothing_fits(s: Seq<char>, p: Seq<char>, with: Seq<char>)
    requires
        s.len() < p.len(),
    ensures
        replaced(s, p, with) == s,
{
}

/// One occurrence, with nothing around it that could begin another, is
/// replaced.
proof fn lemma_replaced_once(a: Seq<char>, p: Seq<char>, b: Seq<char>, with: Seq<char>)
    requires
        p.len() > 0,
        forall|i: int| 0 <= i < a.len() ==> #[trigger] a[i] != p[0],
        forall|i: int| 0 <= i < b.len() ==> #[trigger] b[i] != p[0],
    ensures
        replaced(a + p + b, p, with) == a + with + b,
{
    lemma_replaced_behind(a, p + b, p, with);
    assert(a + p + b =~= a + (p + b));
    let s = p + b;
    assert(s.subrange(0, p.len() as int) =~= p);
    assert(occurs_at(s, p, 0));
    assert(s.skip(p.len() as int) =~= b);
    let none = Seq::<char>::empty();
    lemma_replaced_behind(b, none, p, with);
    assert(b + none =~= b);
    assert(replaced(none, p, with) =~= none);
    assert(replaced(b, p, with) =~= b);
    assert(a + (with + b) =~= a + with + b);
}

/// Between texts without a dollar sign, one mark is no other.
proof fn lemma_other_mark(a: Seq<char>, m: Seq<char>, b: Seq<char>, p: Seq<char>, with: Seq<char>)
    requires
        m.len() > 1,
        m[0] == '$' && m.last() == '$',
        forall|i: int| 0 < i < m.len() - 1 ==> #[trigger] m[i] != '$',
        p.len() > 1,
        p[0] == '$' && p.last() == '$',
        forall|i: int| 0 < i < p.len() - 1 ==> #[trigger] p[i] != '$',
        forall|i: int| 0 <= i < a.len() ==> #[trigger] a[i] != '$',
        forall|i: int| 0 <= i < b.len() ==> #[trigger] b[i] != '$',
        p != m,
    ensures
        replaced(a + m + b, p, with) == a + m + b,
{
    let s = a + m + b;
    if contains(s, p) {
        let i = choose|i: int| #[trigger] occurs_at(s, p, i);
        let found = s.subrange(i, i + p.len());
        assert(found[0] == s[i] && found[p.len() - 1] == s[i + p.len() - 1]);
        let x = a.len() as int;
        let y = x + m.len() - 1;
        assert forall|k: int| 0 <= k < s.len() && k != x && k != y implies s[k] != '$' by {
            if k < x {
                assert(s[k] == a[k]);
            } else if k < y {
                assert(s[k] == m[k - x]);
            } else {
                assert(s[k] == b[k - y - 1]);
            }
        }
        assert(i == x && i + p.len() - 1 == y);
        assert(found =~= m);
    }
    lemma_nothing_replaced(s, p, with);
}

proof fn lemma_no_mark(s: Seq<char>, p: Seq<char>, with: Seq<char>)
    requires
        p.len() > 0,
        forall|i: int| 0 <= i < s.len() ==> #[trigger] s[i] != p[0],
    ensures
        replaced(s, p, with) == s,
{
    let none = Seq::<char>::empty();
    lemma_replaced_behind(s, none, p, with);
    assert(s + none =~= s);
    assert(replaced(none, p, with) =~= none);
    assert(s + none =~= s);
}

/// The marks that stand for punctuation in a symbol.
proof fn lemma_marks()
    ensures
        is_mark("$LT$"@),
        is_mark("$GT$"@),
        is_mark("$u20$"@),
        is_mark("$C$"@),
        is_mark("$LP$"@),
        is_mark("$RP$"@),
        is_mark("$u7b$"@),
        is_mark("$u7d$"@),
        is_mark("$RF$"@),
        is_mark("$BP$"@),
        is_mark("$u5b$"@),
        is_mark("$u5d$"@),
        ".."@.len() == 2,
        ".."@[0] == '.',
{
    reveal_strlit("$LT$");
    reveal_strlit("$GT$");
    reveal_strlit("$u20$");
    reveal_strlit("$C$");
    reveal_strlit("$LP$");
    reveal_strlit("$RP$");
    reveal_strlit("$u7b$");
    reveal_strlit("$u7d$");
    reveal_strlit("$RF$");
    reveal_strlit("$BP$");
    reveal_strlit("$u5b$");
    reveal_strlit("$u5d$");
    reveal_strlit("..");
}

/// A mark: a dollar sign at either end and none between.
spec fn is_mark(m: Seq<char>) -> bool {
    &&& m.len() > 1
    &&& m[0] == '$' && m.last() == '$'
    &&& forall|i: int| 0 < i < m.len() - 1 ==> #[trigger] m[i] != '$'
}

/// A name without dollar signs and points is the same once it is decoded.
proof fn lemma_nothing_to_decode(s: Seq<char>)
    requires
        forall|i: int| 0 <= i < s.len() ==> #[trigger] s[i] != '$' && s[i] != '.',
    ensures
        demangled(s) == s,
{
    lemma_marks();
    lemma_no_mark(s, "$LT$"@, "<"@);
    lemma_no_mark(s, "$GT$"@, ">"@);
    lemma_no_mark(s, "$u20$"@, " "@);
    lemma_no_mark(s, "$C$"@, ","@);
    lemma_no_mark(s, "$LP$"@, "("@);
    lemma_no_mark(s, "$RP$"@, ")"@);
    lemma_no_mark(s, "$u7b$"@, "{"@);
    lemma_no_mark(s, "$u7d$"@, "}"@);
    lemma_no_mark(s, "$RF$"@, "&"@);
    lemma_no_mark(s, "$BP$"@, "*"@);
    lemma_no_mark(s, "$u5b$"@, "["@);
    lemma_no_mark(s, "$u5d$"@, "]"@);
    lemma_no_mark(s, ".."@, "::"@);
}

proof fn lemma_decode_1(a: Seq<char>, b: Seq<char>)
    requires
        forall|i: int| 0 <= i < a.len() ==> #[trigger] a[i] != '$' && a[i] != '.',
        forall|i: int| 0 <= i < b.len() ==> #[trigger] b[i] != '$' && b[i] != '.',
    ensures
        demangled(a + "$LT$"@ + b) == a + "<"@ + b,
{
    lemma_marks();
    reveal_strlit("$LT$");
    reveal_strlit("<");
    let r = a + "<"@ + b;
    assert forall|i: int| 0 <= i < r.len() implies #[trigger] r[i] != '$' && r[i] != '.' by {
        if i < a.len() {
            assert(r[i] == a[i]);
        } else if i > a.len() {
            assert(r[i] == b[i - a.len() - 1]);
        }
    }
    lemma_replaced_once(a, "$LT$"@, b, "<"@);
    lemma_no_mark(r, "$GT$"@, ">"@);
    lemma_no_mark(r, "$u20$"@, " "@);
    lemma_no_mark(r, "$C$"@, ","@);
    lemma_no_mark(r, "$LP$"@, "("@);
    lemma_no_mark(r, "$RP$"@, ")"@);
    lemma_no_mark(r, "$u7b$"@, "{"@);
    lemma_no_mark(r, "$u7d$"@, "}"@);
    lemma_no_mark(r, "$RF$"@, "&"@);
    lemma_no_mark(r, "$BP$"@, "*"@);
    lemma_no_mark(r, "$u5b$"@, "["@);
    lemma_no_mark(r, "$u5d$"@, "]"@);
    lemma_no_mark(r, ".."@, "::"@);
}

proof fn lemma_decode_2(a: Seq<char>, b: Seq<char>)
    requires
        forall|i: int| 0 <= i < a.len() ==> #[trigger] a[i] != '$' && a[i] != '.',
        forall|i: int| 0 <= i < b.len() ==> #[trigger] b[i] != '$' && b[i] != '.',
    ensures
        demangled(a + "$GT$"@ + b) == a + ">"@ + b,
{
    lemma_marks();
    reveal_strlit("$GT$");
    reveal_strlit(">");
    let r = a + ">"@ + b;
    assert forall|i: int| 0 <= i < r.len() implies #[trigger] r[i] != '$' && r[i] != '.' by {
        if i < a.len() {
            assert(r[i] == a[i]);
        } else if i > a.len() {
            assert(r[i] == b[i - a.len() - 1]);
        }
    }
    reveal_strlit("$LT$");
    assert("$LT$"@.len() != "$GT$"@.len() || "$LT$"@[1] != "$GT$"@[1] || "$LT$"@[2] != "$GT$"@[2] || "$LT$"@[3] != "$GT$"@[3]);
    lemma_other_mark(a, "$GT$"@, b, "$LT$"@, "<"@);
    lemma_replaced_once(a, "$GT$"@, b, ">"@);
    lemma_no_mark(r, "$u20$"@, " "@);
    lemma_no_mark(r, "$C$"@, ","@);
    lemma_no_mark(r, "$LP$"@, "("@);
    lemma_no_mark(r, "$RP$"@, ")"@);
    lemma_no_mark(r, "$u7b$"@, "{"@);
    lemma_no_mark(r, "$u7d$"@, "}"@);
    lemma_no_mark(r, "$RF$"@, "&"@);
    lemma_no_mark(r, "$BP$"@, "*"@);
    lemma_no_mark(r, "$u5b$"@, "["@);
    lemma_no_mark(r, "$u5d$"@, "]"@);
    lemma_no_mark(r, ".."@, "::"@);
}

proof fn lemma_decode_3(a: Seq<char>, b: Seq<char>)
    requires
        forall|i: int| 0 <= i < a.len() ==> #[trigger] a[i] != '$' && a[i] != '.',
        forall|i: int| 0 <= i < b.len() ==> #[trigger] b[i] != '$' && b[i] != '.',
    ensures
        demangled(a + "$u20$"@ + b) == a + " "@ + b,
{
    lemma_marks();
    reveal_strlit("$u20$");
    reveal_strlit(" ");
    let r = a + " "@ + b;
    assert forall|i: int| 0 <= i < r.len() implies #[trigger] r[i] != '$' && r[i] != '.' by {
        if i < a.len() {
            assert(r[i] == a[i]);
        } else if i > a.len() {
            assert(r[i] == b[i - a.len() - 1]);
        }
    }
    reveal_strlit("$LT$");
    assert("$LT$"@.len() != "$u20$"@.len() || "$LT$"@[1] != "$u20$"@[1] || "$LT$"@[2] != "$u20$"@[2] || "$LT$"@[3] != "$u20$"@[3]);
    lemma_other_mark(a, "$u20$"@, b, "$LT$"@, "<"@);
    reveal_strlit("$GT$");
    assert("$GT$"@.len() != "$u20$"@.len() || "$GT$"@[1] != "$u20$"@[1] || "$GT$"@[2] != "$u20$"@[2] || "$GT$"@[3] != "$u20$"@[3]);
    lemma_other_mark(a, "$u20$"@, b, "$GT$"@, ">"@);
    lemma_replaced_once(a, "$u20$"@, b, " "@);
    lemma_no_mark(r, "$C$"@, ","@);
    lemma_no_mark(r, "$LP$"@, "("@);
    lemma_no_mark(r, "$RP$"@, ")"@);
    lemma_no_mark(r, "$u7b$"@, "{"@);
    lemma_no_mark(r, "$u7d$"@, "}"@);
    lemma_no_mark(r, "$RF$"@, "&"@);
    lemma_no_mark(r, "$BP$"@, "*"@);
    lemma_no_mark(r, "$u5b$"@, "["@);
    lemma_no_mark(r, "$u5d$"@, "]"@);
    lemma_no_mark(r, ".."@, "::"@);
}

proof fn lemma_decode_4(a: Seq<char>, b: Seq<char>)
    requires
        forall|i: int| 0 <= i < a.len() ==> #[trigger] a[i] != '$' && a[i] != '.',
        forall|i: int| 0 <= i < b.len() ==> #[trigger] b[i] != '$' && b[i] != '.',
    ensures
        demangled(a + "$C$"@ + b) == a + ","@ + b,
{
    lemma_marks();
    reveal_strlit("$C$");
    reveal_strlit(",");
    let r = a + ","@ + b;
    assert forall|i: int| 0 <= i < r.len() implies #[trigger] r[i] != '$' && r[i] != '.' by {
        if i < a.len() {
            assert(r[i] == a[i]);
        } else if i > a.len() {
            assert(r[i] == b[i - a.len() - 1]);
        }
    }
    reveal_strlit("$LT$");
    assert("$LT$"@.len() != "$C$"@.len() || "$LT$"@[1] != "$C$"@[1] || "$LT$"@[2] != "$C$"@[2] || "$LT$"@[3] != "$C$"@[3]);
    lemma_other_mark(a, "$C$"@, b, "$LT$"@, "<"@);
    reveal_strlit("$GT$");
    assert("$GT$"@.len() != "$C$"@.len() || "$GT$"@[1] != "$C$"@[1] || "$GT$"@[2] != "$C$"@[2] || "$GT$"@[3] != "$C$"@[3]);
    lemma_other_mark(a, "$C$"@, b, "$GT$"@, ">"@);
    reveal_strlit("$u20$");
    assert("$u20$"@.len() != "$C$"@.len() || "$u20$"@[1] != "$C$"@[1] || "$u20$"@[2] != "$C$"@[2] || "$u20$"@[3] != "$C$"@[3]);
    lemma_other_mark(a, "$C$"@, b, "$u20$"@, " "@);
    lemma_replaced_once(a, "$C$"@, b, ","@);
    lemma_no_mark(r, "$LP$"@, "("@);
    lemma_no_mark(r, "$RP$"@, ")"@);
    lemma_no_mark(r, "$u7b$"@, "{"@);
    lemma_no_mark(r, "$u7d$"@, "}"@);
    lemma_no_mark(r, "$RF$"@, "&"@);
    lemma_no_mark(r, "$BP$"@, "*"@);
    lemma_no_mark(r, "$u5b$"@, "["@);
    lemma_no_mark(r, "$u5d$"@, "]"@);
    lemma_no_mark(r, ".."@, "::"@);
}

proof fn lemma_decode_5(a: Seq<char>, b: Seq<char>)
    requires
        forall|i: int| 0 <= i < a.len() ==> #[trigger] a[i] != '$' && a[i] != '.',
        forall|i: int| 0 <= i < b.len() ==> #[trigger] b[i] != '$' && b[i] != '.',
    ensures
        demangled(a + "$LP$"@ + b) == a + "("@ + b,
{
    lemma_marks();
    reveal_strlit("$LP$");
    reveal_strlit("(");
    let r = a + "("@ + b;
    assert forall|i: int| 0 <= i < r.len() implies #[trigger] r[i] != '$' && r[i] != '.' by {
        if i < a.len() {
            assert(r[i] == a[i]);
        } else if i > a.len() {
            assert(r[i] == b[i - a.len() - 1]);
        }
    }
    reveal_strlit("$LT$");
    assert("$LT$"@.len() != "$LP$"@.len() || "$LT$"@[1] != "$LP$"@[1] || "$LT$"@[2] != "$LP$"@[2] || "$LT$"@[3] != "$LP$"@[3]);
    lemma_other_mark(a, "$LP$"@, b, "$LT$"@, "<"@);
    reveal_strlit("$GT$");
    assert("$GT$"@.len() != "$LP$"@.len() || "$GT$"@[1] != "$LP$"@[1] || "$GT$"@[2] != "$LP$"@[2] || "$GT$"@[3] != "$LP$"@[3]);
    lemma_other_mark(a, "$LP$"@, b, "$GT$"@, ">"@);
    reveal_strlit("$u20$");
    assert("$u20$"@.len() != "$LP$"@.len() || "$u20$"@[1] != "$LP$"@[1] || "$u20$"@[2] != "$LP$"@[2] || "$u20$"@[3] != "$LP$"@[3]);
    lemma_other_mark(a, "$LP$"@, b, "$u20$"@, " "@);
    reveal_strlit("$C$");
    assert("$C$"@.len() != "$LP$"@.len() || "$C$"@[1] != "$LP$"@[1] || "$C$"@[2] != "$LP$"@[2] || "$C$"@[3] != "$LP$"@[3]);
    lemma_other_mark(a, "$LP$"@, b, "$C$"@, ","@);
    lemma_replaced_once(a, "$LP$"@, b, "("@);
    lemma_no_mark(r, "$RP$"@, ")"@);
    lemma_no_mark(r, "$u7b$"@, "{"@);
    lemma_no_mark(r, "$u7d$"@, "}"@);
    lemma_no_mark(r, "$RF$"@, "&"@);
    lemma_no_mark(r, "$BP$"@, "*"@);
    lemma_no_mark(r, "$u5b$"@, "["@);
    lemma_no_mark(r, "$u5d$"@, "]"@);
    lemma_no_mark(r, ".."@, "::"@);
}

proof fn lemma_decode_6(a: Seq<char>, b: Seq<char>)
    requires
        forall|i: int| 0 <= i < a.len() ==> #[trigger] a[i] != '$' && a[i] != '.',
        forall|i: int| 0 <= i < b.len() ==> #[trigger] b[i] != '$' && b[i] != '.',
    ensures
        demangled(a + "$RP$"@ + b) == a + ")"@ + b,
{
    lemma_marks();
    reveal_strlit("$RP$");
    reveal_strlit(")");
    let r = a + ")"@ + b;
    assert forall|i: int| 0 <= i < r.len() implies #[trigger] r[i] != '$' && r[i] != '.' by {
        if i < a.len() {
            assert(r[i] == a[i]);
        } else if i > a.len() {
            assert(r[i] == b[i - a.len() - 1]);
        }
    }
    reveal_strlit("$LT$");
    assert("$LT$"@.len() != "$RP$"@.len() || "$LT$"@[1] != "$RP$"@[1] || "$LT$"@[2] != "$RP$"@[2] || "$LT$"@[3] != "$RP$"@[3]);
    lemma_other_mark(a, "$RP$"@, b, "$LT$"@, "<"@);
    reveal_strlit("$GT$");
    assert("$GT$"@.len() != "$RP$"@.len() || "$GT$"@[1] != "$RP$"@[1] || "$GT$"@[2] != "$RP$"@[2] || "$GT$"@[3] != "$RP$"@[3]);
    lemma_other_mark(a, "$RP$"@, b, "$GT$"@, ">"@);
    reveal_strlit("$u20$");
    assert("$u20$"@.len() != "$RP$"@.len() || "$u20$"@[1] != "$RP$"@[1] || "$u20$"@[2] != "$RP$"@[2] || "$u20$"@[3] != "$RP$"@[3]);
    lemma_other_mark(a, "$RP$"@, b, "$u20$"@, " "@);
    reveal_strlit("$C$");
    assert("$C$"@.len() != "$RP$"@.len() || "$C$"@[1] != "$RP$"@[1] || "$C$"@[2] != "$RP$"@[2] || "$C$"@[3] != "$RP$"@[3]);
    lemma_other_mark(a, "$RP$"@, b, "$C$"@, ","@);
    reveal_strlit("$LP$");
    assert("$LP$"@.len() != "$RP$"@.len() || "$LP$"@[1] != "$RP$"@[1] || "$LP$"@[2] != "$RP$"@[2] || "$LP$"@[3] != "$RP$"@[3]);
    lemma_other_mark(a, "$RP$"@, b, "$LP$"@, "("@);
    lemma_replaced_once(a, "$RP$"@, b, ")"@);
    lemma_no_mark(r, "$u7b$"@, "{"@);
    lemma_no_mark(r, "$u7d$"@, "}"@);
    lemma_no_mark(r, "$RF$"@, "&"@);
    lemma_no_mark(r, "$BP$"@, "*"@);
    lemma_no_mark(r, "$u5b$"@, "["@);
    lemma_no_mark(r, "$u5d$"@, "]"@);
    lemma_no_mark(r, ".."@, "::"@);
}

proof fn lemma_decode_7(a: Seq<char>, b: Seq<char>)
    requires
        forall|i: int| 0 <= i < a.len() ==> #[trigger] a[i] != '$' && a[i] != '.',
        forall|i: int| 0 <= i < b.len() ==> #[trigger] b[i] != '$' && b[i] != '.',
    ensures
        demangled(a + "$u7b$"@ + b) == a + "{"@ + b,
{
    lemma_marks();
    reveal_strlit("$u7b$");
    reveal_strlit("{");
    let r = a + "{"@ + b;
    assert forall|i: int| 0 <= i < r.len() implies #[trigger] r[i] != '$' && r[i] != '.' by {
        if i < a.len() {
            assert(r[i] == a[i]);
        } else if i > a.len() {
            assert(r[i] == b[i - a.len() - 1]);
        }
    }
    reveal_strlit("$LT$");
    assert("$LT$"@.len() != "$u7b$"@.len() || "$LT$"@[1] != "$u7b$"@[1] || "$LT$"@[2] != "$u7b$"@[2] || "$LT$"@[3] != "$u7b$"@[3]);
    lemma_other_mark(a, "$u7b$"@, b, "$LT$"@, "<"@);
    reveal_strlit("$GT$");
    assert("$GT$"@.len() != "$u7b$"@.len() || "$GT$"@[1] != "$u7b$"@[1] || "$GT$"@[2] != "$u7b$"@[2] || "$GT$"@[3] != "$u7b$"@[3]);
    lemma_other_mark(a, "$u7b$"@, b, "$GT$"@, ">"@);
    reveal_strlit("$u20$");
    assert("$u20$"@.len() != "$u7b$"@.len() || "$u20$"@[1] != "$u7b$"@[1] || "$u20$"@[2] != "$u7b$"@[2] || "$u20$"@[3] != "$u7b$"@[3]);
    lemma_other_mark(a, "$u7b$"@, b, "$u20$"@, " "@);
    reveal_strlit("$C$");
    assert("$C$"@.len() != "$u7b$"@.len() || "$C$"@[1] != "$u7b$"@[1] || "$C$"@[2] != "$u7b$"@[2] || "$C$"@[3] != "$u7b$"@[3]);
    lemma_other_mark(a, "$u7b$"@, b, "$C$"@, ","@);
    reveal_strlit("$LP$");
    assert("$LP$"@.len() != "$u7b$"@.len() || "$LP$"@[1] != "$u7b$"@[1] || "$LP$"@[2] != "$u7b$"@[2] || "$LP$"@[3] != "$u7b$"@[3]);
    lemma_other_mark(a, "$u7b$"@, b, "$LP$"@, "("@);
    reveal_strlit("$RP$");
    assert("$RP$"@.len() != "$u7b$"@.len() || "$RP$"@[1] != "$u7b$"@[1] || "$RP$"@[2] != "$u7b$"@[2] || "$RP$"@[3] != "$u7b$"@[3]);
    lemma_other_mark(a, "$u7b$"@, b, "$RP$"@, ")"@);
    lemma_replaced_once(a, "$u7b$"@, b, "{"@);
    lemma_no_mark(r, "$u7d$"@, "}"@);
    lemma_no_mark(r, "$RF$"@, "&"@);
    lemma_no_mark(r, "$BP$"@, "*"@);
    lemma_no_mark(r, "$u5b$"@, "["@);
    lemma_no_mark(r, "$u5d$"@, "]"@);
    lemma_no_mark(r, ".."@, "::"@);
}

proof fn lemma_decode_8(a: Seq<char>, b: Seq<char>)
    requires
        forall|i: int| 0 <= i < a.len() ==> #[trigger] a[i] != '$' && a[i] != '.',
        forall|i: int| 0 <= i < b.len() ==> #[trigger] b[i] != '$' && b[i] != '.',
    ensures
        demangled(a + "$u7d$"@ + b) == a + "}"@ + b,
{
    lemma_marks();
    reveal_strlit("$u7d$");
    reveal_strlit("}");
    let r = a + "}"@ + b;
    assert forall|i: int| 0 <= i < r.len() implies #[trigger] r[i] != '$' && r[i] != '.' by {
        if i < a.len() {
            assert(r[i] == a[i]);
        } else if i > a.len() {
            assert(r[i] == b[i - a.len() - 1]);
        }
    }
    reveal_strlit("$LT$");
    assert("$LT$"@.len() != "$u7d$"@.len() || "$LT$"@[1] != "$u7d$"@[1] || "$LT$"@[2] != "$u7d$"@[2] || "$LT$"@[3] != "$u7d$"@[3]);
    lemma_other_mark(a, "$u7d$"@, b, "$LT$"@, "<"@);
    reveal_strlit("$GT$");
    assert("$GT$"@.len() != "$u7d$"@.len() || "$GT$"@[1] != "$u7d$"@[1] || "$GT$"@[2] != "$u7d$"@[2] || "$GT$"@[3] != "$u7d$"@[3]);
    lemma_other_mark(a, "$u7d$"@, b, "$GT$"@, ">"@);
    reveal_strlit("$u20$");
    assert("$u20$"@.len() != "$u7d$"@.len() || "$u20$"@[1] != "$u7d$"@[1] || "$u20$"@[2] != "$u7d$"@[2] || "$u20$"@[3] != "$u7d$"@[3]);
    lemma_other_mark(a, "$u7d$"@, b, "$u20$"@, " "@);
    reveal_strlit("$C$");
    assert("$C$"@.len() != "$u7d$"@.len() || "$C$"@[1] != "$u7d$"@[1] || "$C$"@[2] != "$u7d$"@[2] || "$C$"@[3] != "$u7d$"@[3]);
    lemma_other_mark(a, "$u7d$"@, b, "$C$"@, ","@);
    reveal_strlit("$LP$");
    assert("$LP$"@.len() != "$u7d$"@.len() || "$LP$"@[1] != "$u7d$"@[1] || "$LP$"@[2] != "$u7d$"@[2] || "$LP$"@[3] != "$u7d$"@[3]);
    lemma_other_mark(a, "$u7d$"@, b, "$LP$"@, "("@);
    reveal_strlit("$RP$");
    assert("$RP$"@.len() != "$u7d$"@.len() || "$RP$"@[1] != "$u7d$"@[1] || "$RP$"@[2] != "$u7d$"@[2] || "$RP$"@[3] != "$u7d$"@[3]);
    lemma_other_mark(a, "$u7d$"@, b, "$RP$"@, ")"@);
    reveal_strlit("$u7b$");
    assert("$u7b$"@.len() != "$u7d$"@.len() || "$u7b$"@[1] != "$u7d$"@[1] || "$u7b$"@[2] != "$u7d$"@[2] || "$u7b$"@[3] != "$u7d$"@[3]);
    lemma_other_mark(a, "$u7d$"@, b, "$u7b$"@, "{"@);
    lemma_replaced_once(a, "$u7d$"@, b, "}"@);
    lemma_no_mark(r, "$RF$"@, "&"@);
    lemma_no_mark(r, "$BP$"@, "*"@);
    lemma_no_mark(r, "$u5b$"@, "["@);
    lemma_no_mark(r, "$u5d$"@, "]"@);
    lemma_no_mark(r, ".."@, "::"@);
}

proof fn lemma_decode_9(a: Seq<char>, b: Seq<char>)
    requires
        forall|i: int| 0 <= i < a.len() ==> #[trigger] a[i] != '$' && a[i] != '.',
        forall|i: int| 0 <= i < b.len() ==> #[trigger] b[i] != '$' && b[i] != '.',
    ensures
        demangled(a + "$RF$"@ + b) == a + "&"@ + b,
{
    lemma_marks();
    reveal_strlit("$RF$");
    reveal_strlit("&");
    let r = a + "&"@ + b;
    assert forall|i: int| 0 <= i < r.len() implies #[trigger] r[i] != '$' && r[i] != '.' by {
        if i < a.len() {
            assert(r[i] == a[i]);
        } else if i > a.len() {
            assert(r[i] == b[i - a.len() - 1]);
        }
    }
    reveal_strlit("$LT$");
    assert("$LT$"@.len() != "$RF$"@.len() || "$LT$"@[1] != "$RF$"@[1] || "$LT$"@[2] != "$RF$"@[2] || "$LT$"@[3] != "$RF$"@[3]);
    lemma_other_mark(a, "$RF$"@, b, "$LT$"@, "<"@);
    reveal_strlit("$GT$");
    assert("$GT$"@.len() != "$RF$"@.len() || "$GT$"@[1] != "$RF$"@[1] || "$GT$"@[2] != "$RF$"@[2] || "$GT$"@[3] != "$RF$"@[3]);
    lemma_other_mark(a, "$RF$"@, b, "$GT$"@, ">"@);
    reveal_strlit("$u20$");
    assert("$u20$"@.len() != "$RF$"@.len() || "$u20$"@[1] != "$RF$"@[1] || "$u20$"@[2] != "$RF$"@[2] || "$u20$"@[3] != "$RF$"@[3]);
    lemma_other_mark(a, "$RF$"@, b, "$u20$"@, " "@);
    reveal_strlit("$C$");
    assert("$C$"@.len() != "$RF$"@.len() || "$C$"@[1] != "$RF$"@[1] || "$C$"@[2] != "$RF$"@[2] || "$C$"@[3] != "$RF$"@[3]);
    lemma_other_mark(a, "$RF$"@, b, "$C$"@, ","@);
    reveal_strlit("$LP$");
    assert("$LP$"@.len() != "$RF$"@.len() || "$LP$"@[1] != "$RF$"@[1] || "$LP$"@[2] != "$RF$"@[2] || "$LP$"@[3] != "$RF$"@[3]);
    lemma_other_mark(a, "$RF$"@, b, "$LP$"@, "("@);
    reveal_strlit("$RP$");
    assert("$RP$"@.len() != "$RF$"@.len() || "$RP$"@[1] != "$RF$"@[1] || "$RP$"@[2] != "$RF$"@[2] || "$RP$"@[3] != "$RF$"@[3]);
    lemma_other_mark(a, "$RF$"@, b, "$RP$"@, ")"@);
    reveal_strlit("$u7b$");
    assert("$u7b$"@.len() != "$RF$"@.len() || "$u7b$"@[1] != "$RF$"@[1] || "$u7b$"@[2] != "$RF$"@[2] || "$u7b$"@[3] != "$RF$"@[3]);
    lemma_other_mark(a, "$RF$"@, b, "$u7b$"@, "{"@);
    reveal_strlit("$u7d$");
    assert("$u7d$"@.len() != "$RF$"@.len() || "$u7d$"@[1] != "$RF$"@[1] || "$u7d$"@[2] != "$RF$"@[2] || "$u7d$"@[3] != "$RF$"@[3]);
    lemma_other_mark(a, "$RF$"@, b, "$u7d$"@, "}"@);
    lemma_replaced_once(a, "$RF$"@, b, "&"@);
    lemma_no_mark(r, "$BP$"@, "*"@);
    lemma_no_mark(r, "$u5b$"@, "["@);
    lemma_no_mark(r, "$u5d$"@, "]"@);
    lemma_no_mark(r, ".."@, "::"@);
}

proof fn lemma_decode_10(a: Seq<char>, b: Seq<char>)
    requires
        forall|i: int| 0 <= i < a.len() ==> #[trigger] a[i] != '$' && a[i] != '.',
        forall|i: int| 0 <= i < b.len() ==> #[trigger] b[i] != '$' && b[i] != '.',
    ensures
        demangled(a + "$BP$"@ + b) == a + "*"@ + b,
{
    lemma_marks();
    reveal_strlit("$BP$");
    reveal_strlit("*");
    let r = a + "*"@ + b;
    assert forall|i: int| 0 <= i < r.len() implies #[trigger] r[i] != '$' && r[i] != '.' by {
        if i < a.len() {
            assert(r[i] == a[i]);
        } else if i > a.len() {
            assert(r[i] == b[i - a.len() - 1]);
        }
    }
    reveal_strlit("$LT$");
    assert("$LT$"@.len() != "$BP$"@.len() || "$LT$"@[1] != "$BP$"@[1] || "$LT$"@[2] != "$BP$"@[2] || "$LT$"@[3] != "$BP$"@[3]);
    lemma_other_mark(a, "$BP$"@, b, "$LT$"@, "<"@);
    reveal_strlit("$GT$");
    assert("$GT$"@.len() != "$BP$"@.len() || "$GT$"@[1] != "$BP$"@[1] || "$GT$"@[2] != "$BP$"@[2] || "$GT$"@[3] != "$BP$"@[3]);
    lemma_other_mark(a, "$BP$"@, b, "$GT$"@, ">"@);
    reveal_strlit("$u20$");
    assert("$u20$"@.len() != "$BP$"@.len() || "$u20$"@[1] != "$BP$"@[1] || "$u20$"@[2] != "$BP$"@[2] || "$u20$"@[3] != "$BP$"@[3]);
    lemma_other_mark(a, "$BP$"@, b, "$u20$"@, " "@);
    reveal_strlit("$C$");
    assert("$C$"@.len() != "$BP$"@.len() || "$C$"@[1] != "$BP$"@[1] || "$C$"@[2] != "$BP$"@[2] || "$C$"@[3] != "$BP$"@[3]);
    lemma_other_mark(a, "$BP$"@, b, "$C$"@, ","@);
    reveal_strlit("$LP$");
    assert("$LP$"@.len() != "$BP$"@.len() || "$LP$"@[1] != "$BP$"@[1] || "$LP$"@[2] != "$BP$"@[2] || "$LP$"@[3] != "$BP$"@[3]);
    lemma_other_mark(a, "$BP$"@, b, "$LP$"@, "("@);
    reveal_strlit("$RP$");
    assert("$RP$"@.len() != "$BP$"@.len() || "$RP$"@[1] != "$BP$"@[1] || "$RP$"@[2] != "$BP$"@[2] || "$RP$"@[3] != "$BP$"@[3]);
    lemma_other_mark(a, "$BP$"@, b, "$RP$"@, ")"@);
    reveal_strlit("$u7b$");
    assert("$u7b$"@.len() != "$BP$"@.len() || "$u7b$"@[1] != "$BP$"@[1] || "$u7b$"@[2] != "$BP$"@[2] || "$u7b$"@[3] != "$BP$"@[3]);
    lemma_other_mark(a, "$BP$"@, b, "$u7b$"@, "{"@);
    reveal_strlit("$u7d$");
    assert("$u7d$"@.len() != "$BP$"@.len() || "$u7d$"@[1] != "$BP$"@[1] || "$u7d$"@[2] != "$BP$"@[2] || "$u7d$"@[3] != "$BP$"@[3]);
    lemma_other_mark(a, "$BP$"@, b, "$u7d$"@, "}"@);
    reveal_strlit("$RF$");
    assert("$RF$"@.len() != "$BP$"@.len() || "$RF$"@[1] != "$BP$"@[1] || "$RF$"@[2] != "$BP$"@[2] || "$RF$"@[3] != "$BP$"@[3]);
    lemma_other_mark(a, "$BP$"@, b, "$RF$"@, "&"@);
    lemma_replaced_once(a, "$BP$"@, b, "*"@);
    lemma_no_mark(r, "$u5b$"@, "["@);
    lemma_no_mark(r, "$u5d$"@, "]"@);
    lemma_no_mark(r, ".."@, "::"@);
}

proof fn lemma_decode_11(a: Seq<char>, b: Seq<char>)
    requires
        forall|i: int| 0 <= i < a.len() ==> #[trigger] a[i] != '$' && a[i] != '.',
        forall|i: int| 0 <= i < b.len() ==> #[trigger] b[i] != '$' && b[i] != '.',
    ensures
        demangled(a + "$u5b$"@ + b) == a + "["@ + b,
{
    lemma_marks();
    reveal_strlit("$u5b$");
    reveal_strlit("[");
    let r = a + "["@ + b;
    assert forall|i: int| 0 <= i < r.len() implies #[trigger] r[i] != '$' && r[i] != '.' by {
        if i < a.len() {
            assert(r[i] == a[i]);
        } else if i > a.len() {
            assert(r[i] == b[i - a.len() - 1]);
        }
    }
    reveal_strlit("$LT$");
    assert("$LT$"@.len() != "$u5b$"@.len() || "$LT$"@[1] != "$u5b$"@[1] || "$LT$"@[2] != "$u5b$"@[2] || "$LT$"@[3] != "$u5b$"@[3]);
    lemma_other_mark(a, "$u5b$"@, b, "$LT$"@, "<"@);
    reveal_strlit("$GT$");
    assert("$GT$"@.len() != "$u5b$"@.len() || "$GT$"@[1] != "$u5b$"@[1] || "$GT$"@[2] != "$u5b$"@[2] || "$GT$"@[3] != "$u5b$"@[3]);
    lemma_other_mark(a, "$u5b$"@, b, "$GT$"@, ">"@);
    reveal_strlit("$u20$");
    assert("$u20$"@.len() != "$u5b$"@.len() || "$u20$"@[1] != "$u5b$"@[1] || "$u20$"@[2] != "$u5b$"@[2] || "$u20$"@[3] != "$u5b$"@[3]);
    lemma_other_mark(a, "$u5b$"@, b, "$u20$"@, " "@);
    reveal_strlit("$C$");
    assert("$C$"@.len() != "$u5b$"@.len() || "$C$"@[1] != "$u5b$"@[1] || "$C$"@[2] != "$u5b$"@[2] || "$C$"@[3] != "$u5b$"@[3]);
    lemma_other_mark(a, "$u5b$"@, b, "$C$"@, ","@);
    reveal_strlit("$LP$");
    assert("$LP$"@.len() != "$u5b$"@.len() || "$LP$"@[1] != "$u5b$"@[1] || "$LP$"@[2] != "$u5b$"@[2] || "$LP$"@[3] != "$u5b$"@[3]);
    lemma_other_mark(a, "$u5b$"@, b, "$LP$"@, "("@);
    reveal_strlit("$RP$");
    assert("$RP$"@.len() != "$u5b$"@.len() || "$RP$"@[1] != "$u5b$"@[1] || "$RP$"@[2] != "$u5b$"@[2] || "$RP$"@[3] != "$u5b$"@[3]);
    lemma_other_mark(a, "$u5b$"@, b, "$RP$"@, ")"@);
    reveal_strlit("$u7b$");
    assert("$u7b$"@.len() != "$u5b$"@.len() || "$u7b$"@[1] != "$u5b$"@[1] || "$u7b$"@[2] != "$u5b$"@[2] || "$u7b$"@[3] != "$u5b$"@[3]);
    lemma_other_mark(a, "$u5b$"@, b, "$u7b$"@, "{"@);
    reveal_strlit("$u7d$");
    assert("$u7d$"@.len() != "$u5b$"@.len() || "$u7d$"@[1] != "$u5b$"@[1] || "$u7d$"@[2] != "$u5b$"@[2] || "$u7d$"@[3] != "$u5b$"@[3]);
    lemma_other_mark(a, "$u5b$"@, b, "$u7d$"@, "}"@);
    reveal_strlit("$RF$");
    assert("$RF$"@.len() != "$u5b$"@.len() || "$RF$"@[1] != "$u5b$"@[1] || "$RF$"@[2] != "$u5b$"@[2] || "$RF$"@[3] != "$u5b$"@[3]);
    lemma_other_mark(a, "$u5b$"@, b, "$RF$"@, "&"@);
    reveal_strlit("$BP$");
    assert("$BP$"@.len() != "$u5b$"@.len() || "$BP$"@[1] != "$u5b$"@[1] || "$BP$"@[2] != "$u5b$"@[2] || "$BP$"@[3] != "$u5b$"@[3]);
    lemma_other_mark(a, "$u5b$"@, b, "$BP$"@, "*"@);
    lemma_replaced_once(a, "$u5b$"@, b, "["@);
    lemma_no_mark(r, "$u5d$"@, "]"@);
    lemma_no_mark(r, ".."@, "::"@);
}

proof fn lemma_decode_12(a: Seq<char>, b: Seq<char>)
    requires
        forall|i: int| 0 <= i < a.len() ==> #[trigger] a[i] != '$' && a[i] != '.',
        forall|i: int| 0 <= i < b.len() ==> #[trigger] b[i] != '$' && b[i] != '.',
    ensures
        demangled(a + "$u5d$"@ + b) == a + "]"@ + b,
{
    lemma_marks();
    reveal_strlit("$u5d$");
    reveal_strlit("]");
    let r = a + "]"@ + b;
    assert forall|i: int| 0 <= i < r.len() implies #[trigger] r[i] != '$' && r[i] != '.' by {
        if i < a.len() {
            assert(r[i] == a[i]);
        } else if i > a.len() {
            assert(r[i] == b[i - a.len() - 1]);
        }
    }
    reveal_strlit("$LT$");
    assert("$LT$"@.len() != "$u5d$"@.len() || "$LT$"@[1] != "$u5d$"@[1] || "$LT$"@[2] != "$u5d$"@[2] || "$LT$"@[3] != "$u5d$"@[3]);
    lemma_other_mark(a, "$u5d$"@, b, "$LT$"@, "<"@);
    reveal_strlit("$GT$");
    assert("$GT$"@.len() != "$u5d$"@.len() || "$GT$"@[1] != "$u5d$"@[1] || "$GT$"@[2] != "$u5d$"@[2] || "$GT$"@[3] != "$u5d$"@[3]);
    lemma_other_mark(a, "$u5d$"@, b, "$GT$"@, ">"@);
    reveal_strlit("$u20$");
    assert("$u20$"@.len() != "$u5d$"@.len() || "$u20$"@[1] != "$u5d$"@[1] || "$u20$"@[2] != "$u5d$"@[2] || "$u20$"@[3] != "$u5d$"@[3]);
    lemma_other_mark(a, "$u5d$"@, b, "$u20$"@, " "@);
    reveal_strlit("$C$");
    assert("$C$"@.len() != "$u5d$"@.len() || "$C$"@[1] != "$u5d$"@[1] || "$C$"@[2] != "$u5d$"@[2] || "$C$"@[3] != "$u5d$"@[3]);
    lemma_other_mark(a, "$u5d$"@, b, "$C$"@, ","@);
    reveal_strlit("$LP$");
    assert("$LP$"@.len() != "$u5d$"@.len() || "$LP$"@[1] != "$u5d$"@[1] || "$LP$"@[2] != "$u5d$"@[2] || "$LP$"@[3] != "$u5d$"@[3]);
    lemma_other_mark(a, "$u5d$"@, b, "$LP$"@, "("@);
    reveal_strlit("$RP$");
    assert("$RP$"@.len() != "$u5d$"@.len() || "$RP$"@[1] != "$u5d$"@[1] || "$RP$"@[2] != "$u5d$"@[2] || "$RP$"@[3] != "$u5d$"@[3]);
    lemma_other_mark(a, "$u5d$"@, b, "$RP$"@, ")"@);
    reveal_strlit("$u7b$");
    assert("$u7b$"@.len() != "$u5d$"@.len() || "$u7b$"@[1] != "$u5d$"@[1] || "$u7b$"@[2] != "$u5d$"@[2] || "$u7b$"@[3] != "$u5d$"@[3]);
    lemma_other_mark(a, "$u5d$"@, b, "$u7b$"@, "{"@);
    reveal_strlit("$u7d$");
    assert("$u7d$"@.len() != "$u5d$"@.len() || "$u7d$"@[1] != "$u5d$"@[1] || "$u7d$"@[2] != "$u5d$"@[2] || "$u7d$"@[3] != "$u5d$"@[3]);
    lemma_other_mark(a, "$u5d$"@, b, "$u7d$"@, "}"@);
    reveal_strlit("$RF$");
    assert("$RF$"@.len() != "$u5d$"@.len() || "$RF$"@[1] != "$u5d$"@[1] || "$RF$"@[2] != "$u5d$"@[2] || "$RF$"@[3] != "$u5d$"@[3]);
    lemma_other_mark(a, "$u5d$"@, b, "$RF$"@, "&"@);
    reveal_strlit("$BP$");
    assert("$BP$"@.len() != "$u5d$"@.len() || "$BP$"@[1] != "$u5d$"@[1] || "$BP$"@[2] != "$u5d$"@[2] || "$BP$"@[3] != "$u5d$"@[3]);
    lemma_other_mark(a, "$u5d$"@, b, "$BP$"@, "*"@);
    reveal_strlit("$u5b$");
    assert("$u5b$"@.len() != "$u5d$"@.len() || "$u5b$"@[1] != "$u5d$"@[1] || "$u5b$"@[2] != "$u5d$"@[2] || "$u5b$"@[3] != "$u5d$"@[3]);
    lemma_other_mark(a, "$u5d$"@, b, "$u5b$"@, "["@);
    lemma_replaced_once(a, "$u5d$"@, b, "]"@);
    lemma_no_mark(r, ".."@, "::"@);
}

/// Each mark that stands for punctuation in a symbol is decoded as that, and
/// two points as the separator of a path; a symbol without marks and points is
/// shown as it is.
pub proof fn punctuation_is_decoded(a: Seq<char>, b: Seq<char>)
    requires
        forall|i: int| 0 <= i < a.len() ==> #[trigger] a[i] != '$' && a[i] != '.',
        forall|i: int| 0 <= i < b.len() ==> #[trigger] b[i] != '$' && b[i] != '.',
    ensures
        demangled(a + "$LT$"@ + b) == a + "<"@ + b,
        demangled(a + "$GT$"@ + b) == a + ">"@ + b,
        demangled(a + "$u20$"@ + b) == a + " "@ + b,
        demangled(a + "$C$"@ + b) == a + ","@ + b,
        demangled(a + "$LP$"@ + b) == a + "("@ + b,
        demangled(a + "$RP$"@ + b) == a + ")"@ + b,
        demangled(a + "$u7b$"@ + b) == a + "{"@ + b,
        demangled(a + "$u7d$"@ + b) == a + "}"@ + b,
        demangled(a + "$RF$"@ + b) == a + "&"@ + b,
        demangled(a + "$BP$"@ + b) == a + "*"@ + b,
        demangled(a + "$u5b$"@ + b) == a + "["@ + b,
        demangled(a + "$u5d$"@ + b) == a + "]"@ + b,
        demangled(a + ".."@ + b) == a + "::"@ + b,
        demangled(a) == a,
{
    lemma_nothing_to_decode(a);
    lemma_decode_1(a, b);
    lemma_decode_2(a, b);
    lemma_decode_3(a, b);
    lemma_decode_4(a, b);
    lemma_decode_5(a, b);
    lemma_decode_6(a, b);
    lemma_decode_7(a, b);
    lemma_decode_8(a, b);
    lemma_decode_9(a, b);
    lemma_decode_10(a, b);
    lemma_decode_11(a, b);
    lemma_decode_12(a, b);
    lemma_decode_points(a, b);
}

proof fn lemma_decode_points(a: Seq<char>, b: Seq<char>)
    requires
        forall|i: int| 0 <= i < a.len() ==> #[trigger] a[i] != '$' && a[i] != '.',
        forall|i: int| 0 <= i < b.len() ==> #[trigger] b[i] != '$' && b[i] != '.',
    ensures
        demangled(a + ".."@ + b) == a + "::"@ + b,
{
    lemma_marks();
    reveal_strlit("..");
    let s = a + ".."@ + b;
    assert forall|i: int| 0 <= i < s.len() implies #[trigger] s[i] != '$' by {
        if i < a.len() {
            assert(s[i] == a[i]);
        } else if i >= a.len() + 2 {
            assert(s[i] == b[i - a.len() - 2]);
        }
    }
    lemma_no_mark(s, "$LT$"@, "<"@);
    lemma_no_mark(s, "$GT$"@, ">"@);
    lemma_no_mark(s, "$u20$"@, " "@);
    lemma_no_mark(s, "$C$"@, ","@);
    lemma_no_mark(s, "$LP$"@, "("@);
    lemma_no_mark(s, "$RP$"@, ")"@);
    lemma_no_mark(s, "$u7b$"@, "{"@);
    lemma_no_mark(s, "$u7d$"@, "}"@);
    lemma_no_mark(s, "$RF$"@, "&"@);
    lemma_no_mark(s, "$BP$"@, "*"@);
    lemma_no_mark(s, "$u5b$"@, "["@);
    lemma_no_mark(s, "$u5d$"@, "]"@);
    lemma_replaced_once(a, ".."@, b, "::"@);
}

/// The hash that ends a symbol, eight or more hexadecimal digits behind `::h`,
/// is not shown; what stands before it is.
pub proof fn hashes_are_not_shown(s: Seq<char>, hash: Seq<char>)
    requires
        hash.len() >= 8,
        forall|i: int| 0 <= i < hash.len() ==> hex_digit(#[trigger] hash[i]),
        forall|i: int| 0 <= i < s.len() ==> #[trigger] s[i] != '$' && s[i] != '.',
    ensures
        without_hash(s + "::h"@ + hash) == s,
        short_fn_of(s + "::h"@ + hash) == s,
{
    reveal_strlit("::h");
    let t = s + "::h"@ + hash;
    let k = s.len() as int;
    assert(t.subrange(k, k + 3) =~= "::h"@);
    assert forall|j: int| k < j <= t.len() implies !#[trigger] occurs_at(t, "::h"@, j) by {
        if occurs_at(t, "::h"@, j) {
            let f = t.subrange(j, j + 3);
            assert(f[0] == t[j] && f[1] == t[j + 1]);
            assert("::h"@[0] == ':' && "::h"@[1] == ':');
            if j == k + 1 {
                assert(t[j + 1] == 'h');
            } else if j == k + 2 {
                assert(t[j] == 'h');
            } else {
                assert(t[j] == hash[j - k - 3]);
                assert(hex_digit(hash[j - k - 3]));
            }
        }
    }
    lemma_rfound_upto(t, "::h"@, t.len() as int, k);
    let tail = t.skip(k + 3);
    assert(tail =~= hash);
    assert(t.take(k) =~= s);
    lemma_nothing_to_decode(s);
}

/// What is left from a place on, where no word reaches over it, is what is
/// left of the text from there.
proof fn lemma_modules_behind(a: Seq<char>, b: Seq<char>, i: int)
    requires
        0 <= i <= b.len(),
        a.len() > 0 ==> !ident_char(a.last()),
    ensures
        without_modules(a + b, a.len() + i) == without_modules(b, i),
    decreases b.len() - i,
{
    let s = a + b;
    let n = a.len() as int;
    if i < b.len() {
        assert(s[n + i] == b[i]);
        if i > 0 {
            assert(s[n + i - 1] == b[i - 1]);
        } else if n > 0 {
            assert(s[n - 1] == a.last());
        }
        assert(word_start(s, n + i) == word_start(b, i));
        lemma_ident_end_behind(a, b, i);
        lemma_ident_end(b, i);
        let j = ident_end(b, i);
        if module_start(b, i) {
            if j < b.len() {
                assert(s[n + j] == b[j]);
            }
            if j + 1 < b.len() {
                assert(s[n + j + 1] == b[j + 1]);
            }
            assert(path_sep_at(s, n + j) == path_sep_at(b, j));
            if path_sep_at(b, j) {
                lemma_modules_behind(a, b, j + 2);
                assert(n + j + 2 == n + (j + 2));
            } else {
                lemma_modules_behind(a, b, j);
                assert(s.subrange(n + i, n + j) =~= b.subrange(i, j));
            }
        } else {
            lemma_modules_behind(a, b, i + 1);
            assert(n + i + 1 == n + (i + 1));
        }
    }
}

proof fn lemma_module_dropped(module: Seq<char>, t: Seq<char>)
    requires
        module.len() > 0,
        forall|i: int| 0 <= i < module.len() ==> ident_char(#[trigger] module[i]),
        module_char(module[0]),
    ensures
        without_modules(module + "::"@ + t, 0) == without_modules(t, 0),
{
    reveal_strlit("::");
    let head = module + "::"@;
    let s = head + t;
    let rest = "::"@ + t;
    assert(s =~= module + rest);
    assert(!ident_char(rest[0]));
    lemma_word_from(module, rest, 0);
    assert(s[0] == module[0]);
    assert(s[module.len() as int] == ':' && s[module.len() as int + 1] == ':');
    assert(module_start(s, 0));
    assert(path_sep_at(s, ident_end(s, 0)));
    assert(head.last() == ':');
    lemma_modules_behind(head, t, 0);
}

/// A type is shown without the module that it lies in: a name in lower case
/// before `::` makes no difference to how the rest is shown.
pub proof fn modules_are_not_shown(module: Seq<char>, t: Seq<char>)
    requires
        module.len() > 0,
        'a' <= module[0] <= 'z' || module[0] == '_',
        forall|i: int|
            0 <= i < module.len() ==> 'a' <= #[trigger] module[i] <= 'z' || module[i] == '_' || '0'
                <= module[i] <= '9',
    ensures
        short_type_of(module + "::"@ + t) == short_type_of(t),
{
    reveal_strlit("<alloc::alloc::Global>");
    reveal_strlit("::");
    let head = module + "::"@;
    assert forall|i: int| 0 <= i < head.len() implies #[trigger] head[i] != '<' by {
        if i < module.len() {
            assert(head[i] == module[i]);
        }
    }
    lemma_replaced_behind(head, t, "<alloc::alloc::Global>"@, "<>"@);
    assert forall|i: int| 0 <= i < module.len() implies ident_char(#[trigger] module[i]) by {}
    lemma_module_dropped(module, replaced(t, "<alloc::alloc::Global>"@, "<>"@));
}

proof fn lemma_no_colons(s: Seq<char>)
    requires
        forall|i: int| 0 <= i < s.len() ==> #[trigger] s[i] != ':',
    ensures
        without_modules(s, 0) == s,
{
    assert forall|i: int| !#[trigger] segment_at(s, i) by {
        if segment_at(s, i) {
            assert(s[ident_end(s, i)] == ':');
        }
    }
    lemma_nothing_dropped(s, 0);
    assert(s.skip(0) =~= s);
}

/// A type name without a path, and without the default allocator's name, is
/// shown as it is, up to 80 characters.
pub proof fn plain_types_are_shown_as_they_are(t: Seq<char>)
    requires
        t.len() > 0,
        t.len() <= 80,
        !white(t[0]),
        !white(t.last()),
        forall|i: int| 0 <= i < t.len() ==> #[trigger] t[i] != ':',
        !contains(t, "Global"@),
    ensures
        short_type_of(t) == t,
{
    reveal_strlit("<alloc::alloc::Global>");
    reveal_strlit(", Global>");
    reveal_strlit("Global");
    let p = "<alloc::alloc::Global>"@;
    if contains(t, p) {
        let i = choose|i: int| #[trigger] occurs_at(t, p, i);
        assert(t.subrange(i, i + p.len())[6] == t[i + 6]);
    }
    lemma_nothing_replaced(t, p, "<>"@);
    lemma_no_colons(t);
    let q = ", Global>"@;
    if contains(t, q) {
        let i = choose|i: int| #[trigger] occurs_at(t, q, i);
        let f = t.subrange(i, i + q.len());
        let g = t.subrange(i + 2, i + 8);
        assert forall|k: int| 0 <= k < 6 implies g[k] == "Global"@[k] by {
            assert(f[k + 2] == t[i + 2 + k]);
            assert(f[k + 2] == q[k + 2]);
        }
        assert(g =~= "Global"@);
        assert(occurs_at(t, "Global"@, i + 2));
    }
    lemma_nothing_replaced(t, q, ">"@);
    let none = Seq::<char>::empty();
    assert(none + t + none =~= t);
    lemma_trim_around(none, t, none);
}

/// The default allocator is not shown as the last argument of a type.
pub proof fn the_allocator_is_not_shown(name: Seq<char>, arg: Seq<char>)
    requires
        name.len() > 0,
        !white(name[0]),
        name.len() + arg.len() <= 78,
        forall|i: int|
            0 <= i < name.len() ==> #[trigger] name[i] != ':' && name[i] != ',' && name[i] != '<',
        forall|i: int|
            0 <= i < arg.len() ==> #[trigger] arg[i] != ':' && arg[i] != ',' && arg[i] != '<',
    ensures
        short_type_of(name + "<"@ + arg + ", alloc::alloc::Global>"@) == name + "<"@ + arg + ">"@,
{
    reveal_strlit("<");
    reveal_strlit(">");
    reveal_strlit(", ");
    reveal_strlit("::");
    reveal_strlit("alloc");
    reveal_strlit("Global>");
    reveal_strlit(", Global>");
    reveal_strlit(", alloc::alloc::Global>");
    reveal_strlit("<alloc::alloc::Global>");
    let left = name + "<"@ + arg;
    let head = left + ", "@;
    let tail = "Global>"@;
    let inner = "alloc"@ + "::"@ + tail;
    let path = "alloc"@ + "::"@ + inner;
    let t = left + ", alloc::alloc::Global>"@;
    assert(", alloc::alloc::Global>"@ =~= ", "@ + path);
    assert(t =~= head + path);
    let p = "<alloc::alloc::Global>"@;
    if contains(t, p) {
        let i = choose|i: int| #[trigger] occurs_at(t, p, i);
        let f = t.subrange(i, i + p.len());
        assert(f[0] == t[i] && f[6] == t[i + 6] && f[7] == t[i + 7] && f[13] == t[i + 13]);
        let n = name.len() as int;
        assert(t[i] == '<');
        assert forall|k: int| 0 <= k < t.len() && k != n implies t[k] != '<' by {
            if k < n {
                assert(t[k] == name[k]);
            } else if k < n + 1 + arg.len() {
                assert(t[k] == arg[k - n - 1]);
            } else {
                assert(t[k] == ", alloc::alloc::Global>"@[k - n - 1 - arg.len()]);
            }
        }
        assert(i == n);
        let c = n + 1 + arg.len();
        assert(t.len() == c + 23);
        assert(t[c] == ',');
        assert(i + 22 <= t.len());
        if arg.len() < 21 {
            assert(f[arg.len() as int + 1] == t[c]);
        } else {
            assert(t[i + 6] == arg[5]);
        }
    }
    lemma_nothing_replaced(t, p, "<>"@);
    assert forall|i: int| 0 <= i < head.len() implies #[trigger] head[i] != ':' by {
        let n = name.len() as int;
        if i < n {
            assert(head[i] == name[i]);
        } else if n < i < n + 1 + arg.len() {
            assert(head[i] == arg[i - n - 1]);
        }
    }
    lemma_kept_in_front(head, path);
    lemma_module_dropped("alloc"@, inner);
    lemma_module_dropped("alloc"@, tail);
    lemma_no_colons(tail);
    assert(path =~= "alloc"@ + "::"@ + inner);
    let u = head + tail;
    assert(without_modules(t, 0) == u);
    assert(u =~= left + ", Global>"@ + Seq::<char>::empty());
    assert forall|i: int| 0 <= i < left.len() implies #[trigger] left[i] != ',' by {
        let n = name.len() as int;
        if i < n {
            assert(left[i] == name[i]);
        } else if i > n {
            assert(left[i] == arg[i - n - 1]);
        }
    }
    lemma_replaced_once(left, ", Global>"@, Seq::empty(), ">"@);
    let r = left + ">"@;
    assert(left + ">"@ + Seq::<char>::empty() =~= r);
    let none = Seq::<char>::empty();
    assert(none + r + none =~= r);
    assert(r[0] == name[0] && r.last() == '>');
    lemma_trim_around(none, r, none);
}

/// Text without colons that ends in no word is kept before what follows it.
proof fn lemma_kept_in_front(a: Seq<char>, b: Seq<char>)
    requires
        a.len() > 0,
        !ident_char(a.last()),
        forall|i: int| 0 <= i < a.len() ==> #[trigger] a[i] != ':',
    ensures
        without_modules(a + b, 0) == a + without_modules(b, 0),
{
    lemma_kept_from(a, b, 0);
    assert(a.skip(0) =~= a);
}

proof fn lemma_kept_from(a: Seq<char>, b: Seq<char>, i: int)
    requires
        0 <= i <= a.len(),
        a.len() > 0,
        !ident_char(a.last()),
        forall|k: int| 0 <= k < a.len() ==> #[trigger] a[k] != ':',
    ensures
        without_modules(a + b, i) == a.skip(i) + without_modules(b, 0),
    decreases a.len() - i,
{
    let s = a + b;
    if i == a.len() {
        lemma_modules_behind(a, b, 0);
        assert(a.skip(i) + without_modules(b, 0) =~= without_modules(b, 0));
    } else {
        assert(s[i] == a[i]);
        lemma_ident_end(s, i);
        let j = ident_end(s, i);
        if module_start(s, i) {
            if j > a.len() - 1 {
                assert(ident_char(s[a.len() - 1]));
                assert(s[a.len() - 1] == a.last());
            }
            assert(s[j] == a[j]);
            lemma_kept_from(a, b, j);
            assert(s.subrange(i, j) + (a.skip(j) + without_modules(b, 0)) =~= a.skip(i)
                + without_modules(b, 0));
        } else {
            lemma_kept_from(a, b, i + 1);
            assert(seq![s[i]] + (a.skip(i + 1) + without_modules(b, 0)) =~= a.skip(i)
                + without_modules(b, 0));
        }
    }
}

/// A number, a quoted text, what stands in parentheses, a truth value and
/// `None` are shown whole; a text that begins with another letter or a brace
/// and is none of those is not.
pub proof fn single_values_are_leaves(n: int, text: Seq<char>, v: Seq<char>)
    ensures
        leaf_value(int_text(n)),
        leaf_value(seq!['"'] + text),
        leaf_value(seq!['\''] + text),
        leaf_value(seq!['('] + text),
        leaf_value("true"@) && leaf_value("false"@) && leaf_value("None"@),
        !leaf_value(seq!['{'] + text),
        v.len() > 0 && ('a' <= v[0] <= 'z' || 'A' <= v[0] <= 'Z') && v != "true"@ && v != "false"@
            && v != "None"@ ==> !leaf_value(v),
        !leaf_value(Seq::empty()),
{
    reveal_strlit("true");
    reveal_strlit("false");
    reveal_strlit("None");
    lemma_int_text(n);
    let d = int_text(n);
    assert(digit(d[0]) || d[0] == '-');
    lemma_starts(d);
    lemma_starts(seq!['"'] + text);
    lemma_starts(seq!['\''] + text);
    lemma_starts(seq!['('] + text);
    lemma_starts("true"@);
    lemma_starts("false"@);
    lemma_starts("None"@);
    lemma_starts(seq!['{'] + text);
    assert("true"@[0] == 't' && "false"@[0] == 'f' && "None"@[0] == 'N');
    assert((seq!['{'] + text)[0] == '{');
    if v.len() > 0 && ('a' <= v[0] <= 'z' || 'A' <= v[0] <= 'Z') {
        lemma_starts(v);
    }
    let none = Seq::<char>::empty();
    assert(trimmed_start(none) == none);
    assert("true"@.len() == 4 && "false"@.len() == 5 && "None"@.len() == 4);
}

proof fn lemma_starts(s: Seq<char>)
    requires
        s.len() > 0,
        !white(s[0]),
    ensures
        trimmed_start(s) == s,
{
    lemma_strip_start(s, whites(), 0);
    assert(s.skip(0) =~= s);
}

/// Texts, characters, truth values and numbers are of types whose values are
/// single; a type with arguments is not, nor is one that ends in `]` or `)`,
/// unless its name begins as that of a number.
pub proof fn single_types_are_leaves(t: Seq<char>, bits: Seq<char>)
    ensures
        leaf_type(t + "String"@) && leaf_type(t + "str"@) && leaf_type(t + "char"@) && leaf_type(
            t + "bool"@,
        ),
        bits.len() > 0 && digit(bits[0]) ==> leaf_type(seq!['u'] + bits) && leaf_type(
            seq!['i'] + bits,
        ) && leaf_type(seq!['f'] + bits) && num_type(seq!['u'] + bits),
        leaf_type("usize"@) && leaf_type("isize"@),
        t.len() > 0 && (t.last() == '>' || t.last() == ']' || t.last() == ')') && t[0] != 'u'
            && t[0] != 'i' && t[0] != 'f' ==> !leaf_type(t),
{
    reveal_strlit("String");
    reveal_strlit("str");
    reveal_strlit("char");
    reveal_strlit("bool");
    reveal_strlit("usize");
    reveal_strlit("isize");
    lemma_ends(t, "String"@);
    lemma_ends(t, "str"@);
    lemma_ends(t, "char"@);
    lemma_ends(t, "bool"@);
    assert("usize"@.is_prefix_of("usize"@) && "isize"@.is_prefix_of("isize"@));
    assert((seq!['u'] + bits)[0] == 'u' && (seq!['i'] + bits)[0] == 'i' && (seq!['f'] + bits)[0]
        == 'f');
    if bits.len() > 0 {
        assert((seq!['u'] + bits)[1] == bits[0] && (seq!['i'] + bits)[1] == bits[0] && (seq!['f']
            + bits)[1] == bits[0]);
    }
    if t.len() > 0 {
        assert("String"@.last() == 'g' && "str"@.last() == 'r' && "char"@.last() == 'r'
            && "bool"@.last() == 'l');
        assert("String"@.is_suffix_of(t) ==> t.last() == 'g');
        assert("str"@.is_suffix_of(t) ==> t.last() == 'r');
        assert("char"@.is_suffix_of(t) ==> t.last() == 'r');
        assert("bool"@.is_suffix_of(t) ==> t.last() == 'l');
        assert("usize"@.is_prefix_of(t) ==> t[0] == 'u') by {
            assert("usize"@[0] == 'u');
        }
        assert("isize"@.is_prefix_of(t) ==> t[0] == 'i') by {
            assert("isize"@[0] == 'i');
        }
    }
}

proof fn lemma_ends(a: Seq<char>, b: Seq<char>)
    ensures
        b.is_suffix_of(a + b),
{
    assert((a + b).subrange((a + b).len() - b.len(), (a + b).len() as int) =~= b);
}

} // verus!
