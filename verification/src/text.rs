//! Text as a sequence of characters: searching, trimming, splitting and
//! joining, with what each operation means stated over `Seq<char>`.

use vstd::prelude::*;

verus! {

/// `String::push`: appends one character to the end of the string.
pub assume_specification [ String::push ](s: &mut String, c: char)
    ensures
        final(s)@ == old(s)@.push(c),
;

// ---------------------------------------------------------------------------
// Characters
// ---------------------------------------------------------------------------

/// The Unicode `White_Space` property.
pub open spec fn white(c: char) -> bool {
    let n = c as int;
    ||| 0x9 <= n <= 0xd
    ||| n == 0x20
    ||| n == 0x85
    ||| n == 0xa0
    ||| n == 0x1680
    ||| 0x2000 <= n <= 0x200a
    ||| n == 0x2028
    ||| n == 0x2029
    ||| n == 0x202f
    ||| n == 0x205f
    ||| n == 0x3000
}

/// Whether a character beyond ASCII has the Unicode `Lowercase` property.
pub uninterp spec fn lowercase(c: char) -> bool;

/// A lower-case character: of ASCII a letter from `a` to `z`.
pub open spec fn lower_case(c: char) -> bool {
    if c <= '\x7f' {
        'a' <= c <= 'z'
    } else {
        lowercase(c)
    }
}

/// `char::is_lowercase`: of ASCII the letters from `a` to `z`; of the rest the
/// characters with the Unicode `Lowercase` property. Which these are is not
/// said here.
#[verifier::external_body]
pub(crate) fn is_lower(c: char) -> (r: bool)
    ensures
        c <= '\x7f' ==> r == ('a' <= c <= 'z'),
        c > '\x7f' ==> r == lowercase(c),
{
    c.is_lowercase()
}

pub fn is_white(c: char) -> (r: bool)
    ensures
        r == white(c),
{
    let n: u32 = c as u32;
    (0x9 <= n && n <= 0xd) || n == 0x20 || n == 0x85 || n == 0xa0 || n == 0x1680 || (0x2000 <= n
        && n <= 0x200a) || n == 0x2028 || n == 0x2029 || n == 0x202f || n == 0x205f || n == 0x3000
}

/// `0`-`9`.
pub open spec fn digit(c: char) -> bool {
    '0' <= c <= '9'
}

/// `0`-`9`, `a`-`f`, `A`-`F`.
pub open spec fn hex_digit(c: char) -> bool {
    digit(c) || 'a' <= c <= 'f' || 'A' <= c <= 'F'
}

/// The ASCII lower-case form of a character; any other character is itself.
pub open spec fn lower(c: char) -> char {
    if 'A' <= c <= 'Z' {
        (c as int + 32) as char
    } else {
        c
    }
}

pub fn to_lower(c: char) -> (r: char)
    ensures
        r == lower(c),
{
    if 'A' <= c && c <= 'Z' {
        ((c as u8) + 32) as char
    } else {
        c
    }
}

// ---------------------------------------------------------------------------
// Strings and character vectors
// ---------------------------------------------------------------------------

/// The texts that a list of strings holds.
pub open spec fn views(v: Seq<String>) -> Seq<Seq<char>> {
    Seq::new(v.len(), |i: int| v[i]@)
}

/// A result of strings as one of texts.
pub open spec fn text_result(r: Result<String, String>) -> Result<Seq<char>, Seq<char>> {
    match r {
        Ok(s) => Ok(s@),
        Err(e) => Err(e@),
    }
}

/// The text that an optional string holds.
pub open spec fn opt_str(s: Option<&str>) -> Option<Seq<char>> {
    match s {
        Some(t) => Some(t@),
        None => None,
    }
}

/// The characters of a string, in order.
pub fn chars_of(s: &str) -> (v: Vec<char>)
    ensures
        v@ == s@,
{
    let mut v: Vec<char> = Vec::new();
    for c in it: s.chars()
        invariant
            v@ == s@.take(it.index() as int),
            it.seq() == s@,
    {
        v.push(c);
    }
    v
}

/// The string made of `v[from..to]`.
pub fn text_of(v: &Vec<char>, from: usize, to: usize) -> (s: String)
    requires
        from <= to <= v.len(),
    ensures
        s@ == v@.subrange(from as int, to as int),
{
    let mut s = String::new();
    let mut i: usize = from;
    while i < to
        invariant
            from <= i <= to <= v.len(),
            s@ == v@.subrange(from as int, i as int),
        decreases to - i,
    {
        s.push(v[i]);
        i += 1;
    }
    s
}

/// Whether two strings hold the same characters.
pub fn same(a: &str, b: &str) -> (r: bool)
    ensures
        r == (a@ == b@),
{
    let x = chars_of(a);
    let y = chars_of(b);
    same_chars(&x, &y)
}

pub fn same_chars(x: &Vec<char>, y: &Vec<char>) -> (r: bool)
    ensures
        r == (x@ == y@),
{
    if x.len() != y.len() {
        return false;
    }
    let mut i: usize = 0;
    while i < x.len()
        invariant
            i <= x.len() == y.len(),
            x@.take(i as int) == y@.take(i as int),
        decreases x.len() - i,
    {
        if x[i] != y[i] {
            return false;
        }
        assert(x@.take(i + 1) == x@.take(i as int).push(x@[i as int]));
        assert(y@.take(i + 1) == y@.take(i as int).push(y@[i as int]));
        i += 1;
    }
    assert(x@.take(i as int) == x@);
    assert(y@.take(i as int) == y@);
    true
}

/// A copy of a string slice.
pub fn owned(s: &str) -> (r: String)
    ensures
        r@ == s@,
{
    String::from_str(s)
}

/// A copy of a list of strings.
pub fn copy_all(v: &Vec<String>) -> (r: Vec<String>)
    ensures
        views(r@) == views(v@),
{
    copy_from(v, 0)
}

/// A copy of `v[from..]`.
pub fn copy_from(v: &Vec<String>, from: usize) -> (r: Vec<String>)
    requires
        from <= v.len(),
    ensures
        views(r@) == views(v@).skip(from as int),
{
    let mut r: Vec<String> = Vec::new();
    let mut i: usize = from;
    while i < v.len()
        invariant
            from <= i <= v.len(),
            r.len() == i - from,
            forall|k: int| 0 <= k < r.len() ==> (#[trigger] r@[k])@ == v@[from + k]@,
        decreases v.len() - i,
    {
        r.push(owned(v[i].as_str()));
        i += 1;
    }
    assert(views(r@) =~= views(v@).skip(from as int));
    r
}

/// Whether a list of strings holds `s`.
pub fn has(v: &Vec<String>, s: &str) -> (r: bool)
    ensures
        r == views(v@).contains(s@),
{
    index_of(v, s).is_some()
}

/// The position of the first string of `v` that equals `s`.
pub open spec fn first_index(v: Seq<Seq<char>>, s: Seq<char>, from: int) -> Option<int>
    decreases v.len() - from,
{
    if from < 0 || from >= v.len() {
        None
    } else if v[from] == s {
        Some(from)
    } else {
        first_index(v, s, from + 1)
    }
}

pub proof fn lemma_first_index(v: Seq<Seq<char>>, s: Seq<char>, from: int)
    requires
        0 <= from,
    ensures
        match first_index(v, s, from) {
            Some(i) => from <= i < v.len() && v[i] == s,
            None => forall|k: int| from <= k < v.len() ==> v[k] != s,
        },
    decreases v.len() - from,
{
    if from < v.len() && v[from] != s {
        lemma_first_index(v, s, from + 1);
    }
}

pub fn index_of(v: &Vec<String>, s: &str) -> (r: Option<usize>)
    ensures
        match r {
            Some(i) => first_index(views(v@), s@, 0) == Some(i as int) && i < v.len()
                && views(v@).contains(s@),
            None => first_index(views(v@), s@, 0) is None && !views(v@).contains(s@),
        },
{
    proof {
        lemma_first_index(views(v@), s@, 0);
    }
    let mut i: usize = 0;
    while i < v.len()
        invariant
            i <= v.len(),
            first_index(views(v@), s@, 0) == first_index(views(v@), s@, i as int),
        decreases v.len() - i,
    {
        if same(v[i].as_str(), s) {
            assert(views(v@)[i as int] == s@);
            return Some(i);
        }
        i += 1;
    }
    None
}

// ---------------------------------------------------------------------------
// Searching
// ---------------------------------------------------------------------------

/// `p` stands in `s` at position `i`.
pub open spec fn occurs_at(s: Seq<char>, p: Seq<char>, i: int) -> bool {
    0 <= i && i + p.len() <= s.len() && s.subrange(i, i + p.len()) == p
}

/// `p` stands somewhere in `s`.
pub open spec fn contains(s: Seq<char>, p: Seq<char>) -> bool {
    exists|i: int| #[trigger] occurs_at(s, p, i)
}

/// The first position at or after `i` at which `p` stands in `s`.
pub open spec fn find_from(s: Seq<char>, p: Seq<char>, i: int) -> Option<int>
    decreases s.len() + 1 - i,
{
    if i < 0 || i + p.len() > s.len() {
        None
    } else if occurs_at(s, p, i) {
        Some(i)
    } else {
        find_from(s, p, i + 1)
    }
}

/// The last position at or before `i` at which `p` stands in `s`.
pub open spec fn rfind_upto(s: Seq<char>, p: Seq<char>, i: int) -> Option<int>
    decreases i + 1,
{
    if i < 0 {
        None
    } else if occurs_at(s, p, i) {
        Some(i)
    } else {
        rfind_upto(s, p, i - 1)
    }
}

pub proof fn lemma_find_from(s: Seq<char>, p: Seq<char>, i: int)
    requires
        0 <= i,
    ensures
        match find_from(s, p, i) {
            Some(k) => i <= k && occurs_at(s, p, k) && forall|j: int|
                i <= j < k ==> !#[trigger] occurs_at(s, p, j),
            None => forall|j: int| i <= j ==> !#[trigger] occurs_at(s, p, j),
        },
    decreases s.len() + 1 - i,
{
    if i + p.len() <= s.len() && !occurs_at(s, p, i) {
        lemma_find_from(s, p, i + 1);
    }
}

pub proof fn lemma_rfind_upto(s: Seq<char>, p: Seq<char>, i: int)
    ensures
        match rfind_upto(s, p, i) {
            Some(k) => 0 <= k <= i && occurs_at(s, p, k) && forall|j: int|
                k < j <= i ==> !#[trigger] occurs_at(s, p, j),
            None => forall|j: int| j <= i ==> !#[trigger] occurs_at(s, p, j),
        },
    decreases i + 1,
{
    if i >= 0 && !occurs_at(s, p, i) {
        lemma_rfind_upto(s, p, i - 1);
    }
}

/// A text stands in another exactly where that one is made of something, the
/// text, and something more.
pub proof fn what_is_held_stands_between(s: Seq<char>, p: Seq<char>)
    ensures
        contains(s, p) <==> exists|a: Seq<char>, b: Seq<char>| s == #[trigger] (a + p + b),
{
    if contains(s, p) {
        let i = choose|i: int| #[trigger] occurs_at(s, p, i);
        let a = s.take(i);
        let b = s.skip(i + p.len());
        assert forall|k: int| 0 <= k < s.len() implies s[k] == (a + p + b)[k] by {
            if i <= k < i + p.len() {
                assert(s.subrange(i, i + p.len())[k - i] == p[k - i]);
            }
        }
        assert(s =~= a + p + b);
    }
    if exists|a: Seq<char>, b: Seq<char>| s == #[trigger] (a + p + b) {
        let (a, b) = choose|a: Seq<char>, b: Seq<char>| s == #[trigger] (a + p + b);
        assert(s.subrange(a.len() as int, a.len() as int + p.len()) =~= p);
        assert(occurs_at(s, p, a.len() as int));
    }
}

/// Whether `p` stands in `s` at position `i`.
pub fn occurs(s: &Vec<char>, p: &Vec<char>, i: usize) -> (r: bool)
    ensures
        r == occurs_at(s@, p@, i as int),
{
    if i > s.len() || p.len() > s.len() - i {
        return false;
    }
    let mut k: usize = 0;
    while k < p.len()
        invariant
            k <= p.len(),
            i + p.len() <= s.len(),
            forall|j: int| 0 <= j < k ==> s@[i + j] == p@[j],
        decreases p.len() - k,
    {
        if s[i + k] != p[k] {
            assert(s@.subrange(i as int, i + p.len())[k as int] != p@[k as int]);
            return false;
        }
        k += 1;
    }
    assert(s@.subrange(i as int, i + p.len()) =~= p@);
    true
}

/// The first position at or after `from` at which `p` stands in `s`.
pub fn find_chars(s: &Vec<char>, p: &Vec<char>, from: usize) -> (r: Option<usize>)
    ensures
        match r {
            Some(i) => find_from(s@, p@, from as int) == Some(i as int) && from <= i && i + p.len()
                <= s.len(),
            None => find_from(s@, p@, from as int) is None,
        },
{
    let mut i: usize = from;
    loop
        invariant
            from <= i,
            find_from(s@, p@, from as int) == find_from(s@, p@, i as int),
        decreases s.len() + 1 - i,
    {
        if i > s.len() || p.len() > s.len() - i {
            return None;
        }
        if occurs(s, p, i) {
            return Some(i);
        }
        if i == s.len() {
            assert(s@.subrange(i as int, i + p.len()) =~= p@);
            return None;
        }
        i += 1;
    }
}

/// Whether `p` stands somewhere in `s`.
pub fn has_text(s: &str, p: &str) -> (r: bool)
    ensures
        r == contains(s@, p@),
{
    let v = chars_of(s);
    let q = chars_of(p);
    proof {
        lemma_find_from(s@, p@, 0);
    }
    let r = find_chars(&v, &q, 0);
    match r {
        Some(i) => {
            assert(occurs_at(s@, p@, i as int));
            true
        },
        None => false,
    }
}

/// The position of the last occurrence of `p` in `s`.
pub fn rfind_chars(s: &Vec<char>, p: &Vec<char>) -> (r: Option<usize>)
    ensures
        match r {
            Some(i) => rfind_upto(s@, p@, s.len() as int) == Some(i as int) && i + p.len()
                <= s.len(),
            None => rfind_upto(s@, p@, s.len() as int) is None,
        },
{
    let mut i: usize = s.len();
    loop
        invariant
            i <= s.len(),
            rfind_upto(s@, p@, s.len() as int) == rfind_upto(s@, p@, i as int),
        decreases i,
    {
        if occurs(s, p, i) {
            return Some(i);
        }
        if i == 0 {
            assert(rfind_upto(s@, p@, -1) is None);
            return None;
        }
        i -= 1;
    }
}

/// Whether `s` begins with `p`.
pub fn begins(s: &str, p: &str) -> (r: bool)
    ensures
        r == p@.is_prefix_of(s@),
{
    let v = chars_of(s);
    let q = chars_of(p);
    let r = occurs(&v, &q, 0);
    assert(p@.len() <= s@.len() ==> s@.subrange(0, p@.len() as int) == s@.take(p@.len() as int));
    r
}

/// Whether `s` ends with `p`.
pub fn ends(s: &str, p: &str) -> (r: bool)
    ensures
        r == p@.is_suffix_of(s@),
{
    let v = chars_of(s);
    let q = chars_of(p);
    if q.len() > v.len() {
        return false;
    }
    occurs(&v, &q, v.len() - q.len())
}

/// What follows the prefix `p`, where `s` begins with it.
pub fn after_prefix(s: &str, p: &str) -> (r: Option<String>)
    ensures
        match r {
            Some(t) => p@.is_prefix_of(s@) && t@ == s@.skip(p@.len() as int),
            None => !p@.is_prefix_of(s@),
        },
{
    if begins(s, p) {
        let v = chars_of(s);
        let q = chars_of(p);
        Some(text_of(&v, q.len(), v.len()))
    } else {
        None
    }
}

/// What precedes the suffix `p`, where `s` ends with it.
pub fn before_suffix(s: &str, p: &str) -> (r: Option<String>)
    ensures
        match r {
            Some(t) => p@.is_suffix_of(s@) && t@ == s@.take(s@.len() - p@.len()),
            None => !p@.is_suffix_of(s@),
        },
{
    if ends(s, p) {
        let v = chars_of(s);
        let q = chars_of(p);
        Some(text_of(&v, 0, v.len() - q.len()))
    } else {
        None
    }
}

/// The two sides of the first `p` in `s`.
pub open spec fn halves(s: Seq<char>, p: Seq<char>) -> Option<(Seq<char>, Seq<char>)> {
    match find_from(s, p, 0) {
        Some(i) => Some((s.take(i), s.skip(i + p.len()))),
        None => None,
    }
}

/// The two sides of the last `p` in `s`.
pub open spec fn rhalves(s: Seq<char>, p: Seq<char>) -> Option<(Seq<char>, Seq<char>)> {
    match rfind_upto(s, p, s.len() as int) {
        Some(i) => Some((s.take(i), s.skip(i + p.len()))),
        None => None,
    }
}

pub fn split_first(s: &str, p: &str) -> (r: Option<(String, String)>)
    ensures
        match r {
            Some((a, b)) => halves(s@, p@) == Some((a@, b@)),
            None => halves(s@, p@) is None,
        },
{
    let v = chars_of(s);
    let q = chars_of(p);
    match find_chars(&v, &q, 0) {
        Some(i) => {
            let a = text_of(&v, 0, i);
            let b = text_of(&v, i + q.len(), v.len());
            assert(a@ == s@.take(i as int));
            assert(b@ == s@.skip(i + p@.len()));
            Some((a, b))
        },
        None => None,
    }
}

pub fn split_last(s: &str, p: &str) -> (r: Option<(String, String)>)
    ensures
        match r {
            Some((a, b)) => rhalves(s@, p@) == Some((a@, b@)),
            None => rhalves(s@, p@) is None,
        },
{
    let v = chars_of(s);
    let q = chars_of(p);
    match rfind_chars(&v, &q) {
        Some(i) => {
            let a = text_of(&v, 0, i);
            let b = text_of(&v, i + q.len(), v.len());
            assert(a@ == s@.take(i as int));
            assert(b@ == s@.skip(i + p@.len()));
            Some((a, b))
        },
        None => None,
    }
}

// ---------------------------------------------------------------------------
// Trimming
// ---------------------------------------------------------------------------

/// `s` without its leading characters that satisfy `p`.
pub open spec fn strip_start(s: Seq<char>, p: spec_fn(char) -> bool) -> Seq<char>
    decreases s.len(),
{
    if s.len() > 0 && p(s[0]) {
        strip_start(s.drop_first(), p)
    } else {
        s
    }
}

/// `s` without its trailing characters that satisfy `p`.
pub open spec fn strip_end(s: Seq<char>, p: spec_fn(char) -> bool) -> Seq<char>
    decreases s.len(),
{
    if s.len() > 0 && p(s.last()) {
        strip_end(s.drop_last(), p)
    } else {
        s
    }
}

/// `s` without the characters on either side that satisfy `p`.
pub open spec fn strip(s: Seq<char>, p: spec_fn(char) -> bool) -> Seq<char> {
    strip_end(strip_start(s, p), p)
}

/// The predicate of being white space.
pub open spec fn whites() -> spec_fn(char) -> bool {
    |c: char| white(c)
}

/// The predicate of being one character.
pub open spec fn just(c: char) -> spec_fn(char) -> bool {
    |x: char| x == c
}

/// The predicate of being one of two characters.
pub open spec fn either(a: char, b: char) -> spec_fn(char) -> bool {
    |c: char| c == a || c == b
}

/// `s` without white space on either side.
pub open spec fn trimmed(s: Seq<char>) -> Seq<char> {
    strip(s, whites())
}

/// `s` without white space in front.
pub open spec fn trimmed_start(s: Seq<char>) -> Seq<char> {
    strip_start(s, whites())
}

/// `s` without white space at the end.
pub open spec fn trimmed_end(s: Seq<char>) -> Seq<char> {
    strip_end(s, whites())
}

pub proof fn lemma_strip_start(s: Seq<char>, p: spec_fn(char) -> bool, i: int)
    requires
        0 <= i <= s.len(),
        forall|k: int| 0 <= k < i ==> p(#[trigger] s[k]),
        i < s.len() ==> !p(s[i]),
    ensures
        strip_start(s, p) == s.skip(i),
    decreases i,
{
    if i > 0 {
        assert(p(s[0]));
        lemma_strip_start(s.drop_first(), p, i - 1);
        assert(s.drop_first().skip(i - 1) =~= s.skip(i));
    } else {
        assert(s.skip(0) =~= s);
    }
}

pub proof fn lemma_strip_end(s: Seq<char>, p: spec_fn(char) -> bool, i: int)
    requires
        0 <= i <= s.len(),
        forall|k: int| i <= k < s.len() ==> p(#[trigger] s[k]),
        i > 0 ==> !p(s[i - 1]),
    ensures
        strip_end(s, p) == s.take(i),
    decreases s.len() - i,
{
    if i < s.len() {
        assert(p(s.last()));
        lemma_strip_end(s.drop_last(), p, i);
        assert(s.drop_last().take(i) =~= s.take(i));
    } else {
        assert(s.take(i) =~= s);
    }
}

proof fn lemma_start_of(s: Seq<char>, p: spec_fn(char) -> bool) -> (a: int)
    ensures
        0 <= a <= s.len(),
        strip_start(s, p) == s.skip(a),
        a < s.len() ==> !p(s[a]),
        a > 0 ==> p(s[a - 1]),
    decreases s.len(),
{
    if s.len() > 0 && p(s[0]) {
        let a = lemma_start_of(s.drop_first(), p);
        assert(s.drop_first().skip(a) =~= s.skip(a + 1));
        assert(a > 0 ==> s.drop_first()[a - 1] == s[a]);
        a + 1
    } else {
        assert(s.skip(0) =~= s);
        0
    }
}

pub proof fn lemma_end_of(s: Seq<char>, p: spec_fn(char) -> bool) -> (b: int)
    ensures
        0 <= b <= s.len(),
        strip_end(s, p) == s.take(b),
        b > 0 ==> !p(s[b - 1]),
    decreases s.len(),
{
    if s.len() > 0 && p(s.last()) {
        let b = lemma_end_of(s.drop_last(), p);
        assert(s.drop_last().take(b) =~= s.take(b));
        b
    } else {
        assert(s.take(s.len() as int) =~= s);
        s.len() as int
    }
}

/// What trimming leaves is a part of the text that neither begins nor ends
/// with white space, and stands behind white space or at the text's start.
pub proof fn lemma_trimmed(s: Seq<char>) -> (ends: (int, int))
    ensures
        0 <= ends.0 <= ends.1 <= s.len(),
        trimmed(s) == s.subrange(ends.0, ends.1),
        ends.0 > 0 ==> white(s[ends.0 - 1]),
        trimmed(s).len() > 0 ==> !white(trimmed(s)[0]) && !white(trimmed(s).last()),
{
    let a = lemma_start_of(s, whites());
    let t = s.skip(a);
    let b = lemma_end_of(t, whites());
    assert(t.take(b) =~= s.subrange(a, a + b));
    if b > 0 {
        assert(t[0] == s[a]);
    }
    (a, a + b)
}

/// A text between white space is what trimming leaves.
pub proof fn lemma_trim_around(before: Seq<char>, s: Seq<char>, after: Seq<char>)
    requires
        s.len() > 0,
        !white(s[0]),
        !white(s.last()),
        forall|i: int| 0 <= i < before.len() ==> white(#[trigger] before[i]),
        forall|i: int| 0 <= i < after.len() ==> white(#[trigger] after[i]),
    ensures
        trimmed(before + s + after) == s,
{
    let t = before + s + after;
    let n = before.len() as int;
    assert forall|k: int| 0 <= k < n implies whites()(#[trigger] t[k]) by {
        assert(t[k] == before[k]);
    }
    assert(t[n] == s[0]);
    lemma_strip_start(t, whites(), n);
    let u = t.skip(n);
    let m = s.len() as int;
    assert forall|k: int| m <= k < u.len() implies whites()(#[trigger] u[k]) by {
        assert(u[k] == after[k - m]);
    }
    assert(u[m - 1] == s.last());
    lemma_strip_end(u, whites(), m);
    assert(u.take(m) =~= s);
}

/// The number of leading white space characters.
fn white_start(v: &Vec<char>) -> (i: usize)
    ensures
        i <= v.len(),
        trimmed_start(v@) == v@.skip(i as int),
{
    let mut i: usize = 0;
    while i < v.len() && is_white(v[i])
        invariant
            i <= v.len(),
            forall|k: int| 0 <= k < i ==> whites()(#[trigger] v@[k]),
        decreases v.len() - i,
    {
        i += 1;
    }
    proof {
        lemma_strip_start(v@, whites(), i as int);
    }
    i
}

/// The end of `v[from..]` once trailing white space is left off.
fn white_end(v: &Vec<char>, from: usize) -> (i: usize)
    requires
        from <= v.len(),
    ensures
        from <= i <= v.len(),
        trimmed_end(v@.skip(from as int)) == v@.subrange(from as int, i as int),
{
    let mut i: usize = v.len();
    while i > from && is_white(v[i - 1])
        invariant
            from <= i <= v.len(),
            forall|k: int| i <= k < v.len() ==> whites()(#[trigger] v@[k]),
        decreases i,
    {
        i -= 1;
    }
    proof {
        lemma_strip_end(v@.skip(from as int), whites(), i - from);
        assert(v@.skip(from as int).take(i - from) =~= v@.subrange(from as int, i as int));
    }
    i
}

pub fn trim(s: &str) -> (r: String)
    ensures
        r@ == trimmed(s@),
{
    let v = chars_of(s);
    let a = white_start(&v);
    let b = white_end(&v, a);
    text_of(&v, a, b)
}

pub fn trim_front(s: &str) -> (r: String)
    ensures
        r@ == trimmed_start(s@),
{
    let v = chars_of(s);
    let a = white_start(&v);
    text_of(&v, a, v.len())
}

pub fn trim_back(s: &str) -> (r: String)
    ensures
        r@ == trimmed_end(s@),
{
    let v = chars_of(s);
    let b = white_end(&v, 0);
    assert(v@.skip(0) =~= v@);
    text_of(&v, 0, b)
}

/// `s` without leading `a`s and `b`s.
pub fn strip_front_of(s: &str, a: char, b: char) -> (r: String)
    ensures
        r@ == strip_start(s@, either(a, b)),
{
    let v = chars_of(s);
    let mut i: usize = 0;
    while i < v.len() && (v[i] == a || v[i] == b)
        invariant
            i <= v.len(),
            forall|k: int| 0 <= k < i ==> either(a, b)(#[trigger] v@[k]),
        decreases v.len() - i,
    {
        i += 1;
    }
    proof {
        lemma_strip_start(v@, either(a, b), i as int);
    }
    text_of(&v, i, v.len())
}

/// `s` without `a`s and `b`s on either side.
pub fn strip_of(s: &str, a: char, b: char) -> (r: String)
    ensures
        r@ == strip(s@, either(a, b)),
{
    let t = strip_front_of(s, a, b);
    let v = chars_of(t.as_str());
    let mut i: usize = v.len();
    while i > 0 && (v[i - 1] == a || v[i - 1] == b)
        invariant
            i <= v.len(),
            forall|k: int| i <= k < v.len() ==> either(a, b)(#[trigger] v@[k]),
        decreases i,
    {
        i -= 1;
    }
    proof {
        lemma_strip_end(v@, either(a, b), i as int);
    }
    text_of(&v, 0, i)
}

// ---------------------------------------------------------------------------
// Splitting and joining
// ---------------------------------------------------------------------------

/// The pieces of `s` between the characters that satisfy `p`.
pub open spec fn pieces(s: Seq<char>, p: spec_fn(char) -> bool) -> Seq<Seq<char>>
    decreases s.len(),
{
    if s.len() == 0 {
        seq![Seq::<char>::empty()]
    } else {
        let before = pieces(s.drop_last(), p);
        if p(s.last()) {
            before.push(Seq::empty())
        } else {
            before.drop_last().push(before.last().push(s.last()))
        }
    }
}

/// The pieces of `s` between occurrences of `c`.
pub open spec fn split_on(s: Seq<char>, c: char) -> Seq<Seq<char>> {
    pieces(s, just(c))
}

/// The words of `s`: its longest runs without white space.
pub open spec fn words(s: Seq<char>) -> Seq<Seq<char>> {
    pieces(s, whites()).filter(|w: Seq<char>| w.len() > 0)
}

/// A line without the carriage return before its line feed.
pub open spec fn without_cr(l: Seq<char>) -> Seq<char> {
    if l.len() > 0 && l.last() == '\r' {
        l.drop_last()
    } else {
        l
    }
}

/// The lines of `s`, ended by `\n` or `\r\n`; the last may lack its ending.
pub open spec fn lines_of(s: Seq<char>) -> Seq<Seq<char>> {
    let ps = split_on(s, '\n');
    let ended = ps.drop_last().map_values(|l: Seq<char>| without_cr(l));
    if ps.last().len() == 0 {
        ended
    } else {
        ended.push(ps.last())
    }
}

/// The parts one after another with `sep` between them.
pub open spec fn join(parts: Seq<Seq<char>>, sep: Seq<char>) -> Seq<char>
    decreases parts.len(),
{
    if parts.len() == 0 {
        Seq::empty()
    } else if parts.len() == 1 {
        parts[0]
    } else {
        join(parts.drop_last(), sep) + sep + parts.last()
    }
}

/// The parts one after another.
pub open spec fn concat(parts: Seq<Seq<char>>) -> Seq<char> {
    join(parts, Seq::empty())
}

pub proof fn lemma_pieces_nonempty(s: Seq<char>, p: spec_fn(char) -> bool)
    ensures
        pieces(s, p).len() > 0,
    decreases s.len(),
{
    if s.len() > 0 {
        lemma_pieces_nonempty(s.drop_last(), p);
    }
}

/// The pieces of `s` between occurrences of `c`.
pub fn split_char(s: &str, c: char) -> (r: Vec<String>)
    ensures
        views(r@) == split_on(s@, c),
        r.len() > 0,
{
    let v = chars_of(s);
    let ghost p = just(c);
    let mut r: Vec<String> = Vec::new();
    let mut cur = String::new();
    let mut i: usize = 0;
    assert(v@.take(0) =~= Seq::empty());
    assert(views(r@).push(cur@) =~= pieces(v@.take(0), p));
    while i < v.len()
        invariant
            i <= v.len(),
            p == just(c),
            views(r@).push(cur@) == pieces(v@.take(i as int), p),
        decreases v.len() - i,
    {
        let ghost before = views(r@);
        let ghost held = cur@;
        assert(v@.take(i + 1).drop_last() =~= v@.take(i as int));
        if v[i] == c {
            r.push(cur);
            cur = String::new();
            assert(views(r@) =~= before.push(held));
        } else {
            cur.push(v[i]);
            assert(before.push(held).drop_last() =~= before);
        }
        i += 1;
    }
    let ghost before = views(r@);
    let ghost held = cur@;
    r.push(cur);
    assert(v@.take(v@.len() as int) =~= v@);
    assert(views(r@) =~= before.push(held));
    r
}

/// The words of `s`.
pub fn split_white(s: &str) -> (r: Vec<String>)
    ensures
        views(r@) == words(s@),
{
    let v = chars_of(s);
    let ghost p = whites();
    let ghost full = |w: Seq<char>| w.len() > 0;
    let mut r: Vec<String> = Vec::new();
    let mut cur = String::new();
    let mut i: usize = 0;
    let ghost mut done: Seq<Seq<char>> = Seq::empty();
    assert(v@.take(0) =~= Seq::empty());
    assert(done.push(cur@) =~= pieces(v@.take(0), p));
    assert(views(r@) =~= done.filter(full)) by {
        reveal(Seq::filter);
    }
    while i < v.len()
        invariant
            i <= v.len(),
            p == whites(),
            full == (|w: Seq<char>| w.len() > 0),
            done.push(cur@) == pieces(v@.take(i as int), p),
            views(r@) == done.filter(full),
        decreases v.len() - i,
    {
        let ghost before = views(r@);
        let ghost held = cur@;
        assert(v@.take(i + 1).drop_last() =~= v@.take(i as int));
        assert(done.push(held).drop_last() =~= done);
        if is_white(v[i]) {
            proof {
                lemma_filter_push(done, held);
                done = done.push(held);
            }
            if !cur.as_str().is_empty() {
                r.push(cur);
                assert(views(r@) =~= before.push(held));
            }
            cur = String::new();
        } else {
            cur.push(v[i]);
        }
        i += 1;
    }
    assert(v@.take(v@.len() as int) =~= v@);
    proof {
        lemma_filter_push(done, cur@);
    }
    let ghost before = views(r@);
    let ghost held = cur@;
    if !cur.as_str().is_empty() {
        r.push(cur);
        assert(views(r@) =~= before.push(held));
    }
    r
}

proof fn lemma_filter_push(s: Seq<Seq<char>>, w: Seq<char>)
    ensures
        s.push(w).filter(|w: Seq<char>| w.len() > 0) == if w.len() > 0 {
            s.filter(|w: Seq<char>| w.len() > 0).push(w)
        } else {
            s.filter(|w: Seq<char>| w.len() > 0)
        },
{
    reveal(Seq::filter);
    assert(s.push(w).drop_last() =~= s);
}

/// The lines of `s`.
pub fn lines(s: &str) -> (r: Vec<String>)
    ensures
        views(r@) == lines_of(s@),
{
    let ps = split_char(s, '\n');
    let n: usize = ps.len() - 1;
    let mut r: Vec<String> = Vec::new();
    let mut i: usize = 0;
    while i < n
        invariant
            i <= n,
            n == ps.len() - 1,
            r.len() == i,
            forall|k: int| 0 <= k < i ==> (#[trigger] r@[k])@ == without_cr(ps@[k]@),
        decreases n - i,
    {
        let l = chars_of(ps[i].as_str());
        if l.len() > 0 && l[l.len() - 1] == '\r' {
            let t = text_of(&l, 0, l.len() - 1);
            assert(t@ =~= ps@[i as int]@.drop_last());
            r.push(t);
        } else {
            r.push(owned(ps[i].as_str()));
        }
        i += 1;
    }
    let ghost all = split_on(s@, '\n');
    assert(views(r@) =~= all.drop_last().map_values(|l: Seq<char>| without_cr(l)));
    assert(all.last() == ps@[n as int]@);
    if !ps[n].as_str().is_empty() {
        let ghost before = views(r@);
        r.push(owned(ps[n].as_str()));
        assert(views(r@) =~= before.push(all.last()));
    }
    r
}

pub proof fn lemma_join_push(parts: Seq<Seq<char>>, sep: Seq<char>, last: Seq<char>)
    ensures
        join(parts.push(last), sep) == if parts.len() == 0 {
            last
        } else {
            join(parts, sep) + sep + last
        },
{
    assert(parts.push(last).drop_last() =~= parts);
}

/// Text without a separator goes to the last piece.
proof fn lemma_pieces_more(s: Seq<char>, t: Seq<char>, p: spec_fn(char) -> bool)
    requires
        forall|i: int| 0 <= i < t.len() ==> !p(#[trigger] t[i]),
    ensures
        pieces(s + t, p) == pieces(s, p).drop_last().push(pieces(s, p).last() + t),
    decreases t.len(),
{
    lemma_pieces_nonempty(s, p);
    let before = pieces(s, p);
    if t.len() == 0 {
        assert(s + t =~= s);
        assert(before.last() + t =~= before.last());
        assert(before.drop_last().push(before.last()) =~= before);
    } else {
        let rest = t.drop_last();
        lemma_pieces_more(s, rest, p);
        assert((s + t).drop_last() =~= s + rest);
        assert((s + t).last() == t.last());
        assert(!p(t[t.len() - 1]));
        let mid = pieces(s + rest, p);
        assert(mid.drop_last() =~= before.drop_last());
        assert((before.last() + rest).push(t.last()) =~= before.last() + t);
    }
}

/// What follows the last separator is the last piece.
pub proof fn lemma_last_part(s: Seq<char>, c: char, last: Seq<char>)
    requires
        !last.contains(c),
    ensures
        split_on(s + seq![c] + last, c).len() > 0,
        split_on(s + seq![c] + last, c).last() == last,
{
    let p = just(c);
    assert forall|i: int| 0 <= i < last.len() implies !p(#[trigger] last[i]) by {
        assert(last.contains(last[i]));
    }
    assert((s + seq![c]).drop_last() =~= s);
    lemma_pieces_more(s + seq![c], last, p);
    assert(Seq::<char>::empty() + last =~= last);
}

/// What stands before the first separator is the first piece.
pub proof fn lemma_first_part(first: Seq<char>, c: char, s: Seq<char>)
    requires
        !first.contains(c),
    ensures
        split_on(first + seq![c] + s, c).len() > 0,
        split_on(first + seq![c] + s, c)[0] == first,
    decreases s.len(),
{
    let p = just(c);
    let head = first + seq![c];
    let t = head + s;
    if s.len() == 0 {
        assert(t =~= head);
        let none = Seq::<char>::empty();
        assert forall|i: int| 0 <= i < first.len() implies !p(#[trigger] first[i]) by {
            assert(first.contains(first[i]));
        }
        lemma_pieces_more(none, first, p);
        assert(none + first =~= first);
        assert(pieces(none, p) =~= seq![none]);
        assert(head.drop_last() =~= first);
        assert(pieces(first, p)[0] =~= first);
    } else {
        lemma_first_part(first, c, s.drop_last());
        assert(t.drop_last() =~= head + s.drop_last());
        let before = pieces(t.drop_last(), p);
        assert(before.len() > 1) by {
            lemma_pieces_grow(head, s.drop_last(), p);
            assert(head.drop_last() =~= first);
            lemma_pieces_nonempty(first, p);
            assert(p(head.last()));
        }
    }
}

/// More text has no fewer pieces.
proof fn lemma_pieces_grow(s: Seq<char>, t: Seq<char>, p: spec_fn(char) -> bool)
    ensures
        pieces(s + t, p).len() >= pieces(s, p).len(),
    decreases t.len(),
{
    if t.len() == 0 {
        assert(s + t =~= s);
    } else {
        lemma_pieces_grow(s, t.drop_last(), p);
        assert((s + t).drop_last() =~= s + t.drop_last());
        lemma_pieces_nonempty(s, p);
    }
}

/// Parts without a separator that are joined by it are the pieces between its
/// occurrences.
pub proof fn joined_parts_split_again(parts: Seq<Seq<char>>, c: char)
    requires
        parts.len() > 0,
        forall|i: int| 0 <= i < parts.len() ==> !(#[trigger] parts[i]).contains(c),
    ensures
        split_on(join(parts, seq![c]), c) == parts,
    decreases parts.len(),
{
    let p = just(c);
    let last = parts.last();
    assert(!parts[parts.len() - 1].contains(c));
    assert forall|i: int| 0 <= i < last.len() implies !p(#[trigger] last[i]) by {
        assert(last.contains(last[i]));
    }
    if parts.len() == 1 {
        lemma_pieces_more(Seq::empty(), last, p);
        assert(Seq::<char>::empty() + last =~= last);
        assert(pieces(Seq::empty(), p) =~= seq![Seq::<char>::empty()]);
        assert(split_on(last, c) =~= parts);
    } else {
        let front = parts.drop_last();
        assert forall|i: int| 0 <= i < front.len() implies !(#[trigger] front[i]).contains(c) by {
            assert(front[i] == parts[i]);
        }
        joined_parts_split_again(front, c);
        let s = join(front, seq![c]);
        let t = s + seq![c];
        assert(t.drop_last() =~= s);
        assert(pieces(t, p) == parts.drop_last().push(Seq::empty()));
        lemma_pieces_more(t, last, p);
        assert(Seq::<char>::empty() + last =~= last);
        assert(parts.drop_last().push(Seq::empty()).drop_last() =~= front);
        assert(front.push(last) =~= parts);
    }
}

/// The strings one after another with `sep` between them.
pub fn join_all(parts: &Vec<String>, sep: &str) -> (r: String)
    ensures
        r@ == join(views(parts@), sep@),
{
    let mut r = String::new();
    let mut i: usize = 0;
    assert(views(parts@).take(0) =~= Seq::empty());
    while i < parts.len()
        invariant
            i <= parts.len(),
            r@ == join(views(parts@).take(i as int), sep@),
        decreases parts.len() - i,
    {
        proof {
            lemma_join_push(views(parts@).take(i as int), sep@, parts@[i as int]@);
            assert(views(parts@).take(i + 1) =~= views(parts@).take(i as int).push(
                parts@[i as int]@,
            ));
        }
        if i > 0 {
            r.append(sep);
        }
        r.append(parts[i].as_str());
        assert(i == 0 ==> r@ =~= parts@[0]@);
        i += 1;
    }
    assert(views(parts@).take(parts@.len() as int) =~= views(parts@));
    r
}

/// The strings one after another.
pub fn concat_all(parts: &Vec<String>) -> (r: String)
    ensures
        r@ == concat(views(parts@)),
{
    proof {
        reveal_strlit("");
        assert(""@ =~= Seq::empty());
    }
    join_all(parts, "")
}

/// `s` with every `p` replaced by `with`, found from the left without overlap.
pub open spec fn replaced(s: Seq<char>, p: Seq<char>, with: Seq<char>) -> Seq<char>
    decreases s.len(),
{
    if p.len() == 0 || s.len() < p.len() {
        s
    } else if occurs_at(s, p, 0) {
        with + replaced(s.skip(p.len() as int), p, with)
    } else {
        seq![s[0]] + replaced(s.skip(1), p, with)
    }
}

pub fn replace_all(s: &str, p: &str, with: &str) -> (r: String)
    ensures
        r@ == replaced(s@, p@, with@),
{
    let v = chars_of(s);
    let q = chars_of(p);
    if q.len() == 0 {
        return owned(s);
    }
    let mut r = String::new();
    let mut i: usize = 0;
    assert(s@.skip(0) =~= s@);
    while i < v.len()
        invariant
            i <= v.len(),
            v@ == s@,
            q@ == p@,
            q.len() > 0,
            replaced(s@, p@, with@) == r@ + replaced(s@.skip(i as int), p@, with@),
        decreases v.len() - i,
    {
        let ghost rest = s@.skip(i as int);
        let ghost held = r@;
        if occurs(&v, &q, i) {
            assert(rest.subrange(0, p@.len() as int) =~= s@.subrange(i as int, i + p@.len()));
            assert(occurs_at(rest, p@, 0));
            assert(rest.skip(p@.len() as int) =~= s@.skip(i + p@.len()));
            r.append(with);
            assert(held + (with@ + replaced(s@.skip(i + p@.len()), p@, with@)) =~= r@ + replaced(
                s@.skip(i + p@.len()),
                p@,
                with@,
            ));
            i += q.len();
        } else {
            assert(occurs_at(rest, p@, 0) ==> s@.subrange(i as int, i + p@.len())
                =~= rest.subrange(0, p@.len() as int));
            assert(rest.skip(1) =~= s@.skip(i + 1));
            r.push(v[i]);
            assert(rest.len() < p@.len() ==> replaced(s@.skip(i + 1), p@, with@) == s@.skip(i + 1));
            assert(held + (seq![rest[0]] + replaced(s@.skip(i + 1), p@, with@)) =~= r@ + replaced(
                s@.skip(i + 1),
                p@,
                with@,
            ));
            assert(rest =~= seq![rest[0]] + s@.skip(i + 1));
            i += 1;
        }
    }
    assert(s@.skip(s@.len() as int) =~= Seq::empty());
    assert(r@ =~= replaced(s@, p@, with@));
    r
}

/// `s` with its ASCII letters in lower case.
pub open spec fn lowered(s: Seq<char>) -> Seq<char> {
    s.map_values(|c: char| lower(c))
}

pub fn lower_all(s: &str) -> (r: String)
    ensures
        r@ == lowered(s@),
{
    let v = chars_of(s);
    let mut r = String::new();
    let mut i: usize = 0;
    while i < v.len()
        invariant
            i <= v.len(),
            r@ == lowered(v@.take(i as int)),
        decreases v.len() - i,
    {
        r.push(to_lower(v[i]));
        i += 1;
        assert(r@ =~= lowered(v@.take(i as int)));
    }
    assert(v@.take(v@.len() as int) =~= v@);
    r
}

// ---------------------------------------------------------------------------
// Quoting
// ---------------------------------------------------------------------------

/// The quoted, escaped form that `{:?}` gives a string.
pub uninterp spec fn debug_text(s: Seq<char>) -> Seq<char>;

/// Printable ASCII without quotation marks and backslashes.
pub open spec fn plain(s: Seq<char>) -> bool {
    forall|i: int|
        0 <= i < s.len() ==> ' ' <= #[trigger] s[i] <= '~' && s[i] != '"' && s[i] != '\\'
}

/// `<str as Debug>::fmt`: the string between quotation marks, with what needs
/// it escaped. Plain text comes through as it is.
#[verifier::external_body]
pub(crate) fn show_debug(s: &str) -> (r: String)
    ensures
        r@ == debug_text(s@),
        plain(s@) ==> r@ == seq!['"'] + s@ + seq!['"'],
{
    format!("{s:?}")
}

// ---------------------------------------------------------------------------
// What the operations leave
// ---------------------------------------------------------------------------

/// White space before a text, or behind it, is what trimming at that side
/// takes off, and nothing more.
pub proof fn trimming_takes_white_space_off(
    before: Seq<char>,
    s: Seq<char>,
    after: Seq<char>,
    blank: Seq<char>,
)
    requires
        s.len() > 0,
        !white(s[0]),
        !white(s.last()),
        forall|i: int| 0 <= i < before.len() ==> white(#[trigger] before[i]),
        forall|i: int| 0 <= i < after.len() ==> white(#[trigger] after[i]),
        forall|i: int| 0 <= i < blank.len() ==> white(#[trigger] blank[i]),
    ensures
        trimmed(before + s + after) == s,
        trimmed_start(before + s) == s,
        trimmed_end(s + after) == s,
        trimmed(blank).len() == 0,
{
    lemma_trim_around(before, s, after);
    let a = before + s;
    assert forall|k: int| 0 <= k < before.len() implies whites()(#[trigger] a[k]) by {
        assert(a[k] == before[k]);
    }
    lemma_strip_start(a, whites(), before.len() as int);
    assert(a.skip(before.len() as int) =~= s);
    let b = s + after;
    assert forall|k: int| s.len() <= k < b.len() implies whites()(#[trigger] b[k]) by {
        assert(b[k] == after[k - s.len()]);
    }
    assert(b[s.len() - 1] == s.last());
    lemma_strip_end(b, whites(), s.len() as int);
    assert(b.take(s.len() as int) =~= s);
    assert forall|k: int| 0 <= k < blank.len() implies whites()(#[trigger] blank[k]) by {}
    lemma_strip_start(blank, whites(), blank.len() as int);
    lemma_strip_end(blank.skip(blank.len() as int), whites(), 0);
}

/// The first of the strings that are the one looked for is found, and none
/// where there is none.
pub proof fn the_first_of_its_kind_is_found(v: Seq<Seq<char>>, s: Seq<char>, k: int)
    ensures
        0 <= k < v.len() && v[k] == s && (forall|j: int| 0 <= j < k ==> #[trigger] v[j] != s)
            ==> first_index(v, s, 0) == Some(k),
        !v.contains(s) ==> first_index(v, s, 0) is None,
{
    lemma_first_index(v, s, 0);
    if let Some(i) = first_index(v, s, 0) {
        assert(v.contains(v[i]));
    }
    if 0 <= k < v.len() && v[k] == s && (forall|j: int| 0 <= j < k ==> #[trigger] v[j] != s) {
        lemma_first_index_at(v, s, 0, k);
    }
}

pub proof fn lemma_first_index_at(v: Seq<Seq<char>>, s: Seq<char>, i: int, k: int)
    requires
        0 <= i <= k < v.len(),
        v[k] == s,
        forall|j: int| i <= j < k ==> #[trigger] v[j] != s,
    ensures
        first_index(v, s, i) == Some(k),
    decreases k - i,
{
    if i < k {
        lemma_first_index_at(v, s, i + 1, k);
    }
}

/// A text is cut in two at the first separator, and from behind at the last:
/// what stands before and behind it comes out, and the separator is gone.
pub proof fn texts_are_cut_at_their_separator(a: Seq<char>, c: char, b: Seq<char>)
    ensures
        !a.contains(c) ==> halves(a + seq![c] + b, seq![c]) == Some((a, b)),
        !b.contains(c) ==> rhalves(a + seq![c] + b, seq![c]) == Some((a, b)),
        !a.contains(c) ==> halves(a, seq![c]) is None && rhalves(a, seq![c]) is None,
{
    let p = seq![c];
    let s = a + p + b;
    let k = a.len() as int;
    assert(s.subrange(k, k + 1) =~= p);
    assert(occurs_at(s, p, k));
    assert(s.take(k) =~= a);
    assert(s.skip(k + 1) =~= b);
    if !a.contains(c) {
        assert forall|j: int| 0 <= j < k implies !#[trigger] occurs_at(s, p, j) by {
            if occurs_at(s, p, j) {
                assert(s.subrange(j, j + 1)[0] == s[j]);
                assert(a[j] == c);
                assert(a.contains(a[j]));
            }
        }
        lemma_found_from(s, p, 0, k);
        lemma_find_from(a, p, 0);
        lemma_rfind_upto(a, p, a.len() as int);
        assert forall|j: int| !#[trigger] occurs_at(a, p, j) by {
            if occurs_at(a, p, j) {
                assert(a.subrange(j, j + 1)[0] == a[j]);
                assert(a.contains(a[j]));
            }
        }
    }
    if !b.contains(c) {
        assert forall|j: int| k < j <= s.len() implies !#[trigger] occurs_at(s, p, j) by {
            if occurs_at(s, p, j) {
                assert(s.subrange(j, j + 1)[0] == s[j]);
                assert(b[j - k - 1] == c);
                assert(b.contains(b[j - k - 1]));
            }
        }
        lemma_rfound_upto(s, p, s.len() as int, k);
    }
}

pub proof fn lemma_found_from(s: Seq<char>, p: Seq<char>, i: int, k: int)
    requires
        0 <= i <= k,
        occurs_at(s, p, k),
        forall|j: int| i <= j < k ==> !#[trigger] occurs_at(s, p, j),
    ensures
        find_from(s, p, i) == Some(k),
    decreases k - i,
{
    if i < k {
        assert(!occurs_at(s, p, i));
        lemma_found_from(s, p, i + 1, k);
    }
}

pub proof fn lemma_rfound_upto(s: Seq<char>, p: Seq<char>, i: int, k: int)
    requires
        0 <= k <= i,
        occurs_at(s, p, k),
        forall|j: int| k < j <= i ==> !#[trigger] occurs_at(s, p, j),
    ensures
        rfind_upto(s, p, i) == Some(k),
    decreases i - k,
{
    if i > k {
        assert(!occurs_at(s, p, i));
        lemma_rfound_upto(s, p, i - 1, k);
    }
}

/// White space separates words: a word behind it is one more, and white space
/// at the end is none.
pub proof fn words_stand_between_white_space(s: Seq<char>, gap: char, word: Seq<char>)
    requires
        white(gap),
        word.len() > 0,
        forall|i: int| 0 <= i < word.len() ==> !white(#[trigger] word[i]),
    ensures
        words(word) == seq![word],
        words(Seq::empty()) == Seq::<Seq<char>>::empty(),
        words(s + seq![gap]) == words(s),
        words(s + seq![gap] + word) == words(s).push(word),
{
    let p = whites();
    let q = |w: Seq<char>| w.len() > 0;
    let none = Seq::<char>::empty();
    let t = s + seq![gap];
    assert(t.drop_last() =~= s);
    lemma_filter_push(pieces(s, p), none);
    assert(pieces(t, p) == pieces(s, p).push(none));
    lemma_pieces_more(t, word, p);
    assert(none + word =~= word);
    lemma_filter_push(pieces(s, p), word);
    assert(pieces(t + word, p) =~= pieces(s, p).push(word)) by {
        assert(pieces(t, p).drop_last() =~= pieces(s, p));
        assert(pieces(t, p).last() =~= none);
    }
    lemma_pieces_more(none, word, p);
    assert(pieces(none, p) =~= seq![none]);
    assert(seq![none].drop_last() =~= Seq::<Seq<char>>::empty());
    let empty = Seq::<Seq<char>>::empty();
    assert(none + word =~= word);
    assert(pieces(word, p) =~= empty.push(word));
    lemma_filter_push(empty, word);
    lemma_filter_push(empty, none);
    assert(empty.filter(q) == empty) by {
        reveal(Seq::filter);
    }
    assert(empty.push(none) =~= seq![none]);
    assert(empty.push(word) =~= seq![word]);
}

/// Lines that are joined by line feeds are the lines again, whether or not the
/// last is ended by one too; a carriage return before a line feed is part of
/// the ending.
pub proof fn lines_are_what_stands_between_feeds(ls: Seq<Seq<char>>)
    requires
        ls.len() > 0,
        forall|i: int|
            0 <= i < ls.len() ==> !(#[trigger] ls[i]).contains('\n') && !ls[i].contains('\r'),
    ensures
        ls.last().len() > 0 ==> lines_of(join(ls, seq!['\n'])) == ls,
        lines_of(join(ls.push(Seq::empty()), seq!['\n'])) == ls,
        lines_of(Seq::empty()) == Seq::<Seq<char>>::empty(),
        lines_of(ls[0] + seq!['\r', '\n']) == seq![ls[0]],
{
    let f = |l: Seq<char>| without_cr(l);
    joined_parts_split_again(ls, '\n');
    assert forall|i: int| 0 <= i < ls.len() implies without_cr(#[trigger] ls[i]) == ls[i] by {
        if ls[i].len() > 0 {
            assert(ls[i].contains(ls[i].last()));
        }
    }
    assert(ls.drop_last().map_values(f).push(ls.last()) =~= ls);
    let more = ls.push(Seq::empty());
    assert forall|i: int| 0 <= i < more.len() implies !(#[trigger] more[i]).contains('\n') by {
        if i < ls.len() {
            assert(more[i] == ls[i]);
        }
    }
    joined_parts_split_again(more, '\n');
    assert(more.drop_last() =~= ls);
    assert(ls.map_values(f) =~= ls);
    let none = Seq::<char>::empty();
    assert(pieces(none, just('\n')) =~= seq![none]);
    assert(lines_of(none) =~= Seq::<Seq<char>>::empty());
    let r = ls[0].push('\r');
    let two = seq![r, none];
    assert(!r.contains('\n')) by {
        if r.contains('\n') {
            let i = choose|i: int| 0 <= i < r.len() && r[i] == '\n';
            if i < ls[0].len() {
                assert(ls[0].contains(ls[0][i]));
            }
        }
    }
    assert forall|i: int| 0 <= i < two.len() implies !(#[trigger] two[i]).contains('\n') by {}
    joined_parts_split_again(two, '\n');
    lemma_join_push(seq![r], seq!['\n'], none);
    assert(seq![r].push(none) =~= two);
    assert(join(two, seq!['\n']) =~= ls[0] + seq!['\r', '\n']);
    assert(r.drop_last() =~= ls[0]);
    assert(two.drop_last() =~= seq![r]);
    assert(seq![r].map_values(f) =~= seq![ls[0]]);
}

/// In lower case every letter from `A` to `Z` is its small form, and every
/// other character is as it was.
pub proof fn capitals_become_small(s: Seq<char>, i: int)
    requires
        0 <= i < s.len(),
    ensures
        lowered(s).len() == s.len(),
        'A' <= s[i] <= 'Z' ==> 'a' <= lowered(s)[i] <= 'z' && lowered(s)[i] as int - 'a' as int
            == s[i] as int - 'A' as int,
        !('A' <= s[i] <= 'Z') ==> lowered(s)[i] == s[i],
{
}

/// A list is seen item by item, in its order.
pub proof fn texts_are_seen_one_by_one(v: Seq<String>, i: int)
    ensures
        views(v).len() == v.len(),
        0 <= i < v.len() ==> views(v)[i] == v[i]@,
{
}

/// Of the characters of ASCII, the blank and the controls from the tab to the
/// carriage return are white space, and no other.
pub proof fn blanks_and_breaks_are_white_space(c: char)
    requires
        c <= '~',
    ensures
        white(c) <==> c == ' ' || '\t' <= c <= '\r',
{
}

} // verus!
