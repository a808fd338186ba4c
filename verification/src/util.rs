//! Helpers: the outcome taxonomy, panic reports, paths and the tail of a
//! program's output.

use std::collections::hash_map::DefaultHasher;
use std::hash::Hasher;
use vstd::prelude::*;
use vstd::std_specs::hash::DefaultHasherAdditionalSpecFns;
use vstd::utf8::encode_utf8;
use crate::num::{
    hex_char, hex_text, int_text, int_text_reads_back, lemma_int_text, nat_value_upto, read_u64,
    show_hex,
};
use crate::text::{
    after_prefix, begins, chars_of, contains, digit, ends, has_text, join, join_all,
    joined_parts_split_again, lemma_first_part, lemma_last_part, lines, lines_of, occurs_at,
    opt_str, owned, rhalves, same, split_char, split_on, text_of, texts_are_cut_at_their_separator,
    trim_back, trimmed_end, views,
};

verus! {

// ---------------------------------------------------------------------------
// The outcome taxonomy
// ---------------------------------------------------------------------------

/// Cargo has no such target.
pub open spec fn target_error(e: Seq<char>) -> bool {
    ||| contains(e, "no test target"@)
    ||| contains(e, "no bin target"@)
    ||| contains(e, "no example target"@)
    ||| contains(e, "no bench target"@)
    ||| contains(e, "no integration test target"@)
    ||| contains(e, "no library targets"@)
    ||| contains(e, "built nothing debuggable"@)
}

/// The outcome that an error message stands for.
pub open spec fn error_status(e: Seq<char>) -> Seq<char> {
    if contains(e, "no debug session"@) {
        "no_session"@
    } else if contains(e, "timed out"@) || contains(e, "did not respond"@) || contains(
        e,
        "no stop/exit event"@,
    ) || contains(e, "still warming up"@) {
        "timeout"@
    } else if contains(e, "lldb"@) || contains(e, "adapter"@) || contains(e, "failed to launch"@)
        || contains(e, "launch did not complete"@) || contains(e, "relaunch failed"@) {
        "debug_adapter_error"@
    } else if target_error(e) {
        "target_error"@
    } else if contains(e, "could not compile"@) || contains(e, "error[E"@) || contains(
        e,
        "could not run cargo"@,
    ) {
        "build_error"@
    } else {
        "user_error"@
    }
}

/// The outcome that a failed build stands for.
pub open spec fn build_status(e: Seq<char>) -> Seq<char> {
    if target_error(e) {
        "target_error"@
    } else {
        "build_error"@
    }
}

/// Map an error message to the outcome taxonomy carried in every response's
/// `status` field. The full set of values is:
/// `ok | user_error | target_error | build_error | debug_adapter_error |
/// timeout | no_session | no_new_information`.
/// (`ok` is produced for successes, not by this function; `no_new_information`
/// is reserved for future use — nothing emits it yet.)
pub fn classify_error(e: &str) -> (r: &'static str)
    ensures
        r@ == error_status(e@),
{
    if has_text(e, "no debug session") {
        return "no_session";
    }
    if has_text(e, "timed out") || has_text(e, "did not respond") || has_text(
        e,
        "no stop/exit event",
    ) || has_text(e, "still warming up") {
        return "timeout";
    }
    if has_text(e, "lldb") || has_text(e, "adapter") || has_text(e, "failed to launch")
        || has_text(e, "launch did not complete") || has_text(e, "relaunch failed") {
        return "debug_adapter_error";
    }
    if is_target_error(e) {
        return "target_error";
    }
    if has_text(e, "could not compile") || has_text(e, "error[E") || has_text(
        e,
        "could not run cargo",
    ) {
        return "build_error";
    }
    "user_error"
}

/// Cargo told us the requested target does not exist (as opposed to failing
/// to compile it): `--bin`/`--test`/`--lib` naming nothing buildable.
pub fn is_target_error(e: &str) -> (r: bool)
    ensures
        r == target_error(e@),
{
    has_text(e, "no test target") || has_text(e, "no bin target") || has_text(
        e,
        "no example target",
    ) || has_text(e, "no bench target") || has_text(e, "no integration test target") || has_text(
        e,
        "no library targets",
    ) || has_text(e, "built nothing debuggable")
}

/// Classify a `cargo_build`/`build_target` failure: a missing/unknown target
/// is `target_error`; anything else (a compile failure, cargo itself failing
/// to run) is `build_error`.
pub fn classify_build_error(e: &str) -> (r: &'static str)
    ensures
        r@ == build_status(e@),
{
    if is_target_error(e) {
        "target_error"
    } else {
        "build_error"
    }
}

/// No error message is classified as a success, and none as the reserved
/// outcome.
pub proof fn errors_are_never_ok(e: Seq<char>)
    ensures
        error_status(e) != "ok"@,
        build_status(e) != "ok"@,
        error_status(e) != "no_new_information"@,
        build_status(e) != "no_new_information"@,
{
    reveal_strlit("ok");
    reveal_strlit("no_new_information");
    reveal_strlit("no_session");
    reveal_strlit("timeout");
    reveal_strlit("debug_adapter_error");
    reveal_strlit("target_error");
    reveal_strlit("build_error");
    reveal_strlit("user_error");
    assert("ok"@.len() == 2);
    assert("no_new_information"@.len() == 18);
}

/// The outcomes that a response can have.
pub open spec fn in_taxonomy(status: Seq<char>) -> bool {
    ||| status == "ok"@
    ||| status == "user_error"@
    ||| status == "target_error"@
    ||| status == "build_error"@
    ||| status == "debug_adapter_error"@
    ||| status == "timeout"@
    ||| status == "no_session"@
    ||| status == "no_new_information"@
}

/// Every error message is classified, as one of the outcomes.
pub proof fn errors_are_classified(e: Seq<char>)
    ensures
        in_taxonomy(error_status(e)),
        in_taxonomy(build_status(e)),
{
}

/// What counts as a build failure: a missing target is one whichever way the
/// message is classified, unless the message speaks of the session, a timeout
/// or the adapter.
pub proof fn target_errors_agree(e: Seq<char>)
    requires
        error_status(e) == "target_error"@,
    ensures
        build_status(e) == "target_error"@,
{
    reveal_strlit("no_session");
    reveal_strlit("timeout");
    reveal_strlit("debug_adapter_error");
    reveal_strlit("target_error");
    reveal_strlit("build_error");
    reveal_strlit("user_error");
}

// ---------------------------------------------------------------------------
// Panic reports
// ---------------------------------------------------------------------------

/// The first line at or after `i` that contains `p`.
pub open spec fn line_with(ls: Seq<Seq<char>>, p: Seq<char>, i: int) -> Option<int>
    decreases ls.len() - i,
{
    if i < 0 || i >= ls.len() {
        None
    } else if contains(ls[i], p) {
        Some(i)
    } else {
        line_with(ls, p, i + 1)
    }
}

/// A line that ends a panic report.
pub open spec fn ends_report(t: Seq<char>) -> bool {
    t.len() == 0 || "note: run with"@.is_prefix_of(t) || "stack backtrace:"@.is_prefix_of(t)
}

/// The lines of a panic report from line `i` on.
pub open spec fn report_lines(ls: Seq<Seq<char>>, i: int) -> Seq<Seq<char>>
    decreases ls.len() - i,
{
    if i < 0 || i >= ls.len() || ends_report(trimmed_end(ls[i])) {
        Seq::empty()
    } else {
        seq![trimmed_end(ls[i])] + report_lines(ls, i + 1)
    }
}

/// The panic report in a program's output.
pub open spec fn panic_message(output: Seq<char>) -> Option<Seq<char>> {
    let ls = lines_of(output);
    match line_with(ls, "panicked at"@, 0) {
        Some(i) => Some(
            join(seq![trimmed_end(ls[i])] + report_lines(ls, i + 1), seq!['\n']),
        ),
        None => None,
    }
}

/// Pull the panic report out of captured program output: the `panicked at ...`
/// line plus the message lines after it (assert_eq! reports span several),
/// stopping at the `note: run with RUST_BACKTRACE` hint, a backtrace, or a
/// blank line. `None` until the panic hook has actually printed.
pub fn extract_panic_message(output: &str) -> (r: Option<String>)
    ensures
        match r {
            Some(m) => panic_message(output@) == Some(m@),
            None => panic_message(output@) is None,
        },
{
    let ls = lines(output);
    let ghost texts = views(ls@);
    let mut start: usize = 0;
    while start < ls.len() && !has_text(ls[start].as_str(), "panicked at")
        invariant
            start <= ls.len(),
            texts == views(ls@),
            line_with(texts, "panicked at"@, 0) == line_with(texts, "panicked at"@, start as int),
        decreases ls.len() - start,
    {
        start += 1;
    }
    if start == ls.len() {
        return None;
    }
    let mut msg: Vec<String> = Vec::new();
    msg.push(trim_back(ls[start].as_str()));
    let mut i: usize = start + 1;
    let ghost whole = seq![trimmed_end(texts[start as int])] + report_lines(texts, start + 1);
    assert(views(msg@) =~= seq![trimmed_end(texts[start as int])]);
    while i < ls.len()
        invariant
            i <= ls.len(),
            texts == views(ls@),
            whole == views(msg@) + report_lines(texts, i as int),
        ensures
            whole == views(msg@),
        decreases ls.len() - i,
    {
        let t = trim_back(ls[i].as_str());
        if t.as_str().is_empty() || begins(t.as_str(), "note: run with") || begins(
            t.as_str(),
            "stack backtrace:",
        ) {
            assert(views(msg@) + Seq::<Seq<char>>::empty() =~= views(msg@));
            break;
        }
        let ghost before = views(msg@);
        let ghost line = t@;
        msg.push(t);
        assert(views(msg@) =~= before.push(line));
        assert(before + (seq![line] + report_lines(texts, i + 1)) =~= views(msg@) + report_lines(
            texts,
            i + 1,
        ));
        i += 1;
        assert(i == ls.len() ==> report_lines(texts, i as int) =~= Seq::empty());
        assert(views(msg@) + Seq::<Seq<char>>::empty() =~= views(msg@));
    }
    proof {
        reveal_strlit("\n");
        assert("\n"@ =~= seq!['\n']);
    }
    Some(join_all(&msg, "\n"))
}

// ---------------------------------------------------------------------------
// The tail of a text
// ---------------------------------------------------------------------------

/// The longest end of `s` that takes at most `n` bytes.
pub open spec fn tail_of(s: Seq<char>, n: int) -> Seq<char>
    decreases s.len(),
{
    if s.len() == 0 || encode_utf8(s).len() <= n {
        s
    } else {
        tail_of(s.drop_first(), n)
    }
}

fn width(c: char) -> (w: usize)
    ensures
        w == vstd::utf8::encode_scalar(c as u32).len(),
        1 <= w <= 4,
{
    let n: u32 = c as u32;
    proof {
        vstd::utf8::char_is_scalar(c);
    }
    if n <= 0x7f {
        1
    } else if n <= 0x7ff {
        2
    } else if n <= 0xffff {
        3
    } else {
        4
    }
}

proof fn lemma_longer(s: Seq<char>, i: int, k: int)
    requires
        0 <= k <= i <= s.len(),
    ensures
        encode_utf8(s.skip(k)).len() >= encode_utf8(s.skip(i)).len(),
    decreases i - k,
{
    if k < i {
        lemma_longer(s, i, k + 1);
        assert(s.skip(k).drop_first() =~= s.skip(k + 1));
    }
}

proof fn lemma_tail_of(s: Seq<char>, n: int, i: int)
    requires
        0 <= i <= s.len(),
        i == s.len() || encode_utf8(s.skip(i)).len() <= n,
        i > 0 ==> encode_utf8(s.skip(i - 1)).len() > n,
    ensures
        tail_of(s, n) == s.skip(i),
    decreases i,
{
    assert(s.skip(0) =~= s);
    if i > 0 {
        lemma_longer(s, i - 1, 0);
        let u = s.drop_first();
        assert(u.skip(i - 1) =~= s.skip(i));
        if i > 1 {
            assert(u.skip(i - 2) =~= s.skip(i - 1));
        }
        lemma_tail_of(u, n, i - 1);
    }
}

/// The tail of a text is an end of it that takes at most `n` bytes, and the
/// whole text where that does.
pub proof fn a_tail_is_an_end_that_fits(s: Seq<char>, n: int)
    requires
        n >= 0,
    ensures
        tail_of(s, n).is_suffix_of(s),
        encode_utf8(tail_of(s, n)).len() <= n,
        encode_utf8(s).len() <= n ==> tail_of(s, n) == s,
    decreases s.len(),
{
    if s.len() > 0 && encode_utf8(s).len() > n {
        let rest = s.drop_first();
        a_tail_is_an_end_that_fits(rest, n);
        let t = tail_of(rest, n);
        assert(t =~= s.subrange(s.len() - t.len(), s.len() as int)) by {
            assert(t =~= rest.subrange(rest.len() - t.len(), rest.len() as int));
        }
    } else {
        assert(s.subrange(0, s.len() as int) =~= s);
    }
}

/// The last `n` bytes of program output, snapped to a char boundary.
pub fn tail(s: &str, n: usize) -> (r: String)
    ensures
        r@ == tail_of(s@, n as int),
{
    let v = chars_of(s);
    let mut total: usize = 0;
    let mut i: usize = v.len();
    assert(s@.skip(s@.len() as int) =~= Seq::empty());
    while i > 0 && width(v[i - 1]) <= n - total
        invariant
            i <= v.len(),
            v@ == s@,
            total <= n,
            encode_utf8(s@.skip(i as int)).len() == total,
        decreases i,
    {
        assert(s@.skip(i - 1).drop_first() =~= s@.skip(i as int));
        total += width(v[i - 1]);
        i -= 1;
    }
    proof {
        if i > 0 {
            assert(s@.skip(i - 1).drop_first() =~= s@.skip(i as int));
        }
        lemma_tail_of(s@, n as int, i as int);
    }
    text_of(&v, i, v.len())
}

// ---------------------------------------------------------------------------
// Paths
// ---------------------------------------------------------------------------

/// A path that begins at the root.
pub open spec fn absolute(p: Seq<char>) -> bool {
    p.len() > 0 && p[0] == '/'
}

/// The path `p` seen from the directory `base`.
pub open spec fn joined(base: Seq<char>, p: Seq<char>) -> Seq<char> {
    if absolute(p) || base.len() == 0 {
        p
    } else if base.last() == '/' {
        base + p
    } else {
        base.push('/') + p
    }
}

/// The path of a file seen from a directory: an absolute path stays as it is.
pub fn join_path(base: &str, p: &str) -> (r: String)
    ensures
        r@ == joined(base@, p@),
{
    let b = chars_of(base);
    let q = chars_of(p);
    if (q.len() > 0 && q[0] == '/') || b.len() == 0 {
        return owned(p);
    }
    let mut r = owned(base);
    if b[b.len() - 1] != '/' {
        r.push('/');
    }
    r.append(p);
    r
}

/// The absolute form of a path, with the current directory given.
pub fn abs(path: &str, cwd: &str) -> (r: String)
    ensures
        r@ == joined(cwd@, path@),
{
    join_path(cwd, path)
}

/// The `file://` URI of a path seen from a directory.
pub open spec fn uri_of(path: Seq<char>, cwd: Seq<char>) -> Seq<char> {
    "file://"@ + joined(cwd, path)
}

/// The `file://` URI of a path, with the current directory given.
pub fn uri(path: &str, cwd: &str) -> (r: String)
    ensures
        r@ == uri_of(path@, cwd@),
{
    let mut r = owned("file://");
    let p = join_path(cwd, path);
    r.append(p.as_str());
    r
}

/// The last part of a path, looking back from part `i`: empty parts and `.`
/// are skipped, and `..` names no file.
pub open spec fn last_name(parts: Seq<Seq<char>>, i: int) -> Option<Seq<char>>
    decreases i + 1,
{
    if i < 0 || i >= parts.len() {
        None
    } else if parts[i].len() == 0 || parts[i] == "."@ {
        last_name(parts, i - 1)
    } else if parts[i] == ".."@ {
        None
    } else {
        Some(parts[i])
    }
}

/// The file name that ends a path.
pub open spec fn file_name_of(p: Seq<char>) -> Option<Seq<char>> {
    let parts = split_on(p, '/');
    last_name(parts, parts.len() - 1)
}

/// The file name that ends a path, if it ends in one.
pub fn file_name(p: &str) -> (r: Option<String>)
    ensures
        match r {
            Some(n) => file_name_of(p@) == Some(n@),
            None => file_name_of(p@) is None,
        },
{
    let parts = split_char(p, '/');
    let ghost texts = views(parts@);
    let mut i: usize = parts.len();
    while i > 0
        invariant
            i <= parts.len(),
            texts == views(parts@),
            file_name_of(p@) == last_name(texts, i - 1),
        decreases i,
    {
        let part = parts[i - 1].as_str();
        assert(texts[i - 1] == part@);
        if part.is_empty() || same(part, ".") {
            i -= 1;
        } else if same(part, "..") {
            return None;
        } else {
            return Some(owned(part));
        }
    }
    None
}

/// The file name that ends a path, or the path itself.
pub open spec fn file_label(p: Seq<char>) -> Seq<char> {
    match file_name_of(p) {
        Some(n) => n,
        None => p,
    }
}

pub fn show_file(p: &str) -> (r: String)
    ensures
        r@ == file_label(p@),
{
    match file_name(p) {
        Some(n) => n,
        None => owned(p),
    }
}

/// A path in its plain form: the root, or parts with one slash between them,
/// none of which is `.`, behind a slash where it is absolute.
pub open spec fn plain_path(p: Seq<char>) -> bool {
    ||| p == "/"@
    ||| {
        &&& p.len() > 0
        &&& p.last() != '/'
        &&& !contains(p, "//"@)
        &&& !contains("/"@ + p + "/"@, "/./"@)
    }
}

/// What `Path::strip_prefix` leaves of a path below a directory, as text,
/// where not both are in their plain form.
pub uninterp spec fn rough_below(path: Seq<char>, root: Seq<char>) -> Option<Seq<char>>;

/// What lies below a directory of a path, both in their plain form; `None`
/// where the path does not lie below it.
pub open spec fn plain_below(path: Seq<char>, root: Seq<char>) -> Option<Seq<char>> {
    if path == root {
        Some(Seq::empty())
    } else if root == "/"@ && absolute(path) {
        Some(path.skip(1))
    } else if (root + "/"@).is_prefix_of(path) {
        Some(path.skip(root.len() as int + 1))
    } else {
        None
    }
}

/// What lies below a directory of a path; `None` where the path does not lie
/// below it.
pub open spec fn path_below(path: Seq<char>, root: Seq<char>) -> Option<Seq<char>> {
    if plain_path(path) && plain_path(root) {
        plain_below(path, root)
    } else {
        rough_below(path, root)
    }
}

/// `Path::strip_prefix` on Unix: the rest of the path below `root`, compared
/// part by part, where the path lies below it. What it leaves as text where
/// one of the two is not in its plain form is not said here.
#[verifier::external_body]
fn strip_root(path: &str, root: &str) -> (r: Option<String>)
    ensures
        plain_path(path@) && plain_path(root@) ==> match r {
            Some(p) => plain_below(path@, root@) == Some(p@),
            None => plain_below(path@, root@) is None,
        },
        !(plain_path(path@) && plain_path(root@)) ==> match r {
            Some(p) => rough_below(path@, root@) == Some(p@),
            None => rough_below(path@, root@) is None,
        },
{
    std::path::Path::new(path).strip_prefix(root).ok().map(|p| p.to_string_lossy().to_string())
}

/// What `Path::parent` gives for a path that is not in its plain form, as
/// text.
pub uninterp spec fn rough_parent(path: Seq<char>) -> Option<Seq<char>>;

/// A path in its plain form without its last part; `None` for the root.
pub open spec fn plain_parent(path: Seq<char>) -> Option<Seq<char>> {
    if path == "/"@ {
        None
    } else {
        match rhalves(path, "/"@) {
            Some((dir, _)) => if dir.len() == 0 {
                Some("/"@)
            } else {
                Some(dir)
            },
            None => Some(Seq::empty()),
        }
    }
}

/// The path without its last part; `None` for the root and for the empty path.
pub open spec fn parent_path(path: Seq<char>) -> Option<Seq<char>> {
    if path.len() == 0 {
        None
    } else if plain_path(path) {
        plain_parent(path)
    } else {
        rough_parent(path)
    }
}

/// `Path::parent` on Unix: the path without its last part; `None` for the root
/// and for the empty path. What it leaves as text of a path that is not in its
/// plain form is not said here.
#[verifier::external_body]
pub(crate) fn parent_of(path: &str) -> (r: Option<String>)
    ensures
        path@.len() == 0 ==> r is None,
        plain_path(path@) ==> match r {
            Some(p) => plain_parent(path@) == Some(p@),
            None => plain_parent(path@) is None,
        },
        path@.len() > 0 && !plain_path(path@) ==> match r {
            Some(p) => rough_parent(path@) == Some(p@),
            None => rough_parent(path@) is None,
        },
{
    std::path::Path::new(path).parent().map(|p| p.to_string_lossy().to_string())
}

/// The directory to run a program in: the one that was asked for, seen from
/// `base`, or else the one that holds the program.
pub open spec fn run_dir(
    cwd: Option<Seq<char>>,
    parent: Option<Seq<char>>,
    base: Seq<char>,
) -> Seq<char> {
    match cwd {
        Some(c) => joined(base, c),
        None => match parent {
            Some(d) => d,
            None => ""@,
        },
    }
}

/// The directory to run a program in.
pub fn work_dir(cwd: Option<&str>, parent: Option<&str>, base: &str) -> (r: String)
    ensures
        r@ == run_dir(opt_str(cwd), opt_str(parent), base@),
{
    match cwd {
        Some(c) => join_path(base, c),
        None => match parent {
            Some(d) => owned(d),
            None => owned(""),
        },
    }
}

/// A URI without its scheme.
pub open spec fn uri_path(u: Seq<char>) -> Seq<char> {
    if "file://"@.is_prefix_of(u) {
        u.skip("file://"@.len() as int)
    } else {
        u
    }
}

/// How a path is shown, given what lies below the workspace root.
pub open spec fn shown_below(path: Seq<char>, below: Option<Seq<char>>) -> Seq<char> {
    match below {
        Some(p) => p,
        None => file_label(path),
    }
}

/// The file of a URI: its path below the workspace root, or else its name.
pub open spec fn rel_of(u: Seq<char>, root: Seq<char>) -> Seq<char> {
    shown_below(uri_path(u), path_below(uri_path(u), root))
}

/// The file of a URI: its path below the workspace root, or else its name.
pub fn rel_from_uri(u: &str, root: &str) -> (r: String)
    ensures
        r@ == rel_of(u@, root@),
{
    let path = match after_prefix(u, "file://") {
        Some(p) => p,
        None => owned(u),
    };
    let below = strip_root(path.as_str(), root);
    show_below(path.as_str(), below)
}

/// How a path is shown: as what lies below the workspace root, or else by
/// its file name, or else whole.
pub fn show_below(path: &str, below: Option<String>) -> (r: String)
    ensures
        r@ == shown_below(
            path@,
            match below {
                Some(p) => Some(p@),
                None => None,
            },
        ),
{
    match below {
        Some(p) => p,
        None => show_file(path),
    }
}

/// A path below a directory in its plain form is in its plain form.
proof fn lemma_plain_joined(root: Seq<char>, p: Seq<char>)
    requires
        plain_path(root),
        root != "/"@,
        plain_path(p),
        !absolute(p),
    ensures
        plain_path(root + "/"@ + p),
{
    reveal_strlit("/");
    reveal_strlit("//");
    reveal_strlit("/./");
    let s = root + "/"@ + p;
    let n = root.len() as int;
    if contains(s, "//"@) {
        let i = choose|i: int| occurs_at(s, "//"@, i);
        assert(s.subrange(i, i + 2)[0] == s[i] && s.subrange(i, i + 2)[1] == s[i + 1]);
        if i + 1 < n {
            assert(root.subrange(i, i + 2) =~= s.subrange(i, i + 2));
            assert(occurs_at(root, "//"@, i));
        } else if i > n {
            assert(p.subrange(i - n - 1, i - n + 1) =~= s.subrange(i, i + 2));
            assert(occurs_at(p, "//"@, i - n - 1));
        } else if i == n {
            assert(s[n + 1] == p[0]);
        } else {
            assert(s[n - 1] == root.last());
        }
    }
    let q = "/"@ + s + "/"@;
    let left = "/"@ + root + "/"@;
    let right = "/"@ + p + "/"@;
    if contains(q, "/./"@) {
        let i = choose|i: int| occurs_at(q, "/./"@, i);
        let found = q.subrange(i, i + 3);
        assert(found[1] == q[i + 1]);
        if i + 2 <= n + 1 {
            assert(left.subrange(i, i + 3) =~= found);
            assert(occurs_at(left, "/./"@, i));
        } else if i >= n + 1 {
            assert(right.subrange(i - n - 1, i - n + 2) =~= found);
            assert(occurs_at(right, "/./"@, i - n - 1));
        } else {
            assert(q[n + 1] == '/');
        }
    }
}

/// A path in its plain form to whose last part more is added is in its plain
/// form.
proof fn lemma_plain_longer(root: Seq<char>, more: Seq<char>)
    requires
        plain_path(root),
        root != "/"@,
        more.len() > 0,
        !more.contains('/'),
    ensures
        plain_path(root + more),
{
    reveal_strlit("/");
    reveal_strlit("//");
    reveal_strlit("/./");
    let s = root + more;
    let n = root.len() as int;
    assert forall|i: int| n <= i < s.len() implies #[trigger] s[i] != '/' by {
        assert(more[i - n] == s[i]);
    }
    if contains(s, "//"@) {
        let i = choose|i: int| occurs_at(s, "//"@, i);
        assert(s.subrange(i, i + 2)[0] == s[i] && s.subrange(i, i + 2)[1] == s[i + 1]);
        assert(root.subrange(i, i + 2) =~= s.subrange(i, i + 2));
        assert(occurs_at(root, "//"@, i));
    }
    let q = "/"@ + s + "/"@;
    let left = "/"@ + root + "/"@;
    if contains(q, "/./"@) {
        let i = choose|i: int| occurs_at(q, "/./"@, i);
        let found = q.subrange(i, i + 3);
        assert(found[0] == q[i] && found[2] == q[i + 2]);
        if i + 2 <= n {
            assert(left.subrange(i, i + 3) =~= found);
            assert(occurs_at(left, "/./"@, i));
        } else {
            assert(i + 2 > s.len() || q[i + 2] == s[i + 1]);
            assert(i == n ==> q[i] == root.last());
            assert(i > n ==> q[i] == s[i - 1]);
        }
    }
}

/// The URI of an absolute path leads to it.
proof fn lemma_uri(s: Seq<char>, cwd: Seq<char>)
    requires
        absolute(s),
    ensures
        uri_path(uri_of(s, cwd)) == s,
{
    reveal_strlit("file://");
    assert(uri_of(s, cwd).skip(7) =~= s);
    assert("file://"@.is_prefix_of(uri_of(s, cwd)));
}

/// The URI of a file below the workspace root is shown as the path below it,
/// wherever it was made.
pub proof fn uris_lead_back(root: Seq<char>, p: Seq<char>, cwd: Seq<char>)
    requires
        plain_path(root),
        absolute(root),
        root != "/"@,
        plain_path(p),
        !absolute(p),
    ensures
        rel_of(uri_of(root + "/"@ + p, cwd), root) == p,
{
    reveal_strlit("/");
    let s = root + "/"@ + p;
    lemma_plain_joined(root, p);
    lemma_uri(s, cwd);
    assert((root + "/"@).is_prefix_of(s));
    assert(s != root) by {
        assert(s.len() > root.len());
    }
    assert(s.skip(root.len() as int + 1) =~= p);
}

/// A directory whose name only begins as the workspace root's does is not
/// taken to lie below it: a file in it is shown by its name.
pub proof fn siblings_do_not_lie_below(
    root: Seq<char>,
    more: Seq<char>,
    name: Seq<char>,
    cwd: Seq<char>,
)
    requires
        plain_path(root),
        absolute(root),
        root != "/"@,
        more.len() > 0,
        !more.contains('/'),
        plain_path(name),
        !name.contains('/'),
        name != ".."@,
    ensures
        rel_of(uri_of(root + more + "/"@ + name, cwd), root) == name,
{
    reveal_strlit("/");
    reveal_strlit(".");
    let t = root + more + "/"@ + name;
    assert(!absolute(name)) by {
        if absolute(name) {
            assert(name.contains(name[0]));
        }
    }
    lemma_plain_longer(root, more);
    assert((root + more).len() > 1);
    lemma_plain_joined(root + more, name);
    lemma_uri(t, cwd);
    assert(t.len() > root.len());
    assert(!(root + "/"@).is_prefix_of(t)) by {
        if (root + "/"@).is_prefix_of(t) {
            let n = root.len() as int;
            assert((root + "/"@)[n] == t[n]);
            assert(t[n] == more[0]);
            assert(more.contains(more[0]));
        }
    }
    lemma_last_part(root + more, '/', name);
    assert(t =~= root + more + seq!['/'] + name);
    let parts = split_on(t, '/');
    assert(name != "."@) by {
        if name == "."@ {
            reveal_strlit("/./");
            assert(occurs_at("/"@ + name + "/"@, "/./"@, 0)) by {
                assert(("/"@ + name + "/"@).subrange(0, 3) =~= "/./"@);
            }
        }
    }
    assert(last_name(parts, parts.len() - 1) == Some(name));
}

// ---------------------------------------------------------------------------
// Places
// ---------------------------------------------------------------------------

/// What hashing a string writes into the hasher, one run of bytes per write.
pub uninterp spec fn hashed_bytes(s: Seq<char>) -> Seq<Seq<u8>>;

/// `str::hash` into a `DefaultHasher`: what it writes goes behind what the
/// hasher was given before, and depends on the string alone. Which bytes these
/// are depends on the release of the standard library, and is not said here.
#[verifier::external_body]
fn hash_into(s: &str, h: &mut DefaultHasher)
    ensures
        final(h)@ == old(h)@ + hashed_bytes(s@),
{
    std::hash::Hash::hash(s, h);
}

/// The number that a new `DefaultHasher` gives a string.
pub open spec fn name_hash(s: Seq<char>) -> u64 {
    DefaultHasher::spec_finish(hashed_bytes(s))
}

/// The socket with the given number.
pub open spec fn socket_of(h: u64) -> Seq<char> {
    "/tmp/rdbg-"@ + hex_text(h as int, 16) + ".sock"@
}

/// The socket with the given number. Short: AF_UNIX paths hold about 104 bytes.
pub fn numbered_socket(h: u64) -> (r: String)
    ensures
        r@ == socket_of(h),
{
    let mut r = owned("/tmp/rdbg-");
    let x = show_hex(h);
    r.append(x.as_str());
    r.append(".sock");
    r
}

/// The socket of a workspace's daemon.
pub fn socket_path(ws: &str) -> (r: String)
    ensures
        r@ == socket_of(name_hash(ws@)),
{
    let mut h = DefaultHasher::new();
    hash_into(ws, &mut h);
    assert(h@ =~= hashed_bytes(ws@));
    numbered_socket(h.finish())
}

/// The directory that holds a workspace's debugger state.
pub fn state_dir(ws: &str) -> (r: String)
    ensures
        r@ == joined(ws@, ".rdbg"@),
{
    join_path(ws, ".rdbg")
}

// ---------------------------------------------------------------------------
// Adapter versions
// ---------------------------------------------------------------------------

/// The version that a version-suffixed adapter name carries: the number up to
/// the first dot, zero where there is none.
pub open spec fn suffix_version(name: Seq<char>, prefix: Seq<char>) -> Option<int> {
    if prefix.is_prefix_of(name) {
        let head = split_on(name.skip(prefix.len() as int), '.')[0];
        match nat_value_upto(head, u32::MAX as int) {
            Some(n) => Some(n),
            None => Some(0),
        }
    } else {
        None
    }
}

pub open spec fn adapter_version_of(name: Seq<char>) -> Option<int> {
    match suffix_version(name, "lldb-dap-"@) {
        Some(n) => Some(n),
        None => suffix_version(name, "lldb-vscode-"@),
    }
}

fn read_suffix(name: &str, prefix: &str) -> (r: Option<u32>)
    ensures
        match r {
            Some(n) => suffix_version(name@, prefix@) == Some(n as int),
            None => suffix_version(name@, prefix@) is None,
        },
{
    match after_prefix(name, prefix) {
        Some(rest) => {
            let parts = split_char(rest.as_str(), '.');
            assert(views(parts@)[0] == parts@[0]@);
            match read_u64(parts[0].as_str()) {
                Some(n) => if n <= 0xffff_ffff {
                    Some(n as u32)
                } else {
                    Some(0)
                },
                None => Some(0),
            }
        },
        None => None,
    }
}

/// The version in a file name such as `lldb-dap-18` or `lldb-vscode-14.0`;
/// `None` for a file that is no adapter.
pub fn adapter_version(name: &str) -> (r: Option<u32>)
    ensures
        match r {
            Some(n) => adapter_version_of(name@) == Some(n as int),
            None => adapter_version_of(name@) is None,
        },
{
    match read_suffix(name, "lldb-dap-") {
        Some(n) => Some(n),
        None => read_suffix(name, "lldb-vscode-"),
    }
}

/// The first of the highest versions up to position `n`.
pub open spec fn newest(names: Seq<Seq<char>>, n: int) -> Option<int>
    decreases n,
{
    if n <= 0 || n > names.len() {
        None
    } else {
        let before = newest(names, n - 1);
        match adapter_version_of(names[n - 1]) {
            Some(v) => match before {
                Some(k) => if v > adapter_version_of(names[k])->0 {
                    Some(n - 1)
                } else {
                    before
                },
                None => Some(n - 1),
            },
            None => before,
        }
    }
}

/// Which of the files on the search path is the newest version-suffixed
/// adapter; the first found stays where two have one version.
pub fn newest_adapter(names: &Vec<String>) -> (r: Option<usize>)
    ensures
        match r {
            Some(i) => i < names.len() && newest(views(names@), names.len() as int) == Some(
                i as int,
            ),
            None => newest(views(names@), names.len() as int) is None,
        },
{
    let mut best: Option<(usize, u32)> = None;
    let mut i: usize = 0;
    while i < names.len()
        invariant
            i <= names.len(),
            match best {
                Some((k, v)) => k < i && newest(views(names@), i as int) == Some(k as int)
                    && adapter_version_of(views(names@)[k as int]) == Some(v as int),
                None => newest(views(names@), i as int) is None,
            },
        decreases names.len() - i,
    {
        match adapter_version(names[i].as_str()) {
            Some(v) => {
                let better = match best {
                    Some((_, b)) => v > b,
                    None => true,
                };
                if better {
                    best = Some((i, v));
                }
            },
            None => {},
        }
        i += 1;
    }
    match best {
        Some((k, _)) => Some(k),
        None => None,
    }
}

proof fn lemma_newest(names: Seq<Seq<char>>, n: int)
    requires
        0 <= n <= names.len(),
    ensures
        match newest(names, n) {
            Some(k) => 0 <= k < n && adapter_version_of(names[k]) is Some && forall|i: int|
                0 <= i < n ==> (adapter_version_of(#[trigger] names[i]) matches Some(v) ==> v
                    <= adapter_version_of(names[k])->0),
            None => forall|i: int| 0 <= i < n ==> adapter_version_of(#[trigger] names[i]) is None,
        },
    decreases n,
{
    if n > 0 {
        lemma_newest(names, n - 1);
    }
}

/// The chosen adapter is one, and no other has a higher version.
pub proof fn newest_adapter_is_highest(names: Seq<Seq<char>>)
    ensures
        match newest(names, names.len() as int) {
            Some(k) => 0 <= k < names.len() && adapter_version_of(names[k]) is Some && forall|
                i: int,
            |
                0 <= i < names.len() ==> (adapter_version_of(#[trigger] names[i]) matches Some(v)
                    ==> v <= adapter_version_of(names[k])->0),
            None => forall|i: int|
                0 <= i < names.len() ==> adapter_version_of(#[trigger] names[i]) is None,
        },
{
    lemma_newest(names, names.len() as int);
}

// ---------------------------------------------------------------------------
// What messages, paths and names are taken for
// ---------------------------------------------------------------------------

/// A message that speaks of a missing session, of a wait that ended, of the
/// adapter, of a missing target or of a failed build is classified as that, in
/// this order; any other is the user's.
pub proof fn messages_are_classified_by_what_they_say(e: Seq<char>)
    ensures
        ({
            let session = contains(e, "no debug session"@);
            let time = contains(e, "timed out"@) || contains(e, "did not respond"@) || contains(
                e,
                "no stop/exit event"@,
            ) || contains(e, "still warming up"@);
            let adapter = contains(e, "lldb"@) || contains(e, "adapter"@) || contains(
                e,
                "failed to launch"@,
            ) || contains(e, "launch did not complete"@) || contains(e, "relaunch failed"@);
            let target = contains(e, "no test target"@) || contains(e, "no bin target"@)
                || contains(e, "no example target"@) || contains(e, "no bench target"@) || contains(
                e,
                "no integration test target"@,
            ) || contains(e, "no library targets"@) || contains(e, "built nothing debuggable"@);
            let build = contains(e, "could not compile"@) || contains(e, "error[E"@) || contains(
                e,
                "could not run cargo"@,
            );
            &&& session <==> error_status(e) == "no_session"@
            &&& !session && time <==> error_status(e) == "timeout"@
            &&& !session && !time && adapter <==> error_status(e) == "debug_adapter_error"@
            &&& !session && !time && !adapter && target <==> error_status(e) == "target_error"@
            &&& !session && !time && !adapter && !target && build <==> error_status(e)
                == "build_error"@
            &&& target <==> build_status(e) == "target_error"@
            &&& !target <==> build_status(e) == "build_error"@
        }),
{
    reveal_strlit("no_session");
    reveal_strlit("timeout");
    reveal_strlit("debug_adapter_error");
    reveal_strlit("target_error");
    reveal_strlit("build_error");
    reveal_strlit("user_error");
    assert("no_session"@.len() == 10 && "timeout"@.len() == 7 && "debug_adapter_error"@.len() == 19
        && "target_error"@.len() == 12 && "build_error"@.len() == 11 && "user_error"@.len() == 10);
    assert("no_session"@[0] == 'n' && "user_error"@[0] == 'u');
}

proof fn lemma_line_with(ls: Seq<Seq<char>>, p: Seq<char>, i: int)
    requires
        0 <= i <= ls.len(),
    ensures
        match line_with(ls, p, i) {
            Some(k) => i <= k < ls.len() && contains(ls[k], p) && forall|j: int|
                i <= j < k ==> !contains(#[trigger] ls[j], p),
            None => forall|j: int| i <= j < ls.len() ==> !contains(#[trigger] ls[j], p),
        },
    decreases ls.len() - i,
{
    if i < ls.len() && !contains(ls[i], p) {
        lemma_line_with(ls, p, i + 1);
    }
}

proof fn lemma_report_lines(ls: Seq<Seq<char>>, i: int)
    requires
        0 <= i <= ls.len(),
    ensures
        ({
            let n = report_lines(ls, i).len() as int;
            &&& i + n <= ls.len()
            &&& forall|j: int|
                i <= j < i + n ==> report_lines(ls, i)[j - i] == trimmed_end(#[trigger] ls[j])
                    && !ends_report(trimmed_end(ls[j]))
            &&& i + n < ls.len() ==> ends_report(trimmed_end(ls[i + n]))
        }),
    decreases ls.len() - i,
{
    if i < ls.len() && !ends_report(trimmed_end(ls[i])) {
        lemma_report_lines(ls, i + 1);
        let rest = report_lines(ls, i + 1);
        let all = report_lines(ls, i);
        let n = all.len() as int;
        assert forall|j: int| i <= j < i + n implies all[j - i] == trimmed_end(#[trigger] ls[j])
            && !ends_report(trimmed_end(ls[j])) by {
            if j > i {
                assert(all[j - i] == rest[j - (i + 1)]);
            }
        }
        assert(i + n == (i + 1) + rest.len());
    }
}

/// The report of a panic is what the program printed from the first line that
/// says so on: every line up to, and without, the first that is blank, that
/// tells how to get a backtrace, or that begins one. There is a report exactly
/// where a line says that the program panicked.
pub proof fn a_panic_is_reported_whole(output: Seq<char>)
    ensures
        match panic_message(output) {
            Some(t) => exists|i: int, rows: Seq<Seq<char>>|
                #![trigger lines_of(output)[i], join(rows, "\n"@)]
                {
                    let ls = lines_of(output);
                    let n = rows.len() as int;
                    &&& t == join(rows, "\n"@)
                    &&& 0 <= i && 1 <= n && i + n <= ls.len()
                    &&& contains(lines_of(output)[i], "panicked at"@)
                    &&& forall|j: int| 0 <= j < i ==> !contains(#[trigger] ls[j], "panicked at"@)
                    &&& forall|j: int|
                        i <= j < i + n ==> rows[j - i] == trimmed_end(#[trigger] ls[j])
                    &&& forall|j: int|
                        i < j < i + n ==> trimmed_end(#[trigger] ls[j]).len() > 0
                            && !"note: run with"@.is_prefix_of(trimmed_end(ls[j]))
                            && !"stack backtrace:"@.is_prefix_of(trimmed_end(ls[j]))
                    &&& i + n < ls.len() ==> trimmed_end(ls[i + n]).len() == 0
                        || "note: run with"@.is_prefix_of(trimmed_end(ls[i + n]))
                        || "stack backtrace:"@.is_prefix_of(trimmed_end(ls[i + n]))
                },
            None => forall|j: int|
                0 <= j < lines_of(output).len() ==> !contains(
                    #[trigger] lines_of(output)[j],
                    "panicked at"@,
                ),
        },
{
    let ls = lines_of(output);
    lemma_line_with(ls, "panicked at"@, 0);
    if let Some(i) = line_with(ls, "panicked at"@, 0) {
        lemma_report_lines(ls, i + 1);
        let rest = report_lines(ls, i + 1);
        let rows = seq![trimmed_end(ls[i])] + rest;
        assert forall|j: int| i <= j < i + rows.len() implies rows[j - i] == trimmed_end(
            #[trigger] ls[j],
        ) by {
            if j > i {
                assert(rows[j - i] == rest[j - (i + 1)]);
            }
        }
        reveal_strlit("\n");
        assert("\n"@ =~= seq!['\n']);
        assert(contains(lines_of(output)[i], "panicked at"@));
        assert(panic_message(output) == Some(join(rows, "\n"@)));
        assert(i + rows.len() == (i + 1) + rest.len());
    }
}

/// No longer end of a text than its tail takes at most `n` bytes.
pub proof fn a_tail_is_the_longest_end_that_fits(s: Seq<char>, n: int, k: int)
    requires
        0 <= k <= s.len(),
        n >= 0,
        encode_utf8(s.skip(k)).len() <= n,
    ensures
        tail_of(s, n).len() >= s.len() - k,
    decreases s.len(),
{
    assert(s.skip(0) =~= s);
    if s.len() > 0 && encode_utf8(s).len() > n {
        assert(k > 0);
        assert(s.drop_first().skip(k - 1) =~= s.skip(k));
        a_tail_is_the_longest_end_that_fits(s.drop_first(), n, k - 1);
    }
}

/// An absolute path is the same from everywhere; any other lies in the
/// directory that it is seen from.
pub proof fn paths_are_seen_from_a_directory(base: Seq<char>, p: Seq<char>)
    requires
        base.len() > 0,
    ensures
        p.len() > 0 && p[0] == '/' ==> joined(base, p) == p,
        (p.len() == 0 || p[0] != '/') && base.last() != '/' ==> joined(base, p) == base + "/"@ + p,
        (p.len() == 0 || p[0] != '/') && base.last() == '/' ==> joined(base, p) == base + p,
        uri_path(uri_of(p, base)) == joined(base, p),
{
    reveal_strlit("/");
    assert(base.push('/') + p =~= base + "/"@ + p);
    let u = uri_of(p, base);
    assert("file://"@.is_prefix_of(u)) by {
        assert(u.take("file://"@.len() as int) =~= "file://"@);
    }
    assert(u.skip("file://"@.len() as int) =~= joined(base, p));
}

/// The name of a file is what stands behind the last slash of its path, and
/// where nothing stands there, behind the one before.
pub proof fn a_file_is_named_by_the_end_of_its_path(dir: Seq<char>, name: Seq<char>)
    requires
        name.len() > 0,
        !name.contains('/'),
        name != "."@,
        name != ".."@,
    ensures
        file_name_of(dir + seq!['/'] + name) == Some(name),
        file_name_of(name) == Some(name),
        file_label(dir + seq!['/'] + name) == name,
{
    lemma_last_part(dir, '/', name);
    joined_parts_split_again(seq![name], '/');
    assert(join(seq![name], seq!['/']) == name);
}

proof fn lemma_hex_differs(a: int, b: int, w: nat)
    requires
        0 <= a < b,
        b < pow16(w),
    ensures
        hex_text(a, w) != hex_text(b, w),
        hex_text(a, w).len() == w,
        hex_text(b, w).len() == w,
    decreases w,
{
    if w > 0 {
        let v = (w - 1) as nat;
        assert(b / 16 < pow16(v)) by (nonlinear_arith)
            requires
                b < 16 * pow16(v),
                pow16(w) == 16 * pow16(v),
                b >= 0,
        ;
        let x = hex_text(a, w);
        let y = hex_text(b, w);
        if a / 16 == b / 16 {
            assert(a % 16 != b % 16);
            lemma_hex_len(a / 16, v);
            assert(x[v as int] == hex_char(a % 16) && y[v as int] == hex_char(b % 16));
        } else {
            lemma_hex_differs(a / 16, b / 16, v);
            assert(x.drop_last() =~= hex_text(a / 16, v));
            assert(y.drop_last() =~= hex_text(b / 16, v));
        }
    }
}

proof fn lemma_hex_len(n: int, w: nat)
    ensures
        hex_text(n, w).len() == w,
    decreases w,
{
    if w > 0 {
        lemma_hex_len(n / 16, (w - 1) as nat);
    }
}

spec fn pow16(n: nat) -> int
    decreases n,
{
    if n == 0 {
        1
    } else {
        16 * pow16((n - 1) as nat)
    }
}

/// Two numbers have two sockets, and the path of a socket is short enough for
/// one.
pub proof fn sockets_differ(a: u64, b: u64)
    ensures
        a != b ==> socket_of(a) != socket_of(b),
        socket_of(a).len() == 31,
{
    reveal_strlit("/tmp/rdbg-");
    reveal_strlit(".sock");
    assert(pow16(16) == 0x1_0000_0000_0000_0000) by {
        reveal_with_fuel(pow16, 17);
    }
    lemma_hex_len(a as int, 16);
    lemma_hex_len(b as int, 16);
    if a < b {
        lemma_hex_differs(a as int, b as int, 16);
    } else if b < a {
        lemma_hex_differs(b as int, a as int, 16);
    }
    let x = hex_text(a as int, 16);
    let y = hex_text(b as int, 16);
    assert(socket_of(a).subrange(10, 26) =~= x);
    assert(socket_of(b).subrange(10, 26) =~= y);
}

/// An adapter with a version in its name has that version, up to the first
/// point; a name that begins as no adapter's has none.
pub proof fn versions_are_read_from_names(n: int, more: Seq<char>, name: Seq<char>)
    requires
        0 <= n <= u32::MAX,
    ensures
        adapter_version_of("lldb-dap-"@ + int_text(n)) == Some(n),
        adapter_version_of("lldb-dap-"@ + (int_text(n) + seq!['.'] + more)) == Some(n),
        adapter_version_of("lldb-vscode-"@ + int_text(n)) == Some(n),
        !"lldb-dap-"@.is_prefix_of(name) && !"lldb-vscode-"@.is_prefix_of(name)
            ==> adapter_version_of(name) is None,
{
    lemma_version("lldb-dap-"@, n, more);
    lemma_version("lldb-vscode-"@, n, more);
    reveal_strlit("lldb-dap-");
    reveal_strlit("lldb-vscode-");
    let v = "lldb-vscode-"@ + int_text(n);
    assert(!"lldb-dap-"@.is_prefix_of(v)) by {
        if "lldb-dap-"@.is_prefix_of(v) {
            assert(v[5] == "lldb-dap-"@[5]);
            assert(v[5] == "lldb-vscode-"@[5]);
        }
    }
}

proof fn lemma_version(prefix: Seq<char>, n: int, more: Seq<char>)
    requires
        0 <= n <= u32::MAX,
    ensures
        suffix_version(prefix + int_text(n), prefix) == Some(n),
        suffix_version(prefix + (int_text(n) + seq!['.'] + more), prefix) == Some(n),
{
    let t = int_text(n);
    let a = prefix + t;
    let b = prefix + (t + seq!['.'] + more);
    lemma_int_text(n);
    int_text_reads_back(n);
    assert(a.take(prefix.len() as int) =~= prefix);
    assert(b.take(prefix.len() as int) =~= prefix);
    assert(a.skip(prefix.len() as int) =~= t);
    assert(b.skip(prefix.len() as int) =~= t + seq!['.'] + more);
    assert(!t.contains('.')) by {
        if t.contains('.') {
            let i = choose|i: int| 0 <= i < t.len() && t[i] == '.';
            assert(digit(t[i]) || t[i] == '-');
        }
    }
    joined_parts_split_again(seq![t], '.');
    assert(join(seq![t], seq!['.']) == t);
    lemma_first_part(t, '.', more);
}

/// Of two adapters with one version the first that was found is chosen.
pub proof fn the_first_of_the_newest_is_chosen(names: Seq<Seq<char>>, n: int)
    requires
        0 <= n <= names.len(),
    ensures
        newest(names, n) matches Some(k) ==> forall|i: int|
            0 <= i < k ==> (adapter_version_of(#[trigger] names[i]) matches Some(v) ==> v
                < adapter_version_of(names[k])->0),
    decreases n,
{
    if n > 0 {
        the_first_of_the_newest_is_chosen(names, n - 1);
        lemma_newest(names, n - 1);
    }
}

/// The directory that holds a file is what stands before the last slash of its
/// path, the root where nothing does; the root is in none.
pub proof fn a_file_is_in_the_directory_before_its_name(dir: Seq<char>, name: Seq<char>)
    requires
        !name.contains('/'),
    ensures
        plain_path(dir + seq!['/'] + name) && name.len() > 0 ==> {
            &&& dir.len() > 0 ==> parent_path(dir + seq!['/'] + name) == Some(dir)
            &&& dir.len() == 0 ==> parent_path(dir + seq!['/'] + name) == Some("/"@)
        },
        parent_path("/"@) is None,
        parent_path(Seq::empty()) is None,
{
    reveal_strlit("/");
    assert("/"@ =~= seq!['/']);
    let p = dir + seq!['/'] + name;
    texts_are_cut_at_their_separator(dir, '/', name);
    if name.len() > 0 {
        assert(p.len() >= 2);
    }
}

} // verus!
