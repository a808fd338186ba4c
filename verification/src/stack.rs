//! Stack frames and stops, and which frame is the user's own.

use vstd::prelude::*;
use crate::json::{Doc, Json};
use crate::render::{short_fn, short_fn_of};
use crate::text::{
    begins, contains, either, has_text, lemma_strip_start, occurs_at, owned, same, strip_front_of,
    strip_start, what_is_held_stands_between,
};

verus! {

// ---------------------------------------------------------------------------
// Frames
// ---------------------------------------------------------------------------

/// What a frame is.
pub ghost struct FrameModel {
    pub id: int,
    pub name: Seq<char>,
    pub file: Seq<char>,
    pub line: int,
    pub path: Seq<char>,
}

pub struct Frame {
    pub id: i64,
    pub name: String,
    pub file: String,
    pub line: i64,
    pub path: String,
}

impl View for Frame {
    type V = FrameModel;

    open spec fn view(&self) -> FrameModel {
        FrameModel {
            id: self.id as int,
            name: self.name@,
            file: self.file@,
            line: self.line as int,
            path: self.path@,
        }
    }
}

/// The frames that a list of them holds.
pub open spec fn frames_in(v: Seq<Frame>) -> Seq<FrameModel> {
    Seq::new(v.len(), |i: int| v[i]@)
}

impl Frame {
    pub fn copy(&self) -> (r: Frame)
        ensures
            r@ == self@,
    {
        Frame {
            id: self.id,
            name: owned(self.name.as_str()),
            file: owned(self.file.as_str()),
            line: self.line,
            path: owned(self.path.as_str()),
        }
    }
}

/// A frame as the adapter reports it.
pub open spec fn frame_from(d: Doc) -> FrameModel {
    FrameModel {
        id: d.at("id"@).int_or(0),
        name: short_fn_of(d.at("name"@).text_or(""@)),
        file: d.at("source"@).at("name"@).text_or("?"@),
        line: d.at("line"@).int_or(0),
        path: d.at("source"@).at("path"@).text_or(""@),
    }
}

/// The frames in the reply to a `stackTrace` request.
pub open spec fn frames_from(reply: Doc) -> Seq<FrameModel> {
    let a = reply.at("body"@).at("stackFrames"@).items();
    Seq::new(a.len(), |i: int| frame_from(a[i]))
}

/// The frames in the reply to a `stackTrace` request.
pub fn frames(reply: &Json) -> (r: Vec<Frame>)
    ensures
        frames_in(r@) == frames_from(reply@),
{
    let mut out: Vec<Frame> = Vec::new();
    match reply.at("body").at("stackFrames").as_array() {
        Some(a) => {
            let mut i: usize = 0;
            while i < a.len()
                invariant
                    i <= a.len(),
                    out.len() == i,
                    forall|k: int| 0 <= k < i ==> (#[trigger] out@[k])@ == frame_from(a@[k]@),
                decreases a.len() - i,
            {
                let f = &a[i];
                let name = f.at("name").str_or("");
                out.push(
                    Frame {
                        id: f.at("id").int_or(0),
                        name: short_fn(name.as_str()),
                        file: f.at("source").at("name").str_or("?"),
                        line: f.at("line").int_or(0),
                        path: f.at("source").at("path").str_or(""),
                    },
                );
                i += 1;
            }
        },
        None => {},
    }
    assert(frames_in(out@) =~= frames_from(reply@));
    out
}

// ---------------------------------------------------------------------------
// The user's own frame
// ---------------------------------------------------------------------------

/// A frame inside the panic, unwind or backtrace machinery, by symbol name.
pub open spec fn machinery(f: FrameModel) -> bool {
    let n = strip_start(f.name, either('<', '<'));
    ||| "std::"@.is_prefix_of(n)
    ||| "core::"@.is_prefix_of(n)
    ||| "alloc::"@.is_prefix_of(n)
    ||| "__rust"@.is_prefix_of(n)
    ||| n == "rust_panic"@
    ||| "rust_begin_unwind"@.is_prefix_of(n)
    ||| contains(n, "panicking"@)
    ||| contains(n, "panic_fmt"@)
    ||| contains(n, "begin_panic"@)
    ||| contains(n, "lang_start"@)
    ||| contains(n, "::backtrace"@)
}

/// A frame whose source lives in the Rust toolchain.
pub open spec fn toolchain(f: FrameModel) -> bool {
    ||| contains(f.path, "/rustc/"@)
    ||| contains(f.path, "/library/std/"@)
    ||| contains(f.path, "/library/core/"@)
    ||| contains(f.path, "/library/alloc/"@)
    ||| contains(f.path, "/library/test/"@)
}

/// A frame whose source lives in a dependency.
pub open spec fn dependency(f: FrameModel) -> bool {
    contains(f.path, "/.cargo/registry/"@) || contains(f.path, "/.cargo/git/"@)
}

/// A frame of neither the panic machinery nor the toolchain.
pub open spec fn candidate(f: FrameModel) -> bool {
    !machinery(f) && !toolchain(f)
}

/// The first frame from `i` on that is a candidate, and with `own` no frame of
/// a dependency.
pub open spec fn first_candidate(fs: Seq<FrameModel>, own: bool, i: int) -> Option<int>
    decreases fs.len() - i,
{
    if i < 0 || i >= fs.len() {
        None
    } else if candidate(fs[i]) && !(own && dependency(fs[i])) {
        Some(i)
    } else {
        first_candidate(fs, own, i + 1)
    }
}

/// The first frame of the user's own code, or else of a dependency.
pub open spec fn user_frame(fs: Seq<FrameModel>) -> Option<int> {
    match first_candidate(fs, true, 0) {
        Some(i) => Some(i),
        None => first_candidate(fs, false, 0),
    }
}

/// A frame inside the panic/unwind/backtrace machinery, by symbol name.
pub fn panic_machinery(f: &Frame) -> (r: bool)
    ensures
        r == machinery(f@),
{
    // demangled generics render as `<core::panic::panic_info::PanicInfo>::new`
    let n = strip_front_of(f.name.as_str(), '<', '<');
    let n = n.as_str();
    begins(n, "std::") || begins(n, "core::") || begins(n, "alloc::") || begins(n, "__rust")
        || same(n, "rust_panic") || begins(n, "rust_begin_unwind") || has_text(n, "panicking")
        || has_text(n, "panic_fmt") || has_text(n, "begin_panic") || has_text(n, "lang_start")
        || has_text(n, "::backtrace")
}

/// A frame whose source lives in the Rust toolchain (std/core/alloc/test —
/// debug info records these as `/rustc/<hash>/library/...`).
pub fn rust_library(f: &Frame) -> (r: bool)
    ensures
        r == toolchain(f@),
{
    let p = f.path.as_str();
    has_text(p, "/rustc/") || has_text(p, "/library/std/") || has_text(p, "/library/core/")
        || has_text(p, "/library/alloc/") || has_text(p, "/library/test/")
}

/// A frame whose source lives in a dependency.
pub fn cargo_registry(f: &Frame) -> (r: bool)
    ensures
        r == dependency(f@),
{
    has_text(f.path.as_str(), "/.cargo/registry/") || has_text(f.path.as_str(), "/.cargo/git/")
}

fn find_candidate(frames: &[Frame], own: bool) -> (r: Option<usize>)
    ensures
        match r {
            Some(i) => first_candidate(frames_in(frames@), own, 0) == Some(i as int) && i
                < frames.len(),
            None => first_candidate(frames_in(frames@), own, 0) is None,
        },
{
    let mut i: usize = 0;
    while i < frames.len()
        invariant
            i <= frames.len(),
            first_candidate(frames_in(frames@), own, 0) == first_candidate(
                frames_in(frames@),
                own,
                i as int,
            ),
        decreases frames.len() - i,
    {
        let f = &frames[i];
        assert(frames_in(frames@)[i as int] == f@);
        if !panic_machinery(f) && !rust_library(f) && !(own && cargo_registry(f)) {
            return Some(i);
        }
        i += 1;
    }
    None
}

/// The index of the first frame that belongs to the user's own code: skips
/// the panic/backtrace plumbing and the Rust library (`std::` / `core::` /
/// `alloc::` symbols, `rust_panic`, `panic_fmt`, `__rust_*`, `begin_panic`,
/// frames whose source lives in the toolchain's `library/` tree), and prefers
/// frames outside `~/.cargo/registry` so a panic raised inside a dependency
/// still lands on the caller's own crate first.
pub fn first_user_frame(frames: &[Frame]) -> (r: Option<usize>)
    ensures
        match r {
            Some(i) => user_frame(frames_in(frames@)) == Some(i as int) && i < frames.len(),
            None => user_frame(frames_in(frames@)) is None,
        },
{
    match find_candidate(frames, true) {
        Some(i) => Some(i),
        None => find_candidate(frames, false),
    }
}

proof fn lemma_first_candidate(fs: Seq<FrameModel>, own: bool, from: int)
    requires
        0 <= from <= fs.len(),
    ensures
        match first_candidate(fs, own, from) {
            Some(i) => from <= i < fs.len() && candidate(fs[i]) && !(own && dependency(fs[i]))
                && forall|k: int|
                from <= k < i ==> !(candidate(#[trigger] fs[k]) && !(own && dependency(fs[k]))),
            None => forall|k: int|
                from <= k < fs.len() ==> !(candidate(#[trigger] fs[k]) && !(own && dependency(
                    fs[k],
                ))),
        },
    decreases fs.len() - from,
{
    if from < fs.len() {
        lemma_first_candidate(fs, own, from + 1);
    }
}

/// The user's frame is never one of the panic machinery or the toolchain; it
/// is the first such frame outside of the dependencies where there is one,
/// and else the first of all; and there is one unless every frame is of the
/// machinery or the toolchain.
pub proof fn user_frame_is_the_users(fs: Seq<FrameModel>)
    ensures
        match user_frame(fs) {
            Some(i) => {
                &&& 0 <= i < fs.len()
                &&& !machinery(fs[i])
                &&& !toolchain(fs[i])
                &&& forall|k: int|
                    0 <= k < i ==> machinery(#[trigger] fs[k]) || toolchain(fs[k]) || dependency(
                        fs[k],
                    )
                &&& dependency(fs[i]) ==> forall|k: int|
                    0 <= k < fs.len() ==> machinery(#[trigger] fs[k]) || toolchain(fs[k])
                        || dependency(fs[k])
                &&& dependency(fs[i]) ==> forall|k: int|
                    0 <= k < i ==> machinery(#[trigger] fs[k]) || toolchain(fs[k])
            },
            None => forall|k: int|
                0 <= k < fs.len() ==> machinery(#[trigger] fs[k]) || toolchain(fs[k]),
        },
{
    lemma_first_candidate(fs, true, 0);
    lemma_first_candidate(fs, false, 0);
}

/// A name without the `<`s in front of it.
proof fn lemma_bare_name(angles: Seq<char>, n: Seq<char>)
    requires
        forall|i: int| 0 <= i < angles.len() ==> #[trigger] angles[i] == '<',
        n.len() > 0 ==> n[0] != '<',
    ensures
        strip_start(angles + n, either('<', '<')) == n,
{
    let s = angles + n;
    assert forall|k: int| 0 <= k < angles.len() implies either('<', '<')(#[trigger] s[k]) by {
        assert(s[k] == angles[k]);
    }
    lemma_strip_start(s, either('<', '<'), angles.len() as int);
    assert(s.skip(angles.len() as int) =~= n);
}

/// A mark that does not begin with `<` stands in a bare name where it stands
/// in the name.
proof fn lemma_mark_in_name(name: Seq<char>, mark: Seq<char>)
    requires
        mark.len() > 0,
        mark[0] != '<',
    ensures
        contains(strip_start(name, either('<', '<')), mark) == contains(name, mark),
    decreases name.len(),
{
    if name.len() > 0 && name[0] == '<' {
        let rest = name.drop_first();
        lemma_mark_in_name(rest, mark);
        if contains(rest, mark) {
            let i = choose|i: int| #[trigger] occurs_at(rest, mark, i);
            assert(name.subrange(i + 1, i + 1 + mark.len()) =~= rest.subrange(i, i + mark.len()));
            assert(occurs_at(name, mark, i + 1));
        }
        if contains(name, mark) {
            let i = choose|i: int| #[trigger] occurs_at(name, mark, i);
            assert(name.subrange(i, i + mark.len())[0] == name[i]);
            assert(i > 0);
            assert(rest.subrange(i - 1, i - 1 + mark.len()) =~= name.subrange(i, i + mark.len()));
            assert(occurs_at(rest, mark, i - 1));
        }
    }
}

/// A stop in the panic machinery is not taken for the user's: no frame is
/// chosen that has a mark of the machinery in its name, or whose name begins,
/// behind any `<`s, with a path of the standard library.
pub proof fn no_frame_of_the_machinery_is_chosen(
    fs: Seq<FrameModel>,
    angles: Seq<char>,
    a: Seq<char>,
    b: Seq<char>,
)
    requires
        forall|i: int| 0 <= i < angles.len() ==> #[trigger] angles[i] == '<',
    ensures
        user_frame(fs) matches Some(i) ==> {
            &&& fs[i].name != angles + ("std::"@ + b)
            &&& fs[i].name != angles + ("core::"@ + b)
            &&& fs[i].name != angles + ("alloc::"@ + b)
            &&& fs[i].name != angles + ("__rust"@ + b)
            &&& fs[i].name != angles + ("rust_begin_unwind"@ + b)
            &&& fs[i].name != angles + "rust_panic"@
            &&& fs[i].name != a + "panicking"@ + b
            &&& fs[i].name != a + "panic_fmt"@ + b
            &&& fs[i].name != a + "begin_panic"@ + b
            &&& fs[i].name != a + "lang_start"@ + b
            &&& fs[i].name != a + "::backtrace"@ + b
        },
{
    user_frame_is_the_users(fs);
    if let Some(i) = user_frame(fs) {
        let name = fs[i].name;
        if name == angles + ("std::"@ + b) {
            reveal_strlit("std::");
            lemma_bare_name(angles, "std::"@ + b);
            assert("std::"@.is_prefix_of("std::"@ + b));
        }
        if name == angles + ("core::"@ + b) {
            reveal_strlit("core::");
            lemma_bare_name(angles, "core::"@ + b);
            assert("core::"@.is_prefix_of("core::"@ + b));
        }
        if name == angles + ("alloc::"@ + b) {
            reveal_strlit("alloc::");
            lemma_bare_name(angles, "alloc::"@ + b);
            assert("alloc::"@.is_prefix_of("alloc::"@ + b));
        }
        if name == angles + ("__rust"@ + b) {
            reveal_strlit("__rust");
            lemma_bare_name(angles, "__rust"@ + b);
            assert("__rust"@.is_prefix_of("__rust"@ + b));
        }
        if name == angles + ("rust_begin_unwind"@ + b) {
            reveal_strlit("rust_begin_unwind");
            lemma_bare_name(angles, "rust_begin_unwind"@ + b);
            assert("rust_begin_unwind"@.is_prefix_of("rust_begin_unwind"@ + b));
        }
        if name == angles + "rust_panic"@ {
            reveal_strlit("rust_panic");
            lemma_bare_name(angles, "rust_panic"@);
        }
        if name == a + "panicking"@ + b {
            reveal_strlit("panicking");
            what_is_held_stands_between(name, "panicking"@);
            lemma_mark_in_name(name, "panicking"@);
        }
        if name == a + "panic_fmt"@ + b {
            reveal_strlit("panic_fmt");
            what_is_held_stands_between(name, "panic_fmt"@);
            lemma_mark_in_name(name, "panic_fmt"@);
        }
        if name == a + "begin_panic"@ + b {
            reveal_strlit("begin_panic");
            what_is_held_stands_between(name, "begin_panic"@);
            lemma_mark_in_name(name, "begin_panic"@);
        }
        if name == a + "lang_start"@ + b {
            reveal_strlit("lang_start");
            what_is_held_stands_between(name, "lang_start"@);
            lemma_mark_in_name(name, "lang_start"@);
        }
        if name == a + "::backtrace"@ + b {
            reveal_strlit("::backtrace");
            what_is_held_stands_between(name, "::backtrace"@);
            lemma_mark_in_name(name, "::backtrace"@);
        }
    }
}

/// No frame is chosen whose source lies in the toolchain's library: none with
/// one of its directories in the path.
pub proof fn no_frame_of_the_toolchain_is_chosen(fs: Seq<FrameModel>, a: Seq<char>, b: Seq<char>)
    ensures
        user_frame(fs) matches Some(i) ==> {
            &&& fs[i].path != a + "/rustc/"@ + b
            &&& fs[i].path != a + "/library/std/"@ + b
            &&& fs[i].path != a + "/library/core/"@ + b
            &&& fs[i].path != a + "/library/alloc/"@ + b
            &&& fs[i].path != a + "/library/test/"@ + b
        },
{
    user_frame_is_the_users(fs);
    if let Some(i) = user_frame(fs) {
        what_is_held_stands_between(fs[i].path, "/rustc/"@);
        what_is_held_stands_between(fs[i].path, "/library/std/"@);
        what_is_held_stands_between(fs[i].path, "/library/core/"@);
        what_is_held_stands_between(fs[i].path, "/library/alloc/"@);
        what_is_held_stands_between(fs[i].path, "/library/test/"@);
    }
}

/// A frame with no mark of the machinery in its name and no directory of the
/// toolchain in its path is found: one is chosen. Where its path holds no
/// directory of a dependency either, the frame chosen does not come after it,
/// and is of no dependency itself.
pub proof fn a_frame_of_the_users_is_found(
    fs: Seq<FrameModel>,
    k: int,
    angles: Seq<char>,
    name: Seq<char>,
    a: Seq<char>,
    b: Seq<char>,
)
    requires
        0 <= k < fs.len(),
        fs[k].name == angles + name,
        forall|i: int| 0 <= i < angles.len() ==> #[trigger] angles[i] == '<',
        name.len() > 0 ==> name[0] != '<',
        name != "rust_panic"@,
        forall|y: Seq<char>|
            name != #[trigger] ("std::"@ + y) && name != "core::"@ + y && name != "alloc::"@ + y
                && name != "__rust"@ + y && name != "rust_begin_unwind"@ + y,
        forall|x: Seq<char>, y: Seq<char>|
            name != #[trigger] (x + "panicking"@ + y) && name != x + "panic_fmt"@ + y && name != x
                + "begin_panic"@ + y && name != x + "lang_start"@ + y && name != x
                + "::backtrace"@ + y,
        forall|x: Seq<char>, y: Seq<char>|
            fs[k].path != #[trigger] (x + "/rustc/"@ + y) && fs[k].path != x + "/library/std/"@ + y
                && fs[k].path != x + "/library/core/"@ + y && fs[k].path != x + "/library/alloc/"@
                + y && fs[k].path != x + "/library/test/"@ + y,
    ensures
        user_frame(fs) is Some,
        (forall|x: Seq<char>, y: Seq<char>|
            fs[k].path != #[trigger] (x + "/.cargo/registry/"@ + y) && fs[k].path != x
                + "/.cargo/git/"@ + y) ==> user_frame(fs)->0 <= k && fs[user_frame(fs)->0].path != a
            + "/.cargo/registry/"@ + b && fs[user_frame(fs)->0].path != a + "/.cargo/git/"@ + b,
{
    user_frame_is_the_users(fs);
    let f = fs[k];
    lemma_bare_name(angles, name);
    assert(!machinery(f)) by {
        if "std::"@.is_prefix_of(name) {
            assert("std::"@ + name.skip("std::"@.len() as int) =~= name);
            assert("std::"@ + name.skip("std::"@.len() as int) != name);
        }
        if "core::"@.is_prefix_of(name) {
            assert("core::"@ + name.skip("core::"@.len() as int) =~= name);
            assert("std::"@ + name.skip("core::"@.len() as int) != name);
        }
        if "alloc::"@.is_prefix_of(name) {
            assert("alloc::"@ + name.skip("alloc::"@.len() as int) =~= name);
            assert("std::"@ + name.skip("alloc::"@.len() as int) != name);
        }
        if "__rust"@.is_prefix_of(name) {
            assert("__rust"@ + name.skip("__rust"@.len() as int) =~= name);
            assert("std::"@ + name.skip("__rust"@.len() as int) != name);
        }
        if "rust_begin_unwind"@.is_prefix_of(name) {
            assert("rust_begin_unwind"@ + name.skip("rust_begin_unwind"@.len() as int) =~= name);
            assert("std::"@ + name.skip("rust_begin_unwind"@.len() as int) != name);
        }
        if contains(name, "panicking"@) {
            what_is_held_stands_between(name, "panicking"@);
            let (x, y) = choose|x: Seq<char>, y: Seq<char>| name == #[trigger] (x + "panicking"@ + y);
            assert(name != x + "panicking"@ + y);
        }
        if contains(name, "panic_fmt"@) {
            what_is_held_stands_between(name, "panic_fmt"@);
            let (x, y) = choose|x: Seq<char>, y: Seq<char>| name == #[trigger] (x + "panic_fmt"@ + y);
            assert(name != x + "panicking"@ + y);
        }
        if contains(name, "begin_panic"@) {
            what_is_held_stands_between(name, "begin_panic"@);
            let (x, y) = choose|x: Seq<char>, y: Seq<char>| name == #[trigger] (x + "begin_panic"@ + y);
            assert(name != x + "panicking"@ + y);
        }
        if contains(name, "lang_start"@) {
            what_is_held_stands_between(name, "lang_start"@);
            let (x, y) = choose|x: Seq<char>, y: Seq<char>| name == #[trigger] (x + "lang_start"@ + y);
            assert(name != x + "panicking"@ + y);
        }
        if contains(name, "::backtrace"@) {
            what_is_held_stands_between(name, "::backtrace"@);
            let (x, y) = choose|x: Seq<char>, y: Seq<char>| name == #[trigger] (x + "::backtrace"@ + y);
            assert(name != x + "panicking"@ + y);
        }
    }
    assert(!toolchain(f)) by {
        if contains(f.path, "/rustc/"@) {
            what_is_held_stands_between(f.path, "/rustc/"@);
            let (x, y) = choose|x: Seq<char>, y: Seq<char>| f.path == #[trigger] (x + "/rustc/"@ + y);
            assert(f.path != x + "/rustc/"@ + y);
        }
        if contains(f.path, "/library/std/"@) {
            what_is_held_stands_between(f.path, "/library/std/"@);
            let (x, y) = choose|x: Seq<char>, y: Seq<char>| f.path == #[trigger] (x + "/library/std/"@ + y);
            assert(f.path != x + "/rustc/"@ + y);
        }
        if contains(f.path, "/library/core/"@) {
            what_is_held_stands_between(f.path, "/library/core/"@);
            let (x, y) = choose|x: Seq<char>, y: Seq<char>| f.path == #[trigger] (x + "/library/core/"@ + y);
            assert(f.path != x + "/rustc/"@ + y);
        }
        if contains(f.path, "/library/alloc/"@) {
            what_is_held_stands_between(f.path, "/library/alloc/"@);
            let (x, y) = choose|x: Seq<char>, y: Seq<char>| f.path == #[trigger] (x + "/library/alloc/"@ + y);
            assert(f.path != x + "/rustc/"@ + y);
        }
        if contains(f.path, "/library/test/"@) {
            what_is_held_stands_between(f.path, "/library/test/"@);
            let (x, y) = choose|x: Seq<char>, y: Seq<char>| f.path == #[trigger] (x + "/library/test/"@ + y);
            assert(f.path != x + "/rustc/"@ + y);
        }
    }
    if forall|x: Seq<char>, y: Seq<char>|
        f.path != #[trigger] (x + "/.cargo/registry/"@ + y) && f.path != x + "/.cargo/git/"@ + y {
        if contains(f.path, "/.cargo/registry/"@) {
            what_is_held_stands_between(f.path, "/.cargo/registry/"@);
            let (x, y) = choose|x: Seq<char>, y: Seq<char>| f.path == #[trigger] (x + "/.cargo/registry/"@ + y);
            assert(f.path != x + "/.cargo/registry/"@ + y);
        }
        what_is_held_stands_between(fs[user_frame(fs)->0].path, "/.cargo/registry/"@);
        if contains(f.path, "/.cargo/git/"@) {
            what_is_held_stands_between(f.path, "/.cargo/git/"@);
            let (x, y) = choose|x: Seq<char>, y: Seq<char>| f.path == #[trigger] (x + "/.cargo/git/"@ + y);
            assert(f.path != x + "/.cargo/registry/"@ + y);
        }
        what_is_held_stands_between(fs[user_frame(fs)->0].path, "/.cargo/git/"@);
    }
}

// ---------------------------------------------------------------------------
// Stops
// ---------------------------------------------------------------------------

/// What a stop is.
pub ghost struct StopModel {
    pub reason: Seq<char>,
    pub thread_id: int,
    pub frames: Seq<FrameModel>,
    pub exited: bool,
    pub exit_code: Option<int>,
}

pub struct Stop {
    pub reason: String,
    pub thread_id: i64,
    pub frames: Vec<Frame>,
    pub exited: bool,
    pub exit_code: Option<i64>,
}

/// An optional 64-bit integer as a mathematical one.
pub open spec fn opt_int(n: Option<i64>) -> Option<int> {
    match n {
        Some(k) => Some(k as int),
        None => None,
    }
}

impl View for Stop {
    type V = StopModel;

    open spec fn view(&self) -> StopModel {
        StopModel {
            reason: self.reason@,
            thread_id: self.thread_id as int,
            frames: frames_in(self.frames@),
            exited: self.exited,
            exit_code: opt_int(self.exit_code),
        }
    }
}

/// The stop of a program that has ended.
pub open spec fn exit_stop(code: Option<int>) -> StopModel {
    StopModel {
        reason: "exited"@,
        thread_id: 0,
        frames: Seq::empty(),
        exited: true,
        exit_code: code,
    }
}

impl StopModel {
    /// The innermost frame.
    pub open spec fn top(self) -> Option<FrameModel> {
        if self.frames.len() > 0 {
            Some(self.frames[0])
        } else {
            None
        }
    }
}

pub fn copy_frames(v: &Vec<Frame>) -> (r: Vec<Frame>)
    ensures
        frames_in(r@) == frames_in(v@),
{
    let mut r: Vec<Frame> = Vec::new();
    let mut i: usize = 0;
    while i < v.len()
        invariant
            i <= v.len(),
            r.len() == i,
            forall|k: int| 0 <= k < i ==> (#[trigger] r@[k])@ == v@[k]@,
        decreases v.len() - i,
    {
        r.push(v[i].copy());
        i += 1;
    }
    assert(frames_in(r@) =~= frames_in(v@));
    r
}

impl Stop {
    /// The stop of a program that has ended.
    pub fn exited(code: Option<i64>) -> (r: Stop)
        ensures
            r@ == exit_stop(opt_int(code)),
    {
        let frames: Vec<Frame> = Vec::new();
        assert(frames_in(frames@) =~= Seq::empty());
        Stop { reason: owned("exited"), thread_id: 0, frames, exited: true, exit_code: code }
    }

    /// The innermost frame.
    pub fn top(&self) -> (r: Option<&Frame>)
        ensures
            match r {
                Some(f) => self@.top() == Some(f@),
                None => self@.top() is None,
            },
    {
        if self.frames.len() > 0 {
            Some(&self.frames[0])
        } else {
            None
        }
    }

    pub fn copy(&self) -> (r: Stop)
        ensures
            r@ == self@,
    {
        Stop {
            reason: owned(self.reason.as_str()),
            thread_id: self.thread_id,
            frames: copy_frames(&self.frames),
            exited: self.exited,
            exit_code: self.exit_code,
        }
    }
}

/// A frame is read from what the adapter says of it, one for each in its order;
/// the innermost comes first, and a program that has ended has none.
pub proof fn frames_are_read_in_order(
    reply: Doc,
    said: Seq<Doc>,
    i: int,
    id: int,
    n: int,
    file: Seq<char>,
    path: Seq<char>,
    name: Seq<char>,
    stop: StopModel,
    code: Option<int>,
)
    requires
        reply.at("body"@).at("stackFrames"@) == Doc::Arr(said),
        0 <= i < said.len(),
        said[i].at("id"@) == Doc::Int(id),
        said[i].at("line"@) == Doc::Int(n),
        said[i].at("name"@) == Doc::Str(name),
        said[i].at("source"@).at("name"@) == Doc::Str(file),
        said[i].at("source"@).at("path"@) == Doc::Str(path),
        i64::MIN <= id <= i64::MAX,
        i64::MIN <= n <= i64::MAX,
    ensures
        frames_from(reply).len() == said.len(),
        frames_from(reply)[i].id == id,
        frames_from(reply)[i].line == n,
        frames_from(reply)[i].file == file,
        frames_from(reply)[i].path == path,
        frames_from(reply)[i].name == short_fn_of(name),
        stop.frames == frames_from(reply) ==> stop.top() == Some(frames_from(reply)[0]),
        exit_stop(code).exited,
        exit_stop(code).exit_code == code,
        exit_stop(code).top() is None,
{
}

/// A list is seen item by item, in its order.
pub proof fn frames_are_seen_one_by_one(v: Seq<Frame>, i: int)
    ensures
        frames_in(v).len() == v.len(),
        0 <= i < v.len() ==> frames_in(v)[i] == v[i]@,
{
}

} // verus!
