//! What a session shows of where it stands: the selected frame, the
//! backtrace, the source around it, its watches and the program's output.

use vstd::prelude::*;
use crate::json::{Doc, Json};
use crate::num::{int_text, ints_in, pad_left, padded_left, show_count, show_int};
use crate::session::{
    find_temp, increasing, line_sync, temp_index, temps_of, FileTemps, Session, SessionModel,
    TempModel,
};
use crate::stack::{Frame, FrameModel, StopModel};
use crate::text::{
    concat, concat_all, contains, ends, has_text, join, join_all, lemma_join_push, lines, lines_of,
    owned, same, views,
};

verus! {

// ---------------------------------------------------------------------------
// The selected frame
// ---------------------------------------------------------------------------

/// The selected frame of a stop: the one at the index, or else the last.
pub open spec fn frame_at(s: StopModel, index: int) -> Option<FrameModel> {
    let n = s.frames.len();
    if n == 0 {
        None
    } else if index < n {
        Some(s.frames[index])
    } else {
        Some(s.frames[n - 1])
    }
}

/// The frame that a session has selected, where it is stopped.
pub open spec fn frame_of(m: SessionModel) -> Option<FrameModel> {
    match m.last_stop {
        Some(s) => frame_at(s, m.cur_frame),
        None => None,
    }
}

/// A session can select the frame with an index.
pub open spec fn can_select(m: SessionModel, index: int) -> bool {
    m.last_stop matches Some(s) && index < s.frames.len()
}

pub open spec fn frame_selected(m: SessionModel, index: int) -> SessionModel {
    if can_select(m, index) {
        SessionModel { cur_frame: index, ..m }
    } else {
        m
    }
}

/// The index of the frame one up or one down.
pub open spec fn shifted(cur: int, up: bool) -> int {
    if up {
        cur + 1
    } else if cur > 0 {
        cur - 1
    } else {
        0
    }
}

impl Session {
    /// The selected frame.
    pub fn frame(&self) -> (r: Option<&Frame>)
        ensures
            match r {
                Some(f) => frame_of(self@) == Some(f@),
                None => frame_of(self@) is None,
            },
    {
        match &self.last_stop {
            Some(s) => {
                let n: usize = s.frames.len();
                if n == 0 {
                    None
                } else if self.cur_frame < n {
                    Some(&s.frames[self.cur_frame])
                } else {
                    Some(&s.frames[n - 1])
                }
            },
            None => None,
        }
    }

    /// Selects a frame of the current stop; says whether there is one.
    pub fn select_frame(&mut self, index: usize) -> (ok: bool)
        ensures
            ok == can_select(old(self)@, index as int),
            final(self)@ == frame_selected(old(self)@, index as int),
            old(self)@.wf() ==> final(self)@.wf(),
    {
        let n: usize = match &self.last_stop {
            Some(s) => s.frames.len(),
            None => return false,
        };
        if index < n {
            self.cur_frame = index;
            true
        } else {
            false
        }
    }

    /// Selects the frame one up or one down; says whether there is one.
    pub fn frame_shift(&mut self, up: bool) -> (ok: bool)
        ensures
            ok == can_select(old(self)@, shifted(old(self)@.cur_frame, up)),
            final(self)@ == frame_selected(old(self)@, shifted(old(self)@.cur_frame, up)),
            old(self)@.wf() ==> final(self)@.wf(),
    {
        if up {
            if self.cur_frame == usize::MAX {
                assert(self.last_stop matches Some(s) ==> s.frames.len() <= usize::MAX);
                return false;
            }
            self.select_frame(self.cur_frame + 1)
        } else if self.cur_frame > 0 {
            self.select_frame(self.cur_frame - 1)
        } else {
            self.select_frame(0)
        }
    }
}

// ---------------------------------------------------------------------------
// The backtrace
// ---------------------------------------------------------------------------

/// A frame of a program's entry point.
pub open spec fn is_main(name: Seq<char>) -> bool {
    "::main"@.is_suffix_of(name) || name == "main"@
}

pub open spec fn backtrace_row(f: FrameModel, i: int, cur: int) -> Seq<char> {
    " "@ + (if i == cur {
        ">"@
    } else {
        " "@
    }) + "#"@ + int_text(i) + " "@ + f.name + "  "@ + f.file + ":"@ + int_text(f.line)
}

/// The rows of a backtrace from frame `i` on: up to the program's entry point,
/// and at most twenty.
pub open spec fn backtrace_rows(fs: Seq<FrameModel>, cur: int, i: int) -> Seq<Seq<char>>
    decreases fs.len() - i,
{
    if i < 0 || i >= fs.len() || i >= 20 {
        Seq::empty()
    } else if is_main(fs[i].name) {
        seq![backtrace_row(fs[i], i, cur)]
    } else {
        seq![backtrace_row(fs[i], i, cur)] + backtrace_rows(fs, cur, i + 1)
    }
}

/// The backtrace of a session.
pub open spec fn backtrace_of(m: SessionModel) -> Seq<char> {
    match m.last_stop {
        Some(s) => join(backtrace_rows(s.frames, m.cur_frame, 0), "\n"@),
        None => "(not stopped)"@,
    }
}

impl Session {
    /// The frames of the current stop, innermost first, up to `main`.
    pub fn backtrace_text(&self) -> (r: String)
        ensures
            r@ == backtrace_of(self@),
    {
        let s = match &self.last_stop {
            Some(s) => s,
            None => return owned("(not stopped)"),
        };
        let ghost fs = s@.frames;
        let ghost cur = self.cur_frame as int;
        let mut out: Vec<String> = Vec::new();
        let mut i: usize = 0;
        assert(views(out@) + backtrace_rows(fs, cur, 0) =~= backtrace_rows(fs, cur, 0));
        while i < s.frames.len() && i < 20
            invariant_except_break
                backtrace_rows(fs, cur, 0) == views(out@) + backtrace_rows(fs, cur, i as int),
            invariant
                i <= s.frames.len(),
                fs == s@.frames,
                cur == self.cur_frame,
            ensures
                views(out@) == backtrace_rows(fs, cur, 0),
            decreases s.frames.len() - i,
        {
            let f = &s.frames[i];
            assert(fs[i as int] == f@);
            let mut row = String::from_str(" ");
            if i == self.cur_frame {
                row.append(">");
            } else {
                row.append(" ");
            }
            row.append("#");
            let n = show_count(i);
            row.append(n.as_str());
            row.append(" ");
            row.append(f.name.as_str());
            row.append("  ");
            row.append(f.file.as_str());
            row.append(":");
            let l = show_int(f.line);
            row.append(l.as_str());
            let ghost before = views(out@);
            let ghost text = row@;
            assert(text == backtrace_row(f@, i as int, cur));
            out.push(row);
            assert(views(out@) =~= before.push(text));
            if ends(f.name.as_str(), "::main") || same(f.name.as_str(), "main") {
                assert(views(out@) =~= before + seq![text]);
                break;
            }
            assert(views(out@) + backtrace_rows(fs, cur, i + 1) =~= before + (seq![text]
                + backtrace_rows(fs, cur, i + 1)));
            i += 1;
            assert(i == s.frames.len() || i >= 20 ==> views(out@) + backtrace_rows(
                fs,
                cur,
                i as int,
            ) =~= views(out@));
        }
        join_all(&out, "\n")
    }
}

// ---------------------------------------------------------------------------
// Source
// ---------------------------------------------------------------------------

/// The file of the selected frame as it was found.
pub enum Source {
    /// There is no such file.
    Missing,
    /// It could not be read.
    Unreadable,
    /// Its text.
    Text(String),
}

pub open spec fn source_row(line: Seq<char>, i: int, at: int) -> Seq<char> {
    "  "@ + (if i + 1 == at {
        "->"@
    } else {
        "  "@
    }) + " "@ + padded_left(int_text(i + 1), 5) + " | "@ + line
}

/// The rows from line `i` up to line `hi`.
pub open spec fn source_rows(ls: Seq<Seq<char>>, at: int, i: int, hi: int) -> Seq<Seq<char>>
    decreases hi - i,
{
    if i < 0 || i >= hi || i >= ls.len() {
        Seq::empty()
    } else {
        seq![source_row(ls[i], i, at)] + source_rows(ls, at, i + 1, hi)
    }
}

/// The first line to show.
pub open spec fn source_from(at: int, radius: int) -> int {
    if at - radius - 1 > 0 {
        at - radius - 1
    } else {
        0
    }
}

/// The line behind the last to show, of `len`; all where it would lie before
/// the first.
pub open spec fn source_to(at: int, radius: int, len: int) -> int {
    if at + radius < 0 || at + radius > len {
        len
    } else {
        at + radius
    }
}

/// The source around the selected frame.
pub open spec fn source_of(m: SessionModel, radius: int, source: Source) -> Seq<char> {
    match frame_of(m) {
        None => "(not stopped)"@,
        Some(f) => match source {
            Source::Missing => "  ("@ + f.file + ":"@ + int_text(f.line)
                + " — source not available)"@,
            Source::Unreadable => "  ("@ + f.file + ":"@ + int_text(f.line) + ")"@,
            Source::Text(t) => {
                let ls = lines_of(t@);
                let head = "  "@ + f.file + ":"@ + int_text(f.line) + "  (frame #"@ + int_text(
                    m.cur_frame,
                ) + " "@ + f.name + ")"@;
                join(
                    seq![head] + source_rows(
                        ls,
                        f.line,
                        source_from(f.line, radius),
                        source_to(f.line, radius, ls.len() as int),
                    ),
                    "\n"@,
                )
            },
        },
    }
}

/// The file to read for the source around the selected frame.
pub open spec fn source_path_of(m: SessionModel) -> Option<Seq<char>> {
    match frame_of(m) {
        Some(f) => if f.path.len() == 0 {
            None
        } else {
            Some(f.path)
        },
        None => None,
    }
}

impl Session {
    /// The file to read for [`Session::source_around`]; without one the source
    /// is missing.
    pub fn source_path(&self) -> (r: Option<String>)
        ensures
            match r {
                Some(p) => source_path_of(self@) == Some(p@),
                None => source_path_of(self@) is None,
            },
    {
        match self.frame() {
            Some(f) => if f.path.as_str().is_empty() {
                None
            } else {
                Some(owned(f.path.as_str()))
            },
            None => None,
        }
    }

    /// The source lines around the selected frame, given its file.
    pub fn source_around(&self, radius: i64, source: &Source) -> (r: String)
        ensures
            r@ == source_of(self@, radius as int, *source),
    {
        let f = match self.frame() {
            Some(f) => f,
            None => return owned("(not stopped)"),
        };
        let at = show_int(f.line);
        let text = match source {
            Source::Missing => {
                let mut r = String::from_str("  (");
                r.append(f.file.as_str());
                r.append(":");
                r.append(at.as_str());
                r.append(" — source not available)");
                return r;
            },
            Source::Unreadable => {
                let mut r = String::from_str("  (");
                r.append(f.file.as_str());
                r.append(":");
                r.append(at.as_str());
                r.append(")");
                return r;
            },
            Source::Text(t) => t,
        };
        let ls = lines(text.as_str());
        let ghost texts = views(ls@);
        let len: i128 = ls.len() as i128;
        let first: i128 = f.line as i128 - radius as i128 - 1;
        let lo: i128 = if first > 0 {
            first
        } else {
            0
        };
        let end: i128 = f.line as i128 + radius as i128;
        let hi: i128 = if end < 0 || end > len {
            len
        } else {
            end
        };
        let mut head = String::from_str("  ");
        head.append(f.file.as_str());
        head.append(":");
        head.append(at.as_str());
        head.append("  (frame #");
        let n = show_count(self.cur_frame);
        head.append(n.as_str());
        head.append(" ");
        head.append(f.name.as_str());
        head.append(")");
        let mut out: Vec<String> = Vec::new();
        let ghost h = head@;
        out.push(head);
        assert(views(out@) =~= seq![h]);
        let ghost all = seq![h] + source_rows(texts, f.line as int, lo as int, hi as int);
        let mut i: i128 = lo;
        while i < hi
            invariant
                0 <= lo <= i,
                i <= hi || i == lo,
                hi <= len == ls.len(),
                texts == views(ls@),
                all == views(out@) + source_rows(texts, f.line as int, i as int, hi as int),
            decreases hi - i,
        {
            let mut row = String::from_str("  ");
            if i + 1 == f.line as i128 {
                row.append("->");
            } else {
                row.append("  ");
            }
            row.append(" ");
            let k: usize = i as usize;
            let num = show_nat_after(k);
            let pad = pad_left(num.as_str(), 5);
            row.append(pad.as_str());
            row.append(" | ");
            row.append(ls[k].as_str());
            let ghost before = views(out@);
            let ghost t = row@;
            assert(t == source_row(texts[i as int], i as int, f.line as int));
            out.push(row);
            assert(views(out@) =~= before.push(t));
            assert(before + (seq![t] + source_rows(texts, f.line as int, i + 1, hi as int))
                =~= views(out@) + source_rows(texts, f.line as int, i + 1, hi as int));
            i += 1;
        }
        assert(views(out@) =~= all);
        join_all(&out, "\n")
    }
}

fn show_nat_after(k: usize) -> (r: String)
    requires
        k < usize::MAX,
    ensures
        r@ == int_text(k + 1),
{
    show_count(k + 1)
}

// ---------------------------------------------------------------------------
// Watches and output
// ---------------------------------------------------------------------------

pub open spec fn texts_without(v: Seq<Seq<char>>, s: Seq<char>) -> Seq<Seq<char>>
    decreases v.len(),
{
    if v.len() == 0 {
        v
    } else if v.last() == s {
        texts_without(v.drop_last(), s)
    } else {
        texts_without(v.drop_last(), s).push(v.last())
    }
}

/// The watch expressions after `add` or `rm` of one.
pub open spec fn watches_after(
    watches: Seq<Seq<char>>,
    action: Seq<char>,
    expr: Option<Seq<char>>,
) -> Seq<Seq<char>> {
    match expr {
        Some(e) => if action == "add"@ {
            watches.push(e)
        } else if action == "rm"@ {
            texts_without(watches, e)
        } else {
            watches
        },
        None => watches,
    }
}

/// The program's output with what an event adds to it.
pub open spec fn output_after(output: Seq<Seq<char>>, ev: Doc) -> Seq<Seq<char>> {
    if ev.at("event"@).text() == Some("output"@) {
        match ev.at("body"@).at("output"@).text() {
            Some(o) => output.push(o),
            None => output,
        }
    } else {
        output
    }
}

impl Session {
    /// Adds or removes a watch expression; any other action changes nothing.
    pub fn watch_expr(&mut self, action: &str, expr: Option<String>)
        ensures
            final(self)@ == (SessionModel {
                watches: watches_after(
                    old(self)@.watches,
                    action@,
                    match expr {
                        Some(e) => Some(e@),
                        None => None,
                    },
                ),
                ..old(self)@
            }),
            old(self)@.wf() ==> final(self)@.wf(),
    {
        match expr {
            Some(e) => {
                let ghost before = self@.watches;
                if same(action, "add") {
                    let ghost t = e@;
                    self.watches.push(e);
                    assert(self@.watches =~= before.push(t));
                } else if same(action, "rm") {
                    let mut kept: Vec<String> = Vec::new();
                    let mut i: usize = 0;
                    assert(before.take(0) =~= Seq::empty());
                    assert(views(kept@) =~= Seq::empty());
                    while i < self.watches.len()
                        invariant
                            i <= self.watches.len(),
                            before == views(self.watches@),
                            views(kept@) == texts_without(before.take(i as int), e@),
                        decreases self.watches.len() - i,
                    {
                        assert(before.take(i + 1).drop_last() =~= before.take(i as int));
                        assert(before.take(i + 1).last() == self.watches@[i as int]@);
                        if !same(self.watches[i].as_str(), e.as_str()) {
                            let ghost k = views(kept@);
                            kept.push(owned(self.watches[i].as_str()));
                            assert(views(kept@) =~= k.push(before[i as int]));
                        }
                        i += 1;
                    }
                    assert(before.take(before.len() as int) =~= before);
                    self.watches = kept;
                }
            },
            None => {},
        }
    }

    /// The program output captured so far.
    pub fn output_text(&self) -> (r: String)
        ensures
            r@ == concat(self@.output),
    {
        concat_all(&self.output)
    }

    /// Whether the captured program output contains a text (output captured
    /// before counts too). Asked again after each output event until the time
    /// is up by panic triage: the panic breakpoint fires *before* the hook
    /// prints `panicked at ...`, so the message trails the stop event.
    pub fn wait_output_contains(&self, needle: &str) -> (r: bool)
        ensures
            r == contains(concat(self@.output), needle@),
    {
        let all = concat_all(&self.output);
        has_text(all.as_str(), needle)
    }

    /// Takes note of the program output in an event.
    pub fn note_output(&mut self, ev: &Json)
        ensures
            final(self)@ == (SessionModel {
                output: output_after(old(self)@.output, ev@),
                ..old(self)@
            }),
            old(self)@.wf() ==> final(self)@.wf(),
    {
        let is_output = match ev.at("event").as_str() {
            Some(e) => same(e, "output"),
            None => false,
        };
        if is_output {
            match ev.at("body").at("output").as_str() {
                Some(o) => {
                    let ghost before = self@.output;
                    self.output.push(owned(o));
                    assert(self@.output =~= before.push(o@));
                },
                None => {},
            }
        }
    }
}

// ---------------------------------------------------------------------------
// Lines that a run stops at once
// ---------------------------------------------------------------------------

/// The lines with one more, in order and without repetition.
pub open spec fn with_line(lines: Seq<int>, line: int) -> Seq<int>
    decreases lines.len(),
{
    if lines.len() == 0 || lines.last() < line {
        lines.push(line)
    } else if lines.last() == line {
        lines
    } else {
        with_line(lines.drop_last(), line).push(lines.last())
    }
}

pub open spec fn without_line(lines: Seq<int>, line: int) -> Seq<int>
    decreases lines.len(),
{
    if lines.len() == 0 {
        lines
    } else if lines.last() == line {
        without_line(lines.drop_last(), line)
    } else {
        without_line(lines.drop_last(), line).push(lines.last())
    }
}

/// The session with a line to stop at once.
pub open spec fn temp_added(m: SessionModel, path: Seq<char>, line: int) -> SessionModel {
    match temp_index(m.temp, path, 0) {
        Some(i) => SessionModel {
            temp: m.temp.update(
                i,
                TempModel { path: m.temp[i].path, lines: with_line(m.temp[i].lines, line) },
            ),
            ..m
        },
        None => SessionModel {
            temp: m.temp.push(TempModel { path, lines: with_line(Seq::empty(), line) }),
            ..m
        },
    }
}

/// The session without a line to stop at once.
pub open spec fn temp_removed(m: SessionModel, path: Seq<char>, line: int) -> SessionModel {
    match temp_index(m.temp, path, 0) {
        Some(i) => SessionModel {
            temp: m.temp.update(
                i,
                TempModel { path: m.temp[i].path, lines: without_line(m.temp[i].lines, line) },
            ),
            ..m
        },
        None => m,
    }
}

proof fn lemma_with_line(lines: Seq<int>, line: int, i: int)
    requires
        0 <= i <= lines.len(),
        forall|k: int| i <= k < lines.len() ==> lines[k] > line,
        i == 0 || lines[i - 1] <= line,
    ensures
        with_line(lines, line) == if i > 0 && lines[i - 1] == line {
            lines
        } else {
            lines.insert(i, line)
        },
    decreases lines.len(),
{
    if i == lines.len() {
        if !(i > 0 && lines[i - 1] == line) {
            assert(lines.insert(i, line) =~= lines.push(line));
        }
    } else {
        assert(lines[lines.len() - 1] > line);
        let front = lines.drop_last();
        lemma_with_line(front, line, i);
        if i > 0 && lines[i - 1] == line {
            assert(front.push(lines.last()) =~= lines);
        } else {
            assert(front.insert(i, line).push(lines.last()) =~= lines.insert(i, line));
        }
    }
}

fn put_line(lines: &mut Vec<i64>, line: i64)
    ensures
        ints_in(final(lines)@) == with_line(ints_in(old(lines)@), line as int),
{
    let ghost all = ints_in(lines@);
    let mut i: usize = lines.len();
    while i > 0 && lines[i - 1] > line
        invariant
            i <= lines.len(),
            all == ints_in(lines@),
            forall|k: int| i <= k < all.len() ==> all[k] > line,
        decreases i,
    {
        assert(all[i - 1] == lines@[i - 1]);
        i -= 1;
    }
    proof {
        if i > 0 {
            assert(all[i - 1] == lines@[i - 1]);
        }
        lemma_with_line(all, line as int, i as int);
    }
    if i > 0 && lines[i - 1] == line {
        return;
    }
    lines.insert(i, line);
    assert(ints_in(lines@) =~= all.insert(i as int, line as int));
}

fn take_line(lines: &mut Vec<i64>, line: i64)
    ensures
        ints_in(final(lines)@) == without_line(ints_in(old(lines)@), line as int),
{
    let ghost all = ints_in(lines@);
    let mut kept: Vec<i64> = Vec::new();
    let mut i: usize = 0;
    assert(all.take(0) =~= Seq::empty());
    assert(ints_in(kept@) =~= Seq::empty());
    while i < lines.len()
        invariant
            i <= lines.len(),
            all == ints_in(lines@),
            ints_in(kept@) == without_line(all.take(i as int), line as int),
        decreases lines.len() - i,
    {
        assert(all.take(i + 1).drop_last() =~= all.take(i as int));
        assert(all.take(i + 1).last() == lines@[i as int]);
        if lines[i] != line {
            let ghost k = ints_in(kept@);
            kept.push(lines[i]);
            assert(ints_in(kept@) =~= k.push(all[i as int]));
        }
        i += 1;
    }
    assert(all.take(all.len() as int) =~= all);
    *lines = kept;
}

proof fn lemma_temp_index(ts: Seq<TempModel>, path: Seq<char>, i: int)
    requires
        0 <= i <= ts.len(),
    ensures
        match temp_index(ts, path, i) {
            Some(k) => i <= k < ts.len() && ts[k].path == path && forall|j: int|
                i <= j < k ==> (#[trigger] ts[j]).path != path,
            None => forall|j: int| i <= j < ts.len() ==> (#[trigger] ts[j]).path != path,
        },
    decreases ts.len() - i,
{
    if i < ts.len() && ts[i].path != path {
        lemma_temp_index(ts, path, i + 1);
    }
}

/// One more line leaves lines in order.
proof fn lemma_line_put(lines: Seq<int>, line: int)
    requires
        increasing(lines),
    ensures
        increasing(with_line(lines, line)),
        forall|k: int|
            0 <= k < with_line(lines, line).len() ==> #[trigger] with_line(lines, line)[k] <= if
                lines.len() > 0 && lines.last() > line {
                lines.last()
            } else {
                line
            },
    decreases lines.len(),
{
    if lines.len() > 0 {
        let rest = lines.drop_last();
        lemma_line_put(rest, line);
        if rest.len() > 0 {
            assert(lines[rest.len() - 1] < lines[rest.len() as int]);
        }
    }
}

/// One line less leaves lines in order.
proof fn lemma_line_taken(lines: Seq<int>, line: int)
    requires
        increasing(lines),
    ensures
        increasing(without_line(lines, line)),
        forall|k: int|
            0 <= k < without_line(lines, line).len() ==> lines.len() > 0 && #[trigger] without_line(
                lines,
                line,
            )[k] <= lines.last(),
    decreases lines.len(),
{
    if lines.len() > 0 {
        let rest = lines.drop_last();
        lemma_line_taken(rest, line);
        if rest.len() > 0 {
            assert(lines[rest.len() - 1] < lines[rest.len() as int]);
        }
    }
}

/// Neither a line to stop at once nor its going brings a file in twice or
/// lines out of order.
proof fn lemma_temps_sound(m: SessionModel, path: Seq<char>, line: int)
    requires
        m.wf(),
    ensures
        temp_added(m, path, line).wf(),
        temp_removed(m, path, line).wf(),
{
    lemma_temp_index(m.temp, path, 0);
    match temp_index(m.temp, path, 0) {
        Some(i) => {
            assert(increasing(m.temp[i].lines));
            lemma_line_put(m.temp[i].lines, line);
            lemma_line_taken(m.temp[i].lines, line);
        },
        None => {
            lemma_line_put(Seq::empty(), line);
        },
    }
}

impl Session {
    /// Stops the next run at a line of a file, given by its absolute path.
    pub fn add_temp(&mut self, path: &str, line: i64)
        ensures
            final(self)@ == temp_added(old(self)@, path@, line as int),
            old(self)@.wf() ==> final(self)@.wf(),
    {
        let ghost m = self@;
        proof {
            if m.wf() {
                lemma_temps_sound(m, path@, line as int);
            }
        }
        match find_temp(&self.temp, path) {
            Some(i) => {
                put_line(&mut self.temp[i].lines, line);
                assert(self@.temp =~= temp_added(m, path@, line as int).temp);
            },
            None => {
                let mut ls: Vec<i64> = Vec::new();
                assert(ints_in(ls@) =~= Seq::empty());
                put_line(&mut ls, line);
                self.temp.push(FileTemps { path: owned(path), lines: ls });
                assert(self@.temp =~= temp_added(m, path@, line as int).temp);
            },
        }
    }

    /// Takes the line back.
    pub fn remove_temp(&mut self, path: &str, line: i64)
        ensures
            final(self)@ == temp_removed(old(self)@, path@, line as int),
            old(self)@.wf() ==> final(self)@.wf(),
    {
        let ghost m = self@;
        proof {
            if m.wf() {
                lemma_temps_sound(m, path@, line as int);
            }
        }
        match find_temp(&self.temp, path) {
            Some(i) => {
                take_line(&mut self.temp[i].lines, line);
                assert(self@.temp =~= temp_removed(m, path@, line as int).temp);
            },
            None => {},
        }
    }
}

// ---------------------------------------------------------------------------
// What taking a line back leaves
// ---------------------------------------------------------------------------

proof fn lemma_line_taken_back(lines: Seq<int>, line: int)
    requires
        !lines.contains(line),
    ensures
        without_line(with_line(lines, line), line) == lines,
        without_line(lines, line) == lines,
    decreases lines.len(),
{
    if lines.len() > 0 {
        let front = lines.drop_last();
        assert(lines[lines.len() - 1] == lines.last());
        assert(!front.contains(line)) by {
            if front.contains(line) {
                let i = choose|i: int| 0 <= i < front.len() && front[i] == line;
                assert(lines[i] == line);
            }
        }
        lemma_line_taken_back(front, line);
        assert(front.push(lines.last()) =~= lines);
        assert(lines.push(line).drop_last() =~= lines);
        assert(without_line(lines, line) == lines);
        assert(without_line(lines.push(line), line) == without_line(lines, line));
        let mid = with_line(front, line);
        assert(mid.push(lines.last()).drop_last() =~= mid);
        assert(without_line(mid.push(lines.last()), line) == without_line(mid, line).push(
            lines.last(),
        ));
    } else {
        assert(lines.push(line).drop_last() =~= lines);
        assert(without_line(lines.push(line), line) == without_line(lines, line));
    }
}

proof fn lemma_temp_found(ts: Seq<TempModel>, path: Seq<char>, i: int, k: int)
    requires
        0 <= i <= k < ts.len(),
        ts[k].path == path,
        forall|j: int| i <= j < k ==> (#[trigger] ts[j]).path != path,
    ensures
        temp_index(ts, path, i) == Some(k),
    decreases k - i,
{
    if i < k {
        lemma_temp_found(ts, path, i + 1, k);
    }
}

/// Taking back a line that a run was to stop at leaves the lines of the file
/// as they were, and the adapter is told the same of it as before.
pub proof fn a_temp_line_leaves_no_trace(m: SessionModel, path: Seq<char>, line: int)
    requires
        !temps_of(m.temp, path).contains(line),
    ensures
        ({
            let n = temp_removed(temp_added(m, path, line), path, line);
            &&& temps_of(n.temp, path) == temps_of(m.temp, path)
            &&& line_sync(n, path) == line_sync(m, path)
        }),
{
    let a = temp_added(m, path, line);
    let n = temp_removed(a, path, line);
    lemma_temp_index(m.temp, path, 0);
    match temp_index(m.temp, path, 0) {
        Some(i) => {
            lemma_temp_found(a.temp, path, 0, i);
            lemma_temp_found(n.temp, path, 0, i);
            lemma_line_taken_back(m.temp[i].lines, line);
        },
        None => {
            let i = m.temp.len() as int;
            lemma_temp_found(a.temp, path, 0, i);
            lemma_temp_found(n.temp, path, 0, i);
            lemma_line_taken_back(Seq::empty(), line);
        },
    }
}

// ---------------------------------------------------------------------------
// What is selected and shown
// ---------------------------------------------------------------------------

/// A frame of the stop that is selected is the one that is looked at then, and
/// nothing else changes; an index past the last frame, or without a stop, is
/// refused and changes nothing.
pub proof fn the_selected_frame_is_the_one_looked_at(m: SessionModel, stop: StopModel, index: int)
    requires
        m.last_stop == Some(stop),
        0 <= index,
    ensures
        can_select(m, index) <==> index < stop.frames.len(),
        index < stop.frames.len() ==> frame_of(frame_selected(m, index)) == Some(
            stop.frames[index],
        ) && frame_selected(m, index).cur_frame == index,
        index >= stop.frames.len() ==> frame_selected(m, index) == m,
        frame_selected(m, index).last_stop == m.last_stop,
        !can_select(SessionModel { last_stop: None, ..m }, index),
        frame_of(SessionModel { last_stop: None, ..m }) is None,
{
}

/// Going up a frame and down again leads back, as does down and up; there is
/// no way up from the outermost frame, and the innermost stays where it is.
pub proof fn up_and_down_lead_back(m: SessionModel, stop: StopModel)
    requires
        m.last_stop == Some(stop),
        0 <= m.cur_frame < stop.frames.len(),
    ensures
        ({
            let up = frame_selected(m, shifted(m.cur_frame, true));
            let down = frame_selected(m, shifted(m.cur_frame, false));
            &&& m.cur_frame + 1 < stop.frames.len() ==> up.cur_frame == m.cur_frame + 1
                && frame_selected(up, shifted(up.cur_frame, false)) == m
            &&& m.cur_frame + 1 == stop.frames.len() ==> up == m && !can_select(
                m,
                shifted(m.cur_frame, true),
            )
            &&& m.cur_frame > 0 ==> down.cur_frame == m.cur_frame - 1 && frame_selected(
                down,
                shifted(down.cur_frame, true),
            ) == m
            &&& m.cur_frame == 0 ==> down == m
        }),
{
}

#[verifier::spinoff_prover]
proof fn lemma_backtrace_rows(fs: Seq<FrameModel>, cur: int, i: int)
    requires
        0 <= i,
    ensures
        ({
            let rows = backtrace_rows(fs, cur, i);
            &&& forall|k: int|
                0 <= k < rows.len() ==> i + k < fs.len() && i + k < 20 && #[trigger] rows[k]
                    == backtrace_row(fs[i + k], i + k, cur)
            &&& forall|c: int| i <= c < i + rows.len() - 1 ==> !is_main((#[trigger] fs[c]).name)
            &&& i + rows.len() < fs.len() && i + rows.len() < 20 ==> rows.len() > 0 && is_main(
                fs[i + rows.len() - 1].name,
            )
        }),
    decreases fs.len() - i,
{
    if i < fs.len() && i < 20 && !is_main(fs[i].name) {
        lemma_backtrace_rows(fs, cur, i + 1);
        let rest = backtrace_rows(fs, cur, i + 1);
        let rows = backtrace_rows(fs, cur, i);
        assert forall|k: int| 0 <= k < rows.len() implies i + k < fs.len() && i + k < 20
            && #[trigger] rows[k] == backtrace_row(fs[i + k], i + k, cur) by {
            if k > 0 {
                assert(rows[k] == rest[k - 1]);
            }
        }
        assert(rows.len() == 1 + rest.len());
        assert forall|c: int| i <= c < i + rows.len() - 1 implies !is_main(
            (#[trigger] fs[c]).name,
        ) by {
            if c > i {
                assert(i + 1 <= c < (i + 1) + rest.len() - 1);
                assert(!is_main(fs[c].name));
            }
        }
        assert(i + rows.len() - 1 == (i + 1) + rest.len() - 1);
        if i + rows.len() < fs.len() && i + rows.len() < 20 {
            assert((i + 1) + rest.len() < fs.len());
            assert(rest.len() > 0);
            assert(is_main(fs[(i + 1) + rest.len() - 1].name));
            assert(fs[i + rows.len() - 1] == fs[(i + 1) + rest.len() - 1]);
        }
    } else if i < fs.len() && i < 20 {
        let rows = backtrace_rows(fs, cur, i);
        assert(rows =~= seq![backtrace_row(fs[i], i, cur)]);
        assert forall|k: int| 0 <= k < rows.len() implies i + k < fs.len() && i + k < 20
            && #[trigger] rows[k] == backtrace_row(fs[i + k], i + k, cur) by {
            assert(k == 0);
        }
    }
}

/// A backtrace has one row for each frame from the innermost on, with the
/// frame's number, name, file and line, and marks the selected one alone. It
/// goes as far as the program's `main`, or twenty frames, or all.
pub proof fn a_backtrace_goes_from_the_stop_to_main(m: SessionModel, stop: StopModel)
    requires
        m.last_stop == Some(stop),
    ensures
        exists|rows: Seq<Seq<char>>|
            {
                let n = rows.len() as int;
                &&& backtrace_of(m) == #[trigger] join(rows, "\n"@)
                &&& n <= 20 && n <= stop.frames.len()
                &&& forall|i: int|
                    0 <= i < n ==> #[trigger] rows[i] == " "@ + (if i == m.cur_frame {
                        ">"@
                    } else {
                        " "@
                    }) + "#"@ + int_text(i) + " "@ + stop.frames[i].name + "  "@
                        + stop.frames[i].file + ":"@ + int_text(stop.frames[i].line)
                &&& forall|i: int, a: Seq<char>|
                    0 <= i < n - 1 ==> (#[trigger] stop.frames[i]).name != "main"@
                        && stop.frames[i].name != #[trigger] (a + "::main"@)
                &&& n < 20 && n < stop.frames.len() ==> n > 0 && (stop.frames[n - 1].name
                    == "main"@ || "::main"@.is_suffix_of(stop.frames[n - 1].name))
            },
{
    let rows = backtrace_rows(stop.frames, m.cur_frame, 0);
    lemma_backtrace_rows(stop.frames, m.cur_frame, 0);
    assert(backtrace_of(m) == join(rows, "\n"@));
    assert forall|i: int, a: Seq<char>| 0 <= i < rows.len() - 1 implies (
    #[trigger] stop.frames[i]).name != "main"@ && stop.frames[i].name != #[trigger] (a
        + "::main"@) by {
        let name = stop.frames[i].name;
        if name == a + "::main"@ {
            assert(name.subrange(name.len() - "::main"@.len(), name.len() as int) =~= "::main"@);
            assert("::main"@.is_suffix_of(name));
        }
    }
}

proof fn lemma_source_rows(ls: Seq<Seq<char>>, at: int, i: int, hi: int)
    requires
        0 <= i <= hi <= ls.len(),
    ensures
        source_rows(ls, at, i, hi).len() == hi - i,
        forall|c: int|
            i <= c < hi ==> source_rows(ls, at, i, hi)[c - i] == source_row(
                #[trigger] ls[c],
                c,
                at,
            ),
    decreases hi - i,
{
    if i < hi {
        lemma_source_rows(ls, at, i + 1, hi);
        let rest = source_rows(ls, at, i + 1, hi);
        let rows = source_rows(ls, at, i, hi);
        assert forall|c: int| i <= c < hi implies rows[c - i] == source_row(
            #[trigger] ls[c],
            c,
            at,
        ) by {
            if c > i {
                assert(rows[c - i] == rest[c - (i + 1)]);
            }
        }
    }
}

/// The source that is shown is every line of the file that lies at most
/// `radius` away from the frame's, in order and with its number, and an arrow
/// stands at the frame's line alone.
pub proof fn the_source_around_a_frame_is_shown(
    m: SessionModel,
    f: FrameModel,
    radius: int,
    source: Source,
    text: Seq<char>,
)
    requires
        frame_of(m) == Some(f),
        source matches Source::Text(t) && t@ == text,
        0 <= radius,
        1 <= f.line <= lines_of(text).len(),
    ensures
        exists|rows: Seq<Seq<char>>, first: int|
            {
                let ls = lines_of(text);
                &&& source_of(m, radius, source) == #[trigger] join(rows, "\n"@)
                &&& rows.len() > 0
                &&& rows[0] == "  "@ + f.file + ":"@ + int_text(f.line) + "  (frame #"@ + int_text(
                    m.cur_frame,
                ) + " "@ + f.name + ")"@
                &&& #[trigger] lines_shown(rows, first, f.line, lines_of(text))
                &&& 1 <= first <= f.line <= first + rows.len() - 2 <= ls.len()
                &&& first == f.line - radius || (first == 1 && f.line - radius < 1)
                &&& first + rows.len() - 2 == f.line + radius || (first + rows.len() - 2 == ls.len()
                    && f.line + radius > ls.len())
            },
{
    let ls = lines_of(text);
    let lo = source_from(f.line, radius);
    let hi = source_to(f.line, radius, ls.len() as int);
    let own = source_rows(ls, f.line, lo, hi);
    lemma_source_rows(ls, f.line, lo, hi);
    let head = "  "@ + f.file + ":"@ + int_text(f.line) + "  (frame #"@ + int_text(m.cur_frame)
        + " "@ + f.name + ")"@;
    let rows = seq![head] + own;
    assert(source_of(m, radius, source) == join(rows, "\n"@));
    assert forall|n: int| lo + 1 <= n <= lo + rows.len() - 1 implies rows[n - (lo + 1) + 1]
        == numbered(#[trigger] ls[n - 1], n, n == f.line) by {
        assert(rows[n - (lo + 1) + 1] == own[n - 1 - lo]);
    }
    assert(lines_shown(rows, lo + 1, f.line, ls));
}

/// A line with its number, behind an arrow where it is marked.
pub open spec fn numbered(line: Seq<char>, n: int, marked: bool) -> Seq<char> {
    "  "@ + (if marked {
        "->"@
    } else {
        "  "@
    }) + " "@ + padded_left(int_text(n), 5) + " | "@ + line
}

/// The rows behind the first are the lines from number `first` on, each with
/// its number, the one at `at` marked.
pub open spec fn lines_shown(
    rows: Seq<Seq<char>>,
    first: int,
    at: int,
    ls: Seq<Seq<char>>,
) -> bool {
    forall|n: int|
        first <= n <= first + rows.len() - 2 ==> rows[n - first + 1] == numbered(
            #[trigger] ls[n - 1],
            n,
            n == at,
        )
}

proof fn lemma_texts_without(v: Seq<Seq<char>>, s: Seq<char>)
    ensures
        texts_without(v, s) == v.filter(|t: Seq<char>| t != s),
    decreases v.len(),
{
    reveal(Seq::filter);
    if v.len() > 0 {
        lemma_texts_without(v.drop_last(), s);
    }
}

/// A watch expression that is added stands behind the others; one that is
/// removed is gone wherever it stood, and all others stay in their order; any
/// other action leaves them as they are.
pub proof fn watches_are_added_and_removed(
    watches: Seq<Seq<char>>,
    action: Seq<char>,
    e: Seq<char>,
)
    ensures
        watches_after(watches, "add"@, Some(e)) == watches.push(e),
        watches_after(watches, "rm"@, Some(e)) == watches.filter(|t: Seq<char>| t != e),
        !watches_after(watches, "rm"@, Some(e)).contains(e),
        action != "add"@ && action != "rm"@ ==> watches_after(watches, action, Some(e)) == watches,
        watches_after(watches, action, None) == watches,
        !watches.contains(e) ==> watches_after(
            watches_after(watches, "add"@, Some(e)),
            "rm"@,
            Some(e),
        ) == watches,
{
    reveal_strlit("add");
    reveal_strlit("rm");
    assert("add"@.len() == 3 && "rm"@.len() == 2);
    lemma_texts_without(watches, e);
    let left = watches.filter(|t: Seq<char>| t != e);
    if left.contains(e) {
        let i = choose|i: int| 0 <= i < left.len() && left[i] == e;
        watches.lemma_filter_pred(|t: Seq<char>| t != e, i);
    }
    if !watches.contains(e) {
        lemma_texts_without(watches.push(e), e);
        lemma_nothing_removed(watches, e);
        assert(watches.push(e).drop_last() =~= watches);
    }
}

proof fn lemma_nothing_removed(v: Seq<Seq<char>>, s: Seq<char>)
    requires
        !v.contains(s),
    ensures
        texts_without(v, s) == v,
    decreases v.len(),
{
    if v.len() > 0 {
        assert(v.contains(v.last()));
        assert forall|i: int| 0 <= i < v.len() - 1 implies v.drop_last()[i] != s by {
            assert(v.contains(v[i]));
        }
        lemma_nothing_removed(v.drop_last(), s);
        assert(v.drop_last().push(v.last()) =~= v);
    }
}

/// What the program prints is kept behind what it printed before; an event
/// that is no output adds nothing.
pub proof fn output_is_kept_in_order(output: Seq<Seq<char>>, ev: Doc, text: Seq<char>)
    ensures
        ev.at("event"@) == Doc::Str("output"@) && ev.at("body"@).at("output"@) == Doc::Str(text)
            ==> output_after(output, ev) == output.push(text) && concat(output_after(output, ev))
            == concat(output) + text,
        ev.at("event"@) != Doc::Str("output"@) ==> output_after(output, ev) == output,
{
    lemma_join_push(output, Seq::empty(), text);
    if output.len() == 0 {
        assert(concat(output) + text =~= text);
    } else {
        assert(join(output, Seq::empty()) + Seq::<char>::empty() + text =~= concat(output) + text);
    }
}

proof fn lemma_line_in(lines: Seq<int>, line: int, x: int)
    ensures
        with_line(lines, line).contains(x) <==> x == line || lines.contains(x),
        without_line(lines, line).contains(x) <==> x != line && lines.contains(x),
    decreases lines.len(),
{
    broadcast use vstd::seq_lib::group_seq_properties;

    if lines.len() > 0 {
        let rest = lines.drop_last();
        lemma_line_in(rest, line, x);
        assert(lines =~= rest.push(lines.last()));
        assert(lines.contains(x) <==> rest.contains(x) || x == lines.last()) by {
            if lines.contains(x) {
                let i = choose|i: int| 0 <= i < lines.len() && lines[i] == x;
                if i < rest.len() {
                    assert(rest[i] == x);
                }
            }
            if rest.contains(x) {
                let i = choose|i: int| 0 <= i < rest.len() && rest[i] == x;
                assert(lines[i] == x);
            }
            assert(lines[lines.len() - 1] == lines.last());
        }
        lemma_pushed(with_line(rest, line), lines.last(), x);
        lemma_pushed(without_line(rest, line), lines.last(), x);
        lemma_pushed(lines, line, x);
    } else {
        lemma_pushed(lines, line, x);
    }
}

proof fn lemma_pushed(v: Seq<int>, last: int, x: int)
    ensures
        v.push(last).contains(x) <==> v.contains(x) || x == last,
{
    if v.contains(x) {
        let i = choose|i: int| 0 <= i < v.len() && v[i] == x;
        assert(v.push(last)[i] == x);
    }
    assert(v.push(last)[v.len() as int] == last);
    if v.push(last).contains(x) {
        let i = choose|i: int| 0 <= i < v.push(last).len() && v.push(last)[i] == x;
        if i < v.len() {
            assert(v[i] == x);
        }
    }
}

/// A line to stop at once is one of its file's then, and no other comes or
/// goes, there or in another file; a line that is taken back is none of them.
pub proof fn lines_to_stop_at_come_and_go_alone(
    m: SessionModel,
    path: Seq<char>,
    line: int,
    other: Seq<char>,
    x: int,
)
    requires
        m.wf(),
    ensures
        temps_of(temp_added(m, path, line).temp, path).contains(x) <==> x == line || temps_of(
            m.temp,
            path,
        ).contains(x),
        temps_of(temp_removed(m, path, line).temp, path).contains(x) <==> x != line && temps_of(
            m.temp,
            path,
        ).contains(x),
        other != path ==> temps_of(temp_added(m, path, line).temp, other) == temps_of(m.temp, other)
            && temps_of(temp_removed(m, path, line).temp, other) == temps_of(m.temp, other),
        temp_added(m, path, line).line_bps == m.line_bps,
        temp_removed(m, path, line).line_bps == m.line_bps,
{
    lemma_line_in(temps_of(m.temp, path), line, x);
    lemma_line_in(Seq::empty(), line, x);
    lemma_temps_after(m.temp, path, with_line(temps_of(m.temp, path), line), path);
    lemma_temps_after(m.temp, path, with_line(temps_of(m.temp, path), line), other);
    lemma_temp_index(m.temp, path, 0);
    if temp_index(m.temp, path, 0) is Some {
        lemma_temps_after(m.temp, path, without_line(temps_of(m.temp, path), line), path);
        lemma_temps_after(m.temp, path, without_line(temps_of(m.temp, path), line), other);
    }
}

/// The files with the lines of one of them set.
spec fn temps_set(ts: Seq<TempModel>, path: Seq<char>, lines: Seq<int>) -> Seq<TempModel> {
    match temp_index(ts, path, 0) {
        Some(i) => ts.update(i, TempModel { path: ts[i].path, lines }),
        None => ts.push(TempModel { path, lines }),
    }
}

proof fn lemma_temps_after(ts: Seq<TempModel>, path: Seq<char>, lines: Seq<int>, other: Seq<char>)
    ensures
        temps_of(temps_set(ts, path, lines), other) == if other == path {
            lines
        } else {
            temps_of(ts, other)
        },
{
    let us = temps_set(ts, path, lines);
    lemma_temp_index(ts, path, 0);
    lemma_temp_index(ts, other, 0);
    match temp_index(ts, path, 0) {
        Some(i) => {
            assert forall|j: int| 0 <= j < us.len() implies (#[trigger] us[j]).path
                == ts[j].path by {}
            match temp_index(ts, other, 0) {
                Some(k) => {
                    assert(us[k].path == other);
                    assert forall|j: int| 0 <= j < k implies (#[trigger] us[j]).path != other by {
                        assert(ts[j].path != other);
                    }
                    lemma_temp_found(us, other, 0, k);
                },
                None => {
                    lemma_temp_index(us, other, 0);
                    if let Some(k) = temp_index(us, other, 0) {
                        assert(ts[k].path == us[k].path);
                    }
                },
            }
        },
        None => {
            let n = ts.len() as int;
            if other == path {
                assert forall|j: int| 0 <= j < n implies (#[trigger] us[j]).path != path by {
                    assert(ts[j].path != path);
                }
                lemma_temp_found(us, path, 0, n);
            } else {
                match temp_index(ts, other, 0) {
                    Some(k) => {
                        assert(us[k].path == other);
                        assert forall|j: int| 0 <= j < k implies (#[trigger] us[j]).path
                            != other by {
                            assert(ts[j].path != other);
                        }
                        lemma_temp_found(us, other, 0, k);
                    },
                    None => {
                        lemma_temp_index(us, other, 0);
                        if let Some(k) = temp_index(us, other, 0) {
                            if k < n {
                                assert(ts[k].path == us[k].path);
                            }
                        }
                    },
                }
            }
        },
    }
}

} // verus!
