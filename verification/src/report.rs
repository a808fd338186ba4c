//! Responses as the client shows them: as text, and as one JSON object with
//! its outcome.

use vstd::prelude::*;
use crate::daemon::{stamp, stamped};
use crate::json::{docs, no_keys, opt_view, Doc, Json};
use crate::num::{int_text, show_int};
use crate::text::{
    contains, join, join_all, lemma_join_push, occurs_at, owned, same, trim_back, trimmed_end, views,
};

verus! {

// ---------------------------------------------------------------------------
// JSON
// ---------------------------------------------------------------------------

/// A failure with its outcome.
pub open spec fn error_doc(status: Seq<char>, msg: Seq<char>) -> Doc {
    no_keys().with("ok"@, Doc::Bool(false)).with("status"@, Doc::Str(status)).with(
        "error"@,
        Doc::Str(msg),
    )
}

/// A client-side failure in the same shape the daemon uses, so `--json` output
/// is uniform no matter where the failure happened.
pub fn err_value(status: &str, msg: &str) -> (r: Json)
    ensures
        r@ == error_doc(status@, msg@),
{
    Json::obj().with("ok", Json::boolean(false)).with("status", Json::text(status)).with(
        "error",
        Json::text(msg),
    )
}

/// The exit code of a value: 0 where its outcome is a success, 2 for an error
/// of the user's, 1 otherwise.
pub open spec fn exit_code(v: Doc) -> int {
    let status = v.at("status"@).text();
    if status == Some("ok"@) {
        0
    } else if status == Some("user_error"@) {
        2
    } else {
        1
    }
}

pub fn code_of(v: &Json) -> (r: i32)
    ensures
        r == exit_code(v@),
{
    match v.at("status").as_str() {
        Some(t) => if same(t, "ok") {
            0
        } else if same(t, "user_error") {
            2
        } else {
            1
        },
        None => 1,
    }
}

/// A definite response: one that did not come is a timeout, and an object
/// without an outcome gets one.
pub open spec fn definite(resp: Option<Doc>) -> Doc {
    match resp {
        Some(d) => if d is Obj {
            stamped(d)
        } else {
            d
        },
        None => error_doc("timeout"@, "the rdbg daemon did not respond"@),
    }
}

/// A definite JSON response: no reply within the timeout becomes a `timeout`
/// error object, and a reply from an older daemon without `status` gets one
/// derived from `ok`/`error`.
pub fn jresp(resp: Option<Json>) -> (r: Json)
    ensures
        r@ == definite(opt_view(resp)),
{
    match resp {
        Some(v) => if v.is_object() {
            stamp(v)
        } else {
            v
        },
        None => err_value("timeout", "the rdbg daemon did not respond"),
    }
}

pub open spec fn is_ok(d: Doc) -> bool {
    d.at("ok"@).bool_or(false)
}

/// The error that a response gives.
pub open spec fn error_line(d: Doc) -> Seq<char> {
    "error: "@ + d.at("error"@).text_or("unknown"@)
}

pub fn ok(v: &Json) -> (r: bool)
    ensures
        r == is_ok(v@),
{
    v.at("ok").bool_or(false)
}

pub fn show_error(v: &Json) -> (r: String)
    ensures
        r@ == error_line(v@),
{
    let mut r = String::from_str("error: ");
    let e = v.at("error").str_or("unknown");
    r.append(e.as_str());
    r
}

// ---------------------------------------------------------------------------
// Stops
// ---------------------------------------------------------------------------

/// How a run until a condition ended, where a stop says so.
pub open spec fn until_line(stop: Doc) -> Option<Seq<char>> {
    let u = stop.at("until"@);
    let cond = u.at("cond"@).text_or("?"@);
    let stops = int_text(u.at("stops"@).int_or(0));
    let outcome = u.at("outcome"@).text();
    if outcome == Some("held"@) {
        Some(
            ">>> UNTIL: condition `"@ + cond + "` held after "@ + stops + " stop(s) — observed "@
                + u.at("observed"@).text_or("?"@),
        )
    } else if outcome == Some("exited"@) {
        Some(
            ">>> UNTIL: program exited after "@ + stops + " stop(s) without `"@ + cond
                + "` holding"@,
        )
    } else if outcome == Some("cap"@) {
        Some(
            ">>> UNTIL: gave up after "@ + stops + " stops (safety cap) without `"@ + cond
                + "` holding — still paused at the last stop"@,
        )
    } else {
        None
    }
}

/// The `continue --until` outcome line, when the stop carries one: says whether
/// the condition held (and the observed value), or why the loop gave up.
pub fn until_note(stop: &Json) -> (r: Option<String>)
    ensures
        match r {
            Some(t) => until_line(stop@) == Some(t@),
            None => until_line(stop@) is None,
        },
{
    let u = stop.at("until");
    let cond = u.at("cond").str_or("?");
    let n = u.at("stops").int_or(0);
    let stops = show_int(n);
    let outcome = match u.at("outcome").as_str() {
        Some(o) => o,
        None => return None,
    };
    if same(outcome, "held") {
        let mut r = String::from_str(">>> UNTIL: condition `");
        r.append(cond.as_str());
        r.append("` held after ");
        r.append(stops.as_str());
        r.append(" stop(s) — observed ");
        let v = u.at("observed").str_or("?");
        r.append(v.as_str());
        Some(r)
    } else if same(outcome, "exited") {
        let mut r = String::from_str(">>> UNTIL: program exited after ");
        r.append(stops.as_str());
        r.append(" stop(s) without `");
        r.append(cond.as_str());
        r.append("` holding");
        Some(r)
    } else if same(outcome, "cap") {
        let mut r = String::from_str(">>> UNTIL: gave up after ");
        r.append(stops.as_str());
        r.append(" stops (safety cap) without `");
        r.append(cond.as_str());
        r.append("` holding — still paused at the last stop");
        Some(r)
    } else {
        None
    }
}

/// What is said of a breakpoint that did not fire.
pub open spec fn unfired(b: Doc) -> Option<Seq<char>> {
    let loc = b.at("loc"@).text_or("?"@);
    if !b.at("verified"@).bool_or(true) {
        Some(
            "  "@ + loc
                + "  — NOT BOUND (name/path unresolved; check spelling, or the symbol may not exist / be inlined)"@,
        )
    } else if b.at("hits"@).nat_or_zero() == 0 {
        Some("  "@ + loc + "  — bound, 0 hits (never reached on this input)"@)
    } else {
        None
    }
}

/// The breakpoints that did not fire.
pub open spec fn unfired_rows(bps: Seq<Doc>) -> Seq<Seq<char>>
    decreases bps.len(),
{
    if bps.len() == 0 {
        Seq::empty()
    } else {
        match unfired(bps.last()) {
            Some(t) => unfired_rows(bps.drop_last()).push(t),
            None => unfired_rows(bps.drop_last()),
        }
    }
}

/// What is said of the breakpoints at the end of a program.
pub open spec fn unfired_note(stop: Doc) -> Seq<char> {
    let rows = unfired_rows(stop.at("breakpoints"@).items());
    if rows.len() == 0 {
        ""@
    } else {
        "\nbreakpoints that did not fire:\n"@ + join(rows, "\n"@)
            + "\n(bound-but-0-hits = the code didn't run that line/fn on this input; the value may be produced by a different path — try another break location.)"@
    }
}

/// The output at the end of a program.
pub open spec fn output_note(stop: Doc) -> Seq<char> {
    match stop.at("output"@).text() {
        Some(o) => if o.len() > 0 {
            "\n--- program output ---\n"@ + trimmed_end(o)
        } else {
            ""@
        },
        None => ""@,
    }
}

/// The end of a program as text.
pub open spec fn exit_text(stop: Doc) -> Seq<char> {
    let code = match stop.at("exit_code"@).int64() {
        Some(n) => int_text(n),
        None => "?"@,
    };
    let head = match until_line(stop) {
        Some(n) => n + "\n"@,
        None => ""@,
    };
    head + ">>> program exited (code "@ + code + ")"@ + unfired_note(stop) + output_note(stop)
}

/// A text under a key, with a label, where it is not empty.
pub open spec fn labelled(stop: Doc, key: Seq<char>, label: Seq<char>) -> Seq<Seq<char>> {
    match stop.at(key).text() {
        Some(t) => if t.len() > 0 {
            seq![label + t]
        } else {
            Seq::empty()
        },
        None => Seq::empty(),
    }
}

/// A stop as text.
pub open spec fn stop_text(stop: Doc) -> Seq<char> {
    if stop is Null {
        "(no stop — not paused)"@
    } else if stop.at("exited"@).bool_or(false) {
        exit_text(stop)
    } else {
        let first = match until_line(stop) {
            Some(n) => seq![n],
            None => Seq::empty(),
        };
        let head = ">>> STOP ["@ + stop.at("reason"@).text_or("?"@) + "] "@ + stop.at(
            "frame"@,
        ).text_or("?"@) + "  (thread "@ + int_text(stop.at("thread"@).int_or(0)) + ")"@;
        join(
            first.push(head) + labelled(stop, "source"@, ""@) + labelled(
                stop,
                "delta"@,
                "changed:\n"@,
            ) + labelled(stop, "watches"@, "watches:\n"@),
            "\n"@,
        )
    }
}

fn show_unfired(b: &Json) -> (r: Option<String>)
    ensures
        match r {
            Some(t) => unfired(b@) == Some(t@),
            None => unfired(b@) is None,
        },
{
    let loc = b.at("loc").str_or("?");
    if !b.at("verified").bool_or(true) {
        let mut r = String::from_str("  ");
        r.append(loc.as_str());
        r.append(
            "  — NOT BOUND (name/path unresolved; check spelling, or the symbol may not exist / be inlined)",
        );
        Some(r)
    } else if b.at("hits").nat_or_zero() == 0 {
        let mut r = String::from_str("  ");
        r.append(loc.as_str());
        r.append("  — bound, 0 hits (never reached on this input)");
        Some(r)
    } else {
        None
    }
}

fn fmt_unfired(stop: &Json) -> (r: String)
    ensures
        r@ == unfired_note(stop@),
{
    let mut rows: Vec<String> = Vec::new();
    assert(views(rows@) =~= Seq::empty());
    match stop.at("breakpoints").as_array() {
        Some(a) => {
            let ghost all = docs(a@);
            let mut i: usize = 0;
            assert(all.take(0) =~= Seq::empty());
            while i < a.len()
                invariant
                    i <= a.len(),
                    all == docs(a@),
                    views(rows@) == unfired_rows(all.take(i as int)),
                decreases a.len() - i,
            {
                assert(all.take(i + 1).drop_last() =~= all.take(i as int));
                assert(all.take(i + 1).last() == a@[i as int]@);
                let ghost before = views(rows@);
                match show_unfired(&a[i]) {
                    Some(t) => {
                        let ghost text = t@;
                        rows.push(t);
                        assert(views(rows@) =~= before.push(text));
                    },
                    None => {},
                }
                i += 1;
            }
            assert(all.take(all.len() as int) =~= all);
        },
        None => {},
    }
    if rows.len() == 0 {
        return owned("");
    }
    let mut out = String::from_str("\nbreakpoints that did not fire:\n");
    let joined = join_all(&rows, "\n");
    out.append(joined.as_str());
    out.append(
        "\n(bound-but-0-hits = the code didn't run that line/fn on this input; the value may be produced by a different path — try another break location.)",
    );
    out
}

fn fmt_exit(stop: &Json) -> (r: String)
    ensures
        r@ == exit_text(stop@),
{
    let mut out = match until_note(stop) {
        Some(n) => {
            let mut t = n;
            t.append("\n");
            t
        },
        None => owned(""),
    };
    out.append(">>> program exited (code ");
    let code = match stop.at("exit_code").as_i64() {
        Some(n) => show_int(n),
        None => owned("?"),
    };
    out.append(code.as_str());
    out.append(")");
    // flag breakpoints that never fired — the #1 confusion when a run exits unexpectedly
    let notes = fmt_unfired(stop);
    out.append(notes.as_str());
    let mut shown = String::from_str("");
    if let Some(o) = stop.at("output").as_str() {
        if !o.is_empty() {
            shown = String::from_str("\n--- program output ---\n");
            let t = trim_back(o);
            shown.append(t.as_str());
        }
    }
    out.append(shown.as_str());
    out
}

fn push_labelled(lines: &mut Vec<String>, stop: &Json, key: &str, label: &str)
    ensures
        views(final(lines)@) == views(old(lines)@) + labelled(stop@, key@, label@),
{
    let ghost before = views(lines@);
    if let Some(t) = stop.at(key).as_str() {
        if !t.is_empty() {
            let mut r = owned(label);
            r.append(t);
            let ghost text = r@;
            lines.push(r);
            assert(views(lines@) =~= before + seq![text]);
            return;
        }
    }
    assert(views(lines@) + Seq::<Seq<char>>::empty() =~= views(lines@));
}

/// Render a stop summary as text (returned, not printed — callers print it,
/// or thread it through `do` / MCP).
pub fn fmt_stop(stop: &Json) -> (r: String)
    ensures
        r@ == stop_text(stop@),
{
    if stop.is_null() {
        return owned("(no stop — not paused)");
    }
    if stop.at("exited").bool_or(false) {
        return fmt_exit(stop);
    }
    let mut lines: Vec<String> = Vec::new();
    assert(views(lines@) =~= Seq::empty());
    if let Some(n) = until_note(stop) {
        let ghost text = n@;
        lines.push(n);
        assert(views(lines@) =~= seq![text]);
    }
    let mut head = String::from_str(">>> STOP [");
    let reason = stop.at("reason").str_or("?");
    head.append(reason.as_str());
    head.append("] ");
    let frame = stop.at("frame").str_or("?");
    head.append(frame.as_str());
    head.append("  (thread ");
    let n = stop.at("thread").int_or(0);
    let thread = show_int(n);
    head.append(thread.as_str());
    head.append(")");
    let ghost before = views(lines@);
    let ghost text = head@;
    lines.push(head);
    assert(views(lines@) =~= before.push(text));
    push_labelled(&mut lines, stop, "source", "");
    push_labelled(&mut lines, stop, "delta", "changed:\n");
    push_labelled(&mut lines, stop, "watches", "watches:\n");
    join_all(&lines, "\n")
}

/// A response with a stop, as text.
pub open spec fn result_stop_text(r: Option<Doc>) -> Seq<char> {
    match r {
        Some(v) => if is_ok(v) {
            stop_text(v.at("stop"@))
        } else {
            error_line(v)
        },
        None => "error: daemon did not respond"@,
    }
}

pub fn fmt_result_stop(r: &Option<Json>) -> (t: String)
    ensures
        t@ == result_stop_text(opt_view(*r)),
{
    match r {
        Some(v) => if ok(v) {
            fmt_stop(v.at("stop"))
        } else {
            show_error(v)
        },
        None => owned("error: daemon did not respond"),
    }
}

/// A response with a text under a key.
pub open spec fn field_text(r: Option<Doc>, field: Seq<char>) -> Seq<char> {
    match r {
        Some(v) => if is_ok(v) {
            v.at(field).text_or(""@)
        } else {
            error_line(v)
        },
        None => "error: daemon did not respond"@,
    }
}

pub fn fmt_field(r: &Option<Json>, field: &str) -> (t: String)
    ensures
        t@ == field_text(opt_view(*r), field@),
{
    match r {
        Some(v) => if ok(v) {
            v.at(field).str_or("")
        } else {
            show_error(v)
        },
        None => owned("error: daemon did not respond"),
    }
}

/// A definite response that was an object, or did not come, has an outcome.
pub proof fn definite_responses_have_a_status(resp: Option<Doc>)
    requires
        resp matches Some(d) ==> d is Obj,
    ensures
        definite(resp).has("status"@),
        resp is None ==> definite(resp).at("status"@) == Doc::Str("timeout"@),
{
    reveal_strlit("status");
    reveal_strlit("error");
    reveal_strlit("ok");
    assert("status"@.len() == 6 && "error"@.len() == 5 && "ok"@.len() == 2);
}

// ---------------------------------------------------------------------------
// What is shown of a stop
// ---------------------------------------------------------------------------

proof fn lemma_join_two(a: Seq<char>, b: Seq<char>, sep: Seq<char>)
    ensures
        join(seq![a, b], sep) == a + sep + b,
{
    lemma_join_push(seq![a], sep, b);
    assert(seq![a].push(b) =~= seq![a, b]);
}

proof fn lemma_join_four(
    a: Seq<char>,
    b: Seq<char>,
    c: Seq<char>,
    d: Seq<char>,
    sep: Seq<char>,
)
    ensures
        join(seq![a, b, c, d], sep) == a + sep + b + sep + c + sep + d,
{
    lemma_join_two(a, b, sep);
    lemma_join_push(seq![a, b], sep, c);
    assert(seq![a, b].push(c) =~= seq![a, b, c]);
    lemma_join_push(seq![a, b, c], sep, d);
    assert(seq![a, b, c].push(d) =~= seq![a, b, c, d]);
}

/// A stop is shown by its reason, its frame and its thread, then the source
/// around it, then what changed, then the watches, each where there is any and
/// nothing of it where there is none.
pub proof fn a_stop_shows_where_it_is_and_what_changed(
    stop: Doc,
    reason: Seq<char>,
    frame: Seq<char>,
    thread: int,
    source: Seq<char>,
    delta: Seq<char>,
    watches: Seq<char>,
)
    requires
        stop.at("exited"@) != Doc::Bool(true),
        stop.at("until"@) is Null,
        stop.at("reason"@) == Doc::Str(reason),
        stop.at("frame"@) == Doc::Str(frame),
        stop.at("thread"@) == Doc::Int(thread),
        i64::MIN <= thread <= i64::MAX,
        stop.at("source"@) == Doc::Str(source),
        stop.at("delta"@) == Doc::Str(delta),
        stop.at("watches"@) == Doc::Str(watches),
    ensures
        ({
            let head = ">>> STOP ["@ + reason + "] "@ + frame + "  (thread "@ + int_text(thread)
                + ")"@;
            &&& source.len() == 0 && delta.len() == 0 && watches.len() == 0 ==> stop_text(stop)
                == head
            &&& source.len() > 0 && delta.len() == 0 && watches.len() == 0 ==> stop_text(stop)
                == head + "\n"@ + source
            &&& source.len() == 0 && delta.len() > 0 && watches.len() == 0 ==> stop_text(stop)
                == head + "\n"@ + ("changed:\n"@ + delta)
            &&& source.len() == 0 && delta.len() == 0 && watches.len() > 0 ==> stop_text(stop)
                == head + "\n"@ + ("watches:\n"@ + watches)
            &&& source.len() > 0 && delta.len() > 0 && watches.len() > 0 ==> stop_text(stop) == head
                + "\n"@ + source + "\n"@ + ("changed:\n"@ + delta) + "\n"@ + ("watches:\n"@
                + watches)
        }),
{
    let head = ">>> STOP ["@ + reason + "] "@ + frame + "  (thread "@ + int_text(thread) + ")"@;
    let a = ""@ + source;
    reveal_strlit("");
    assert(a =~= source);
    let b = "changed:\n"@ + delta;
    let c = "watches:\n"@ + watches;
    let none = Seq::<Seq<char>>::empty();
    let sa = labelled(stop, "source"@, ""@);
    let sb = labelled(stop, "delta"@, "changed:\n"@);
    let sc = labelled(stop, "watches"@, "watches:\n"@);
    assert(none.push(head) =~= seq![head]);
    let all = none.push(head) + sa + sb + sc;
    assert(stop_text(stop) == join(all, "\n"@));
    if source.len() > 0 && delta.len() > 0 && watches.len() > 0 {
        assert(all =~= seq![head, source, b, c]);
        lemma_join_four(head, source, b, c, "\n"@);
    } else if source.len() == 0 && delta.len() == 0 && watches.len() == 0 {
        assert(all =~= seq![head]);
    } else if delta.len() == 0 && watches.len() == 0 {
        assert(all =~= seq![head, source]);
        lemma_join_two(head, source, "\n"@);
    } else if source.len() == 0 && watches.len() == 0 {
        assert(all =~= seq![head, b]);
        lemma_join_two(head, b, "\n"@);
    } else if source.len() == 0 && delta.len() == 0 {
        assert(all =~= seq![head, c]);
        lemma_join_two(head, c, "\n"@);
    }
}

proof fn lemma_unfired_rows(bps: Seq<Doc>)
    ensures
        ({
            let idle = bps.filter(|b: Doc| unfired(b) is Some);
            let rows = unfired_rows(bps);
            &&& rows.len() == idle.len()
            &&& forall|k: int| 0 <= k < rows.len() ==> Some(#[trigger] rows[k]) == unfired(idle[k])
        }),
    decreases bps.len(),
{
    reveal(Seq::filter);
    if bps.len() > 0 {
        lemma_unfired_rows(bps.drop_last());
        let p = |b: Doc| unfired(b) is Some;
        let before = unfired_rows(bps.drop_last());
        let rows = unfired_rows(bps);
        let idle = bps.filter(p);
        if p(bps.last()) {
            assert forall|k: int| 0 <= k < rows.len() implies Some(#[trigger] rows[k]) == unfired(
                idle[k],
            ) by {
                if k < before.len() {
                    assert(rows[k] == before[k]);
                }
            }
        }
    }
}

/// When a program has ended, exactly those breakpoints are told of that did
/// not bind or were never hit, each by its place and in their order.
pub proof fn what_did_not_fire_is_told(stop: Doc, k: int)
    ensures
        ({
            let bps = stop.at("breakpoints"@).items();
            let idle = bps.filter(
                |b: Doc|
                    b.at("verified"@) == Doc::Bool(false) || b.at("hits"@).nat_or_zero() == 0,
            );
            let rows = unfired_rows(bps);
            &&& rows.len() == idle.len()
            &&& 0 <= k < rows.len() ==> ("  "@ + idle[k].at("loc"@).text_or("?"@)).is_prefix_of(
                rows[k],
            )
            &&& 0 <= k < rows.len() ==> (idle[k].at("verified"@) == Doc::Bool(false)
                <==> contains(rows[k].skip(("  "@ + idle[k].at("loc"@).text_or("?"@)).len() as int), "NOT BOUND"@))
        }),
{
    let bps = stop.at("breakpoints"@).items();
    let p = |b: Doc| unfired(b) is Some;
    let q = |b: Doc| b.at("verified"@) == Doc::Bool(false) || b.at("hits"@).nat_or_zero() == 0;
    assert(p =~= q);
    lemma_unfired_rows(bps);
    let idle = bps.filter(q);
    let rows = unfired_rows(bps);
    if 0 <= k < rows.len() {
        let head = "  "@ + idle[k].at("loc"@).text_or("?"@);
        assert(unfired(idle[k]) == Some(rows[k]));
        assert(rows[k].take(head.len() as int) =~= head);
        let a =
            "  — NOT BOUND (name/path unresolved; check spelling, or the symbol may not exist / be inlined)"@;
        let b = "  — bound, 0 hits (never reached on this input)"@;
        bps.lemma_filter_pred(q, k);
        lemma_said_of_bound();
        if idle[k].at("verified"@) == Doc::Bool(false) {
            assert(rows[k].skip(head.len() as int) =~= a);
        } else {
            assert(rows[k].skip(head.len() as int) =~= b);
        }
    }
}

proof fn lemma_said_of_bound()
    ensures
        contains(
            "  — NOT BOUND (name/path unresolved; check spelling, or the symbol may not exist / be inlined)"@,
            "NOT BOUND"@,
        ),
        !contains("  — bound, 0 hits (never reached on this input)"@, "NOT BOUND"@),
{
    reveal_strlit("NOT BOUND");
    reveal_strlit(
        "  — NOT BOUND (name/path unresolved; check spelling, or the symbol may not exist / be inlined)",
    );
    reveal_strlit("  — bound, 0 hits (never reached on this input)");
    let a =
        "  — NOT BOUND (name/path unresolved; check spelling, or the symbol may not exist / be inlined)"@;
    let b = "  — bound, 0 hits (never reached on this input)"@;
    assert(a.subrange(4, 13) =~= "NOT BOUND"@);
    assert(occurs_at(a, "NOT BOUND"@, 4));
    if contains(b, "NOT BOUND"@) {
        let i = choose|i: int| #[trigger] occurs_at(b, "NOT BOUND"@, i);
        assert(b.subrange(i, i + 9)[0] == b[i]);
        assert(b.subrange(i, i + 9)[1] == b[i + 1]);
        assert(b[i] == 'N');
    }
}

/// The end of a program is shown by its exit code, and by what it printed
/// where it printed anything, without the blanks that end that.
pub proof fn an_exit_shows_its_code_and_output(stop: Doc, code: int, output: Seq<char>)
    requires
        stop.at("exited"@) == Doc::Bool(true),
        stop.at("until"@) is Null,
        stop.at("exit_code"@) == Doc::Int(code),
        i64::MIN <= code <= i64::MAX,
        stop.at("output"@) == Doc::Str(output),
        stop.at("breakpoints"@).items().len() == 0,
    ensures
        output.len() == 0 ==> stop_text(stop) == ">>> program exited (code "@ + int_text(code)
            + ")"@,
        output.len() > 0 ==> stop_text(stop) == ">>> program exited (code "@ + int_text(code) + ")"@
            + ("\n--- program output ---\n"@ + trimmed_end(output)),
{
    reveal_strlit("");
    let head = ">>> program exited (code "@ + int_text(code) + ")"@;
    assert(unfired_rows(stop.at("breakpoints"@).items()).len() == 0);
    assert(""@ + ">>> program exited (code "@ =~= ">>> program exited (code "@);
    assert(head + ""@ =~= head);
}

/// How a run until a condition ended is told in front of the stop, for each of
/// the three ways that it can.
pub proof fn the_end_of_a_run_until_is_told(
    stop: Doc,
    cond: Seq<char>,
    stops: int,
    observed: Seq<char>,
)
    requires
        stop.at("until"@).at("cond"@) == Doc::Str(cond),
        stop.at("until"@).at("stops"@) == Doc::Int(stops),
        stop.at("until"@).at("observed"@) == Doc::Str(observed),
        i64::MIN <= stops <= i64::MAX,
    ensures
        stop.at("until"@).at("outcome"@) == Doc::Str("held"@) ==> until_line(stop) == Some(
            ">>> UNTIL: condition `"@ + cond + "` held after "@ + int_text(stops)
                + " stop(s) — observed "@ + observed,
        ),
        stop.at("until"@).at("outcome"@) == Doc::Str("exited"@) ==> until_line(stop) == Some(
            ">>> UNTIL: program exited after "@ + int_text(stops) + " stop(s) without `"@ + cond
                + "` holding"@,
        ),
        stop.at("until"@).at("outcome"@) == Doc::Str("cap"@) ==> until_line(stop) == Some(
            ">>> UNTIL: gave up after "@ + int_text(stops) + " stops (safety cap) without `"@ + cond
                + "` holding — still paused at the last stop"@,
        ),
        until_line(stop) is Some && stop.at("exited"@) == Doc::Bool(true) ==> (until_line(stop)->0
            + "\n"@).is_prefix_of(stop_text(stop)),
{
    reveal_strlit("held");
    reveal_strlit("exited");
    reveal_strlit("cap");
    assert("held"@.len() == 4 && "exited"@.len() == 6 && "cap"@.len() == 3);
    if let Some(line) = until_line(stop) {
        if stop.at("exited"@) == Doc::Bool(true) {
            let a = line + "\n"@;
            assert(stop_text(stop).take(a.len() as int) =~= a);
        }
    }
}

/// A response that is a success is shown by what it holds, a failure by its
/// error, and one that did not come by that.
pub proof fn responses_are_shown_by_what_they_hold(
    d: Doc,
    field: Seq<char>,
    text: Seq<char>,
    error: Seq<char>,
)
    ensures
        d.at("ok"@) == Doc::Bool(true) && d.at(field) == Doc::Str(text) ==> field_text(
            Some(d),
            field,
        ) == text,
        d.at("ok"@) == Doc::Bool(true) ==> result_stop_text(Some(d)) == stop_text(d.at("stop"@)),
        d.at("ok"@) != Doc::Bool(true) && d.at("error"@) == Doc::Str(error) ==> field_text(
            Some(d),
            field,
        ) == "error: "@ + error && result_stop_text(Some(d)) == "error: "@ + error,
        field_text(None, field) == "error: daemon did not respond"@,
        result_stop_text(None) == "error: daemon did not respond"@,
{
}

} // verus!
