//! `do`: several subcommands in one call.

use vstd::prelude::*;
use crate::client::{aggregate, command_need, run_command_full, Rendered, Shown, USAGE};
use crate::json::{docs, no_keys, Doc, Json};
use crate::report::{err_value, error_doc, is_ok, ok};
use crate::text::{
    begins, concat, concat_all, contains, copy_from, debug_text, has_text, lemma_join_push, lines,
    lines_of, same,
    show_debug, split_char, split_on, split_white, trim, trim_front, trimmed, trimmed_start, views,
    words,
};
use crate::wants::{answers_in, Answer, AnswerModel, Need, Pending};

verus! {

/// A subcommand of a batch, and its result.
pub ghost struct Step {
    pub part: Seq<char>,
    pub shown: Shown,
}

struct Ran {
    part: String,
    result: Rendered,
}

impl View for Ran {
    type V = Step;

    closed spec fn view(&self) -> Step {
        Step { part: self.part@, shown: self.result@ }
    }
}

spec fn steps_in(v: Seq<Ran>) -> Seq<Step> {
    Seq::new(v.len(), |i: int| v[i]@)
}

/// A text that reports an error.
pub open spec fn reports_error(text: Seq<char>) -> bool {
    exists|i: int|
        0 <= i < lines_of(text).len() && "error:"@.is_prefix_of(
            trimmed_start(#[trigger] lines_of(text)[i]),
        )
}

/// The subcommand failed, or is none.
pub open spec fn failed(s: Step) -> bool {
    s.shown.text == USAGE@ || reports_error(s.shown.text) || !is_ok(s.shown.value)
}

/// The subcommand saw the program exit.
pub open spec fn saw_exit(s: Step) -> bool {
    contains(s.shown.text, ">>> program exited"@)
}

/// The subcommands of a script, from part `i` on, up to the first that fails
/// or sees the program exit.
pub open spec fn batch_need(
    parts: Seq<Seq<char>>,
    i: int,
    done: Seq<Step>,
    cwd: Seq<char>,
    answers: Seq<AnswerModel>,
    at: int,
) -> Need<Seq<Step>>
    decreases parts.len() - i,
{
    if i < 0 || i >= parts.len() {
        Need::Done(done, at)
    } else {
        let part = trimmed(parts[i]);
        let toks = words(part);
        if toks.len() == 0 {
            batch_need(parts, i + 1, done, cwd, answers, at)
        } else {
            match command_need(toks[0], toks.skip(1), cwd, answers, at) {
                Need::Want(w) => Need::Want(w),
                Need::Done(shown, n) => {
                    let s = Step { part, shown };
                    if failed(s) || saw_exit(s) {
                        Need::Done(done.push(s), n)
                    } else {
                        batch_need(parts, i + 1, done.push(s), cwd, answers, n)
                    }
                },
            }
        }
    }
}

/// A subcommand and its result as text.
pub open spec fn step_text(s: Step) -> Seq<char> {
    if s.shown.text == USAGE@ {
        "$ "@ + s.part + "\nerror: unknown subcommand "@ + debug_text(words(s.part)[0])
            + " (not usable inside `do`)\n\n"@
    } else {
        "$ "@ + s.part + "\n"@ + s.shown.text + "\n\n"@
    }
}

pub open spec fn step_texts(steps: Seq<Step>) -> Seq<Seq<char>> {
    Seq::new(steps.len(), |i: int| step_text(steps[i]))
}

pub open spec fn any_failed(steps: Seq<Step>) -> bool {
    exists|i: int| 0 <= i < steps.len() && failed(#[trigger] steps[i])
}

/// The first result from `i` on with an outcome that is no success.
pub open spec fn first_bad(steps: Seq<Step>, i: int) -> Option<Doc>
    decreases steps.len() - i,
{
    if i < 0 || i >= steps.len() {
        None
    } else {
        let v = steps[i].shown.value;
        match v.at("status"@).text() {
            Some(t) => if t == "ok"@ {
                first_bad(steps, i + 1)
            } else {
                Some(v)
            },
            None => first_bad(steps, i + 1),
        }
    }
}

pub open spec fn step_docs(steps: Seq<Step>) -> Seq<Doc> {
    Seq::new(
        steps.len(),
        |i: int|
            no_keys().with("cmd"@, Doc::Str(steps[i].part)).with(
                "response"@,
                steps[i].shown.value,
            ),
    )
}

/// The value of a batch: the first outcome that is no success, or a success.
pub open spec fn batch_value(steps: Seq<Step>) -> Doc {
    let head = match first_bad(steps, 0) {
        Some(d) => aggregate(Some(d)),
        None => if any_failed(steps) {
            error_doc("user_error"@, "a subcommand reported an error"@)
        } else {
            aggregate(None)
        },
    };
    head.with("steps"@, Doc::Arr(step_docs(steps)))
}

/// A batch: its text, whether a subcommand failed, and its value.
pub ghost struct BatchModel {
    pub text: Seq<char>,
    pub errored: bool,
    pub value: Doc,
}

/// A batch: its text, whether a subcommand failed, and its value.
pub struct Batch {
    pub text: String,
    pub errored: bool,
    pub value: Json,
}

impl View for Batch {
    type V = BatchModel;

    open spec fn view(&self) -> BatchModel {
        BatchModel { text: self.text@, errored: self.errored, value: self.value@ }
    }
}

pub open spec fn batch_of(steps: Seq<Step>) -> BatchModel {
    BatchModel {
        text: concat(step_texts(steps)),
        errored: any_failed(steps),
        value: batch_value(steps),
    }
}

/// A script of subcommands.
pub open spec fn script_need(
    script: Seq<char>,
    cwd: Seq<char>,
    answers: Seq<AnswerModel>,
    at: int,
) -> Need<BatchModel> {
    match batch_need(split_on(script, ';'), 0, Seq::empty(), cwd, answers, at) {
        Need::Want(w) => Need::Want(w),
        Need::Done(steps, n) => Need::Done(batch_of(steps), n),
    }
}

fn has_error(text: &str) -> (r: bool)
    ensures
        r == reports_error(text@),
{
    let ls = lines(text);
    let mut i: usize = 0;
    while i < ls.len()
        invariant
            i <= ls.len(),
            views(ls@) == lines_of(text@),
            forall|k: int|
                0 <= k < i ==> !("error:"@.is_prefix_of(
                    trimmed_start(#[trigger] lines_of(text@)[k]),
                )),
        decreases ls.len() - i,
    {
        assert(lines_of(text@)[i as int] == ls@[i as int]@);
        let t = trim_front(ls[i].as_str());
        if begins(t.as_str(), "error:") {
            assert(i < lines_of(text@).len());
            assert("error:"@.is_prefix_of(trimmed_start(lines_of(text@)[i as int])));
            assert(reports_error(text@));
            return true;
        }
        i += 1;
    }
    false
}

fn has_failed(s: &Ran) -> (r: bool)
    ensures
        r == failed(s@),
{
    same(s.result.text.as_str(), USAGE) || has_error(s.result.text.as_str()) || !ok(
        &s.result.value,
    )
}

fn show_step(s: &Ran) -> (t: String)
    requires
        words(s@.part).len() > 0,
    ensures
        t@ == step_text(s@),
{
    let mut t = String::from_str("$ ");
    t.append(s.part.as_str());
    // an unknown subcommand falls through to the full USAGE — flag it, don't dump it
    if same(s.result.text.as_str(), USAGE) {
        t.append("\nerror: unknown subcommand ");
        let toks = split_white(s.part.as_str());
        assert(views(toks@)[0] == toks@[0]@);
        let d = show_debug(toks[0].as_str());
        t.append(d.as_str());
        t.append(" (not usable inside `do`)\n\n");
    } else {
        t.append("\n");
        t.append(s.result.text.as_str());
        t.append("\n\n");
    }
    t
}

fn find_bad(steps: &Vec<Ran>) -> (r: Option<&Json>)
    ensures
        match r {
            Some(v) => first_bad(steps_in(steps@), 0) == Some(v@),
            None => first_bad(steps_in(steps@), 0) is None,
        },
{
    let mut i: usize = 0;
    while i < steps.len()
        invariant
            i <= steps.len(),
            first_bad(steps_in(steps@), 0) == first_bad(steps_in(steps@), i as int),
        decreases steps.len() - i,
    {
        assert(steps_in(steps@)[i as int] == steps@[i as int]@);
        let v = &steps[i].result.value;
        if let Some(t) = v.at("status").as_str() {
            if !same(t, "ok") {
                return Some(v);
            }
        }
        i += 1;
    }
    None
}

fn make_value(steps: &Vec<Ran>, errored: bool) -> (r: Json)
    requires
        errored == any_failed(steps_in(steps@)),
    ensures
        r@ == batch_value(steps_in(steps@)),
{
    let mut list: Vec<Json> = Vec::new();
    let mut i: usize = 0;
    while i < steps.len()
        invariant
            i <= steps.len(),
            list.len() == i,
            forall|k: int|
                0 <= k < i ==> (#[trigger] list@[k])@ == no_keys().with(
                    "cmd"@,
                    Doc::Str(steps@[k]@.part),
                ).with("response"@, steps@[k]@.shown.value),
        decreases steps.len() - i,
    {
        list.push(
            Json::obj().with("cmd", Json::text(steps[i].part.as_str())).with(
                "response",
                steps[i].result.value.copy(),
            ),
        );
        i += 1;
    }
    assert(docs(list@) =~= step_docs(steps_in(steps@)));
    let head = match find_bad(steps) {
        Some(d) => {
            let status = d.at("status").str_or("user_error");
            let error = d.at("error").str_or("unknown");
            err_value(status.as_str(), error.as_str())
        },
        None => if errored {
            err_value("user_error", "a subcommand reported an error")
        } else {
            Json::obj().with("ok", Json::boolean(true)).with("status", Json::text("ok"))
        },
    };
    head.with("steps", Json::list(list))
}

fn finish(steps: &Vec<Ran>, errored: bool) -> (r: Batch)
    requires
        errored == any_failed(steps_in(steps@)),
        forall|k: int| 0 <= k < steps.len() ==> words((#[trigger] steps@[k])@.part).len() > 0,
    ensures
        r@ == batch_of(steps_in(steps@)),
{
    let mut rows: Vec<String> = Vec::new();
    let mut i: usize = 0;
    while i < steps.len()
        invariant
            i <= steps.len(),
            rows.len() == i,
            forall|k: int| 0 <= k < steps.len() ==> words((#[trigger] steps@[k])@.part).len() > 0,
            forall|k: int| 0 <= k < i ==> (#[trigger] rows@[k])@ == step_text(steps@[k]@),
        decreases steps.len() - i,
    {
        rows.push(show_step(&steps[i]));
        i += 1;
    }
    assert(views(rows@) =~= step_texts(steps_in(steps@)));
    Batch { text: concat_all(&rows), errored, value: make_value(steps, errored) }
}

/// Run a `;`-separated batch of subcommands, labeling each with `$ <subcommand>`.
/// Stops at the first error or program exit. Returns the combined text, whether
/// any subcommand errored, and a JSON value `{ok, status, steps}` where `steps`
/// is `[{cmd, response}, ...]` (the response of each subcommand run) and
/// `status` is the first non-`ok` step status, or `ok`. Shared by the CLI `do`
/// and the MCP `debug_do`.
pub fn run_batch_full(script: &str, cwd: &str, answers: &Vec<Answer>, at: usize) -> (r: Pending<
    Batch,
>)
    requires
        at <= answers.len(),
    ensures
        match r {
            Pending::Want(q) => script_need(script@, cwd@, answers_in(answers@), at as int)
                == Need::<BatchModel>::Want(q@),
            Pending::Done(x, n) => script_need(script@, cwd@, answers_in(answers@), at as int)
                == Need::Done(x@, n as int) && at <= n <= answers.len(),
        },
{
    let parts = split_char(script, ';');
    let ghost all = views(parts@);
    let ghost model = answers_in(answers@);
    let ghost whole = batch_need(all, 0, Seq::empty(), cwd@, model, at as int);
    let mut steps: Vec<Ran> = Vec::new();
    let mut n: usize = at;
    let mut i: usize = 0;
    assert(steps_in(steps@) =~= Seq::empty());
    while i < parts.len()
        invariant
            i <= parts.len(),
            at <= n <= answers.len(),
            all == views(parts@),
            all == split_on(script@, ';'),
            model == answers_in(answers@),
            whole == batch_need(all, 0, Seq::empty(), cwd@, model, at as int),
            whole == batch_need(all, i as int, steps_in(steps@), cwd@, model, n as int),
            forall|k: int| 0 <= k < steps.len() ==> !failed((#[trigger] steps@[k])@),
            forall|k: int| 0 <= k < steps.len() ==> words((#[trigger] steps@[k])@.part).len() > 0,
        decreases parts.len() - i,
    {
        assert(all[i as int] == parts@[i as int]@);
        let part = trim(parts[i].as_str());
        let toks = split_white(part.as_str());
        if toks.len() > 0 {
            let rest = copy_from(&toks, 1);
            assert(views(toks@)[0] == toks@[0]@);
            assert(views(rest@) =~= views(toks@).skip(1));
            match run_command_full(toks[0].as_str(), &rest, cwd, answers, n) {
                Pending::Want(q) => return Pending::Want(q),
                Pending::Done(result, k) => {
                    let s = Ran { part, result };
                    let errored = has_failed(&s);
                    let exited = has_text(s.result.text.as_str(), ">>> program exited");
                    let ghost before = steps_in(steps@);
                    let ghost step = s@;
                    steps.push(s);
                    assert(steps_in(steps@) =~= before.push(step));
                    n = k;
                    if errored || exited {
                        assert(errored == any_failed(steps_in(steps@))) by {
                            let m = steps@.len() - 1;
                            assert(steps_in(steps@)[m] == step);
                            assert forall|k: int| 0 <= k < m implies !failed(
                                #[trigger] steps_in(steps@)[k],
                            ) by {
                                assert(steps_in(steps@)[k] == steps@[k]@);
                            }
                        }
                        return Pending::Done(finish(&steps, errored), n);
                    }
                },
            }
        }
        i += 1;
    }
    assert(!any_failed(steps_in(steps@))) by {
        assert forall|k: int| 0 <= k < steps.len() implies !failed(
            #[trigger] steps_in(steps@)[k],
        ) by {
            assert(steps_in(steps@)[k] == steps@[k]@);
        }
    }
    Pending::Done(finish(&steps, false), n)
}

proof fn lemma_batch_stops(
    parts: Seq<Seq<char>>,
    i: int,
    done: Seq<Step>,
    cwd: Seq<char>,
    answers: Seq<AnswerModel>,
    at: int,
)
    requires
        forall|k: int| 0 <= k < done.len() ==> !failed(#[trigger] done[k]) && !saw_exit(done[k]),
    ensures
        batch_need(parts, i, done, cwd, answers, at) matches Need::Done(steps, _) ==> forall|k: int|
            0 <= k < steps.len() - 1 ==> !failed(#[trigger] steps[k]) && !saw_exit(steps[k]),
    decreases parts.len() - i,
{
    if 0 <= i < parts.len() {
        let part = trimmed(parts[i]);
        let toks = words(part);
        if toks.len() == 0 {
            lemma_batch_stops(parts, i + 1, done, cwd, answers, at);
        } else {
            match command_need(toks[0], toks.skip(1), cwd, answers, at) {
                Need::Want(w) => {},
                Need::Done(shown, n) => {
                    let s = Step { part, shown };
                    if !(failed(s) || saw_exit(s)) {
                        lemma_batch_stops(parts, i + 1, done.push(s), cwd, answers, n);
                    }
                },
            }
        }
    }
}

/// A batch stops at the first subcommand that fails or sees the program exit:
/// no step but the last is such a one.
pub proof fn a_batch_stops_at_the_first_failure(
    script: Seq<char>,
    cwd: Seq<char>,
    answers: Seq<AnswerModel>,
    at: int,
)
    ensures
        batch_need(split_on(script, ';'), 0, Seq::empty(), cwd, answers, at) matches Need::Done(
            steps,
            _,
        ) ==> forall|k: int|
            0 <= k < steps.len() - 1 ==> !failed(#[trigger] steps[k]) && !saw_exit(steps[k]),
{
    lemma_batch_stops(split_on(script, ';'), 0, Seq::empty(), cwd, answers, at);
}

proof fn lemma_first_bad(steps: Seq<Step>, i: int)
    ensures
        first_bad(steps, i) matches Some(d) ==> d.at("status"@) matches Doc::Str(t) && t != "ok"@,
    decreases steps.len() - i,
{
    if 0 <= i < steps.len() {
        lemma_first_bad(steps, i + 1);
    }
}

/// A batch is `ok` exactly where its outcome is, and then no subcommand failed.
pub proof fn a_batch_is_ok_as_its_status_says(steps: Seq<Step>)
    ensures
        is_ok(batch_value(steps)) <==> batch_value(steps).at("status"@) == Doc::Str("ok"@),
        is_ok(batch_value(steps)) ==> !any_failed(steps),
        !is_ok(batch_value(steps)) ==> batch_value(steps).at("error"@) is Str,
{
    lemma_first_bad(steps, 0);
    reveal_strlit("ok");
    reveal_strlit("status");
    reveal_strlit("error");
    reveal_strlit("steps");
    reveal_strlit("user_error");
    assert("ok"@.len() == 2 && "status"@.len() == 6 && "error"@.len() == 5 && "steps"@.len() == 5);
    assert("user_error"@.len() == 10);
    assert("error"@[0] == 'e' && "steps"@[0] == 's');
}

/// A part of a script that holds a subcommand.
pub open spec fn holds_words(part: Seq<char>) -> bool {
    words(trimmed(part)).len() > 0
}

/// What running a subcommand comes to.
#[verifier::opaque]
spec fn run_of(part: Seq<char>, cwd: Seq<char>, answers: Seq<AnswerModel>, at: int) -> Need<Shown> {
    command_need(words(part)[0], words(part).skip(1), cwd, answers, at)
}

proof fn lemma_run_of(part: Seq<char>, cwd: Seq<char>, answers: Seq<AnswerModel>, at: int)
    ensures
        run_of(part, cwd, answers, at) == command_need(
            words(part)[0],
            words(part).skip(1),
            cwd,
            answers,
            at,
        ),
{
    reveal(run_of);
}

/// The steps from `done` on are the runs of the live parts, each taking up the
/// answers where the one before it ended.
spec fn are_runs(
    steps: Seq<Step>,
    from: int,
    live: Seq<Seq<char>>,
    cwd: Seq<char>,
    answers: Seq<AnswerModel>,
    pos: Seq<int>,
) -> bool {
    forall|k: int|
        from <= k < steps.len() ==> {
            &&& (#[trigger] steps[k]).part == trimmed(live[k - from])
            &&& run_of(steps[k].part, cwd, answers, pos[k - from]) == Need::Done(
                steps[k].shown,
                pos[k - from + 1],
            )
        }
}

proof fn lemma_batch_runs(
    parts: Seq<Seq<char>>,
    i: int,
    done: Seq<Step>,
    cwd: Seq<char>,
    answers: Seq<AnswerModel>,
    at: int,
) -> (pos: Seq<int>)
    requires
        0 <= i <= parts.len(),
    ensures
        batch_need(parts, i, done, cwd, answers, at) matches Need::Done(steps, n) ==> {
            let live = parts.skip(i).filter(|p: Seq<char>| holds_words(p));
            let ran = steps.len() - done.len();
            &&& done.is_prefix_of(steps)
            &&& 0 <= ran <= live.len()
            &&& pos.len() == ran + 1
            &&& pos[0] == at
            &&& pos.last() == n
            &&& are_runs(steps, done.len() as int, live, cwd, answers, pos)
            &&& ran < live.len() ==> ran > 0 && (failed(steps.last()) || saw_exit(steps.last()))
        },
    decreases parts.len() - i,
{
    let p = |p: Seq<char>| holds_words(p);
    let rest = parts.skip(i);
    if i >= parts.len() {
        reveal(Seq::filter);
        assert(rest.len() == 0);
        seq![at]
    } else {
        let part = trimmed(parts[i]);
        let more = parts.skip(i + 1);
        let one = seq![parts[i]];
        assert(rest =~= one + more);
        Seq::filter_distributes_over_add(one, more, p);
        assert(one.filter(p) == if p(parts[i]) {
            one
        } else {
            Seq::<Seq<char>>::empty()
        }) by {
            reveal_with_fuel(Seq::filter, 2);
            assert(one.drop_last() =~= Seq::<Seq<char>>::empty());
            assert(Seq::<Seq<char>>::empty().push(parts[i]) =~= one);
        }
        let live = rest.filter(p);
        if words(part).len() == 0 {
            let pos = lemma_batch_runs(parts, i + 1, done, cwd, answers, at);
            assert(live =~= more.filter(p));
            pos
        } else {
            lemma_run_of(part, cwd, answers, at);
            match run_of(part, cwd, answers, at) {
                Need::Want(w) => seq![at],
                Need::Done(shown, n) => {
                    let s = Step { part, shown };
                    assert(live[0] == parts[i]);
                    if failed(s) || saw_exit(s) {
                        assert(done.push(s).last() == s);
                        seq![at, n]
                    } else {
                        let tail = lemma_batch_runs(parts, i + 1, done.push(s), cwd, answers, n);
                        let pos = seq![at] + tail;
                        let ahead = more.filter(p);
                        assert(live =~= one + ahead);
                        if let Need::Done(steps, end) = batch_need(
                            parts,
                            i + 1,
                            done.push(s),
                            cwd,
                            answers,
                            n,
                        ) {
                            let d = done.len() as int;
                            assert(steps[d] == done.push(s)[d]);
                            assert forall|k: int| d <= k < steps.len() implies (
                            #[trigger] steps[k]).part == trimmed(live[k - d]) && run_of(
                                steps[k].part,
                                cwd,
                                answers,
                                pos[k - d],
                            ) == Need::Done(steps[k].shown, pos[k - d + 1]) by {
                                assert(pos[k - d + 1] == tail[k - d]);
                                if k > d {
                                    assert(live[k - d] == ahead[k - (d + 1)]);
                                    assert(pos[k - d] == tail[k - (d + 1)]);
                                    assert(tail[k - (d + 1) + 1] == tail[k - d]);
                                }
                            }
                            assert(done =~= steps.take(d)) by {
                                assert(steps.take(d + 1) =~= done.push(s));
                            }
                        }
                        pos
                    }
                },
            }
        }
    }
}

/// The subcommands of a script are run one by one in their order: each step is
/// the run of one part between semicolons, blanks apart, by its first word
/// with the others as arguments. No part is left out, unless the steps end
/// with one that failed or saw the program exit.
pub proof fn every_subcommand_is_run_in_its_order(
    script: Seq<char>,
    cwd: Seq<char>,
    answers: Seq<AnswerModel>,
    at: int,
)
    ensures
        batch_need(split_on(script, ';'), 0, Seq::empty(), cwd, answers, at) matches Need::Done(
            steps,
            n,
        ) ==> {
            let live = split_on(script, ';').filter(|p: Seq<char>| words(trimmed(p)).len() > 0);
            &&& steps.len() <= live.len()
            &&& steps.len() < live.len() ==> steps.len() > 0 && (failed(steps.last()) || saw_exit(
                steps.last(),
            ))
            &&& exists|pos: Seq<int>|
                {
                    &&& pos.len() == steps.len() + 1
                    &&& #[trigger] pos[0] == at
                    &&& pos.last() == n
                    &&& forall|k: int|
                        0 <= k < steps.len() ==> {
                            let toks = words(trimmed(live[k]));
                            &&& (#[trigger] steps[k]).part == trimmed(live[k])
                            &&& command_need(toks[0], toks.skip(1), cwd, answers, pos[k])
                                == Need::Done(steps[k].shown, pos[k + 1])
                        }
                }
        },
{
    let parts = split_on(script, ';');
    let pos = lemma_batch_runs(parts, 0, Seq::empty(), cwd, answers, at);
    assert(parts.skip(0) =~= parts);
    let p = |p: Seq<char>| holds_words(p);
    let q = |p: Seq<char>| words(trimmed(p)).len() > 0;
    assert(p =~= q);
    if let Need::Done(steps, n) = batch_need(parts, 0, Seq::empty(), cwd, answers, at) {
        let live = parts.filter(q);
        assert(pos[0] == at);
        assert forall|k: int| 0 <= k < steps.len() implies ({
            let toks = words(trimmed(live[k]));
            &&& (#[trigger] steps[k]).part == trimmed(live[k])
            &&& command_need(toks[0], toks.skip(1), cwd, answers, pos[k]) == Need::Done(
                steps[k].shown,
                pos[k + 1],
            )
        }) by {
            lemma_run_of(steps[k].part, cwd, answers, pos[k]);
        }
    }
}

/// The text of a batch is that of its steps, one behind the other, each under
/// its subcommand; and its value lists each subcommand with its response.
pub proof fn a_batch_shows_every_step(steps: Seq<Step>, s: Step, k: int)
    ensures
        s.shown.text != USAGE@ ==> batch_of(steps.push(s)).text == batch_of(steps).text + ("$ "@
            + s.part + "\n"@ + s.shown.text + "\n\n"@),
        batch_of(Seq::empty()).text.len() == 0,
        batch_of(steps).value.at("steps"@).items().len() == steps.len(),
        0 <= k < steps.len() ==> {
            let d = batch_of(steps).value.at("steps"@).items()[k];
            d.at("cmd"@) == Doc::Str(steps[k].part) && d.at("response"@) == steps[k].shown.value
        },
        batch_of(steps).errored <==> exists|i: int| 0 <= i < steps.len() && failed(#[trigger] steps[i]),
        s.shown.text == USAGE@ ==> failed(s),
        s.shown.value.at("ok"@) != Doc::Bool(true) ==> failed(s),
{
    reveal_strlit("cmd");
    reveal_strlit("response");
    assert("cmd"@.len() == 3 && "response"@.len() == 8);
    let texts = step_texts(steps);
    assert(step_texts(steps.push(s)) =~= texts.push(step_text(s)));
    lemma_join_push(texts, Seq::empty(), step_text(s));
    if texts.len() == 0 {
        assert(concat(texts) + step_text(s) =~= step_text(s));
    } else {
        assert(concat(texts) + Seq::<char>::empty() + step_text(s) =~= concat(texts) + step_text(s));
    }
    assert(step_texts(Seq::empty()).len() == 0);
}

proof fn lemma_first_bad_at(steps: Seq<Step>, i: int, k: int)
    requires
        0 <= i <= k < steps.len(),
        forall|j: int|
            i <= j < k ==> (#[trigger] steps[j]).shown.value.at("status"@) == Doc::Str("ok"@),
        steps[k].shown.value.at("status"@) matches Doc::Str(t) && t != "ok"@,
    ensures
        first_bad(steps, i) == Some(steps[k].shown.value),
    decreases k - i,
{
    if i < k {
        assert(steps[i].shown.value.at("status"@) == Doc::Str("ok"@));
        lemma_first_bad_at(steps, i + 1, k);
    }
}

/// The outcome of a batch is that of the first subcommand that was no success.
pub proof fn a_batch_fails_as_its_first_failure(steps: Seq<Step>, k: int)
    requires
        0 <= k < steps.len(),
        forall|j: int|
            0 <= j < k ==> (#[trigger] steps[j]).shown.value.at("status"@) == Doc::Str("ok"@),
        steps[k].shown.value.at("status"@) matches Doc::Str(t) && t != "ok"@,
    ensures
        batch_value(steps).at("status"@) == steps[k].shown.value.at("status"@),
{
    lemma_first_bad_at(steps, 0, k);
    reveal_strlit("steps");
    reveal_strlit("status");
    reveal_strlit("ok");
    reveal_strlit("error");
    assert("steps"@.len() == 5 && "status"@.len() == 6 && "ok"@.len() == 2 && "error"@.len() == 5);
}

} // verus!
