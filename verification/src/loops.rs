//! Runs through many stops: until a condition holds, and tracing.

use vstd::prelude::*;
use crate::dap::{Step, Turn};
use crate::inspect::evaluate_turn;
use crate::json::{docs, Doc, Json};
use crate::locals::locals_text_turn;
use crate::num::{int_text, show_int};
use crate::predicate::{holds, predicate_holds, Predicate};
use crate::session::{pairs_in, Session, SessionModel};
use crate::stack::{Stop, StopModel};
use crate::text::{owned, replace_all, replaced, trim, trimmed, views};

verus! {

// ---------------------------------------------------------------------------
// Until a condition holds
// ---------------------------------------------------------------------------

/// How a `cont_until` loop ended: the condition held (with the observed
/// value), the program exited first, or the safety cap ran out.
pub enum UntilOutcome {
    Held(String),
    Exited,
    Cap,
}

/// What the driver of a run until a condition holds has to do next.
pub enum UntilPhase {
    /// Let the program run to its next stop.
    Running,
    /// Evaluate the path of the condition at this stop.
    Checking(Stop),
    /// Nothing: the run ended at this stop.
    Ended(Stop, UntilOutcome),
    /// Nothing: the run failed.
    Failed(String),
}

/// A run past breakpoint stops until a condition holds. The condition is
/// checked at each stop, not by the adapter — so it works where lldb
/// conditional breakpoints don't bind or fire reliably. It ends when the
/// condition holds, the program exits, or after `max` resumes (safety cap).
pub struct UntilLoop {
    pub pred: Predicate,
    pub max: usize,
    /// How many stops have been consumed, with the one that is awaited.
    pub stops: usize,
    pub phase: UntilPhase,
    /// The values of the condition's path at the stops that were run past.
    pub passed: Ghost<Seq<Seq<char>>>,
}

impl UntilLoop {
    /// The condition holds of a value.
    pub open spec fn met(self, value: Seq<char>) -> bool {
        holds(value, self.pred.op@, self.pred.rhs@)
    }

    /// The condition held at no stop that was run past, and the run ended for
    /// the reason that it gives.
    pub open spec fn wf(self) -> bool {
        &&& self.stops <= self.max
        &&& forall|i: int| 0 <= i < self.passed@.len() ==> !self.met(#[trigger] self.passed@[i])
        &&& match self.phase {
            UntilPhase::Running => self.passed@.len() + 1 == self.stops,
            UntilPhase::Checking(stop) => self.passed@.len() + 1 == self.stops && !stop.exited,
            UntilPhase::Ended(stop, UntilOutcome::Held(v)) => self.passed@.len() + 1 == self.stops
                && !stop.exited && self.met(v@),
            UntilPhase::Ended(stop, UntilOutcome::Exited) => self.passed@.len() + 1 == self.stops
                && stop.exited,
            UntilPhase::Ended(stop, UntilOutcome::Cap) => self.passed@.len() == self.stops
                && self.stops == self.max && (self.max > 0 ==> !stop.exited),
            UntilPhase::Failed(_) => true,
        }
    }
}

impl Session {
    /// Keep resuming past breakpoint stops until `pred` holds, at most `max`
    /// times.
    pub fn cont_until(&self, pred: Predicate, max: usize) -> (l: UntilLoop)
        ensures
            l.wf(),
            l.pred == pred,
            l.max == max,
            l.passed@.len() == 0,
            if max > 0 {
                l.stops == 1 && l.phase is Running
            } else {
                l.stops == 0 && match self@.last_stop {
                    Some(s) => l.phase matches UntilPhase::Ended(stop, UntilOutcome::Cap) && stop@
                        == s,
                    None => l.phase matches UntilPhase::Failed(e) && e@ == "not stopped"@,
                }
            },
    {
        if max > 0 {
            let phase = UntilPhase::Running;
            return UntilLoop { pred, max, stops: 1, phase, passed: Ghost(Seq::empty()) };
        }
        let phase = match &self.last_stop {
            Some(stop) => UntilPhase::Ended(stop.copy(), UntilOutcome::Cap),
            None => UntilPhase::Failed(owned("not stopped")),
        };
        UntilLoop { pred, max, stops: 0, phase, passed: Ghost(Seq::empty()) }
    }
}

impl UntilLoop {
    /// Takes what came of letting the program run.
    pub fn stopped(&mut self, r: Result<Stop, String>)
        requires
            old(self).wf(),
            old(self).phase is Running,
        ensures
            final(self).wf(),
            final(self).pred == old(self).pred,
            final(self).max == old(self).max,
            final(self).stops == old(self).stops,
            final(self).passed == old(self).passed,
            match r {
                Ok(stop) => if stop.exited {
                    final(self).phase == UntilPhase::Ended(stop, UntilOutcome::Exited)
                } else {
                    final(self).phase == UntilPhase::Checking(stop)
                },
                Err(e) => final(self).phase == UntilPhase::Failed(e),
            },
    {
        self.phase = match r {
            Ok(stop) => if stop.exited {
                UntilPhase::Ended(stop, UntilOutcome::Exited)
            } else {
                UntilPhase::Checking(stop)
            },
            Err(e) => UntilPhase::Failed(e),
        };
    }

    /// Takes the value of the condition's path at the stop, and says where the
    /// run stands then.
    pub fn observed(self, value: String) -> (l: UntilLoop)
        requires
            self.wf(),
            self.phase is Checking,
        ensures
            l.wf(),
            l.pred == self.pred,
            l.max == self.max,
            match self.phase {
                UntilPhase::Checking(stop) => if self.met(value@) {
                    &&& l.phase == UntilPhase::Ended(stop, UntilOutcome::Held(value))
                    &&& l.stops == self.stops
                    &&& l.passed == self.passed
                } else if self.stops < self.max {
                    &&& l.phase is Running
                    &&& l.stops == self.stops + 1
                    &&& l.passed@ == self.passed@.push(value@)
                } else {
                    &&& l.phase == UntilPhase::Ended(stop, UntilOutcome::Cap)
                    &&& l.stops == self.stops
                    &&& l.passed@ == self.passed@.push(value@)
                },
                _ => true,
            },
    {
        let ghost before = self;
        let UntilLoop { pred, max, stops, phase, passed } = self;
        let held = predicate_holds(value.as_str(), pred.op, pred.rhs.as_str());
        match phase {
            UntilPhase::Checking(stop) => if held {
                let phase = UntilPhase::Ended(stop, UntilOutcome::Held(value));
                UntilLoop { pred, max, stops, phase, passed }
            } else {
                let passed: Ghost<Seq<Seq<char>>> = Ghost(passed@.push(value@));
                let l = if stops < max {
                    UntilLoop { pred, max, stops: stops + 1, phase: UntilPhase::Running, passed }
                } else {
                    let phase = UntilPhase::Ended(stop, UntilOutcome::Cap);
                    UntilLoop { pred, max, stops, phase, passed }
                };
                assert forall|i: int| 0 <= i < l.passed@.len() implies !l.met(
                    #[trigger] l.passed@[i],
                ) by {
                    if i < before.passed@.len() {
                        assert(!before.met(before.passed@[i]));
                    }
                }
                l
            },
            other => UntilLoop { pred, max, stops, phase: other, passed },
        }
    }
}

/// A run until a condition holds ends at the first stop where it does: it held
/// at none of the stops before, and the program had not ended. Where the run
/// ends otherwise, the condition held at no stop.
pub proof fn the_first_stop_that_meets_the_condition_is_the_last(l: UntilLoop)
    requires
        l.wf(),
        l.phase is Ended,
    ensures
        forall|i: int| 0 <= i < l.passed@.len() ==> !l.met(#[trigger] l.passed@[i]),
        match l.phase {
            UntilPhase::Ended(stop, UntilOutcome::Held(v)) => l.met(v@) && !stop.exited
                && l.passed@.len() == l.stops - 1,
            UntilPhase::Ended(stop, UntilOutcome::Exited) => stop.exited && l.passed@.len()
                == l.stops - 1,
            UntilPhase::Ended(_, UntilOutcome::Cap) => l.passed@.len() == l.stops && l.stops
                == l.max,
            _ => true,
        },
{
}

// ---------------------------------------------------------------------------
// Tracing
// ---------------------------------------------------------------------------

/// What a hit of a trace is.
pub ghost struct HitModel {
    pub func: Seq<char>,
    pub loc: Seq<char>,
    pub values: Seq<(Seq<char>, Seq<char>)>,
}

/// One breakpoint hit captured during a `trace` run.
pub struct TraceHit {
    pub func: String,
    pub loc: String,
    pub values: Vec<(String, String)>,
}

impl View for TraceHit {
    type V = HitModel;

    open spec fn view(&self) -> HitModel {
        HitModel { func: self.func@, loc: self.loc@, values: pairs_in(self.values@) }
    }
}

pub open spec fn hits_in(v: Seq<TraceHit>) -> Seq<HitModel> {
    Seq::new(v.len(), |i: int| v[i]@)
}

/// The values of the captured paths from `i` on.
pub open spec fn captured_turn(
    m: SessionModel,
    captures: Seq<Seq<char>>,
    i: int,
    replies: Seq<Doc>,
    at: int,
) -> Turn<Seq<(Seq<char>, Seq<char>)>>
    decreases captures.len() - i,
{
    if i < 0 || i >= captures.len() {
        Turn::Done(Seq::empty(), at)
    } else {
        match evaluate_turn(m, captures[i], replies, at) {
            Turn::Ask(a) => Turn::Ask(a),
            Turn::Done(v, n) => match captured_turn(m, captures, i + 1, replies, n) {
                Turn::Ask(a) => Turn::Ask(a),
                Turn::Done(rest, k) => Turn::Done(seq![(captures[i], v)] + rest, k),
            },
        }
    }
}

/// Where a stop is: its function and its line.
pub open spec fn hit_place(stop: StopModel) -> (Seq<char>, Seq<char>) {
    match stop.top() {
        Some(f) => (f.name, f.file + ":"@ + int_text(f.line)),
        None => (Seq::empty(), Seq::empty()),
    }
}

/// A stop as a hit: the values of the captured paths, or brief locals where
/// none are given.
pub open spec fn hit_turn(
    m: SessionModel,
    stop: StopModel,
    captures: Seq<Seq<char>>,
    replies: Seq<Doc>,
    at: int,
) -> Turn<HitModel> {
    let (func, loc) = hit_place(stop);
    if captures.len() == 0 {
        match locals_text_turn(m, 1, 12, replies, at) {
            Turn::Ask(a) => Turn::Ask(a),
            Turn::Done(t, n) => Turn::Done(
                HitModel {
                    func,
                    loc,
                    values: seq![("locals"@, replaced(trimmed(t), "\n"@, "; "@))],
                },
                n,
            ),
        }
    } else {
        match captured_turn(m, captures, 0, replies, at) {
            Turn::Ask(a) => Turn::Ask(a),
            Turn::Done(values, n) => Turn::Done(HitModel { func, loc, values }, n),
        }
    }
}

/// A turn with pairs put in front of its outcome.
pub open spec fn after_pairs(
    pairs: Seq<(Seq<char>, Seq<char>)>,
    t: Turn<Seq<(Seq<char>, Seq<char>)>>,
) -> Turn<Seq<(Seq<char>, Seq<char>)>> {
    match t {
        Turn::Ask(a) => Turn::Ask(a),
        Turn::Done(rest, n) => Turn::Done(pairs + rest, n),
    }
}

impl Session {
    fn captured(&self, captures: &Vec<String>, replies: &Vec<Json>, at: usize) -> (s: Step<
        Vec<(String, String)>,
    >)
        requires
            at <= replies.len(),
        ensures
            match s {
                Step::Ask(q) => captured_turn(
                    self@,
                    views(captures@),
                    0,
                    docs(replies@),
                    at as int,
                ) == Turn::<Seq<(Seq<char>, Seq<char>)>>::Ask(q@),
                Step::Done(r, n) => captured_turn(
                    self@,
                    views(captures@),
                    0,
                    docs(replies@),
                    at as int,
                ) == Turn::Done(pairs_in(r@), n as int) && at <= n <= replies.len(),
            },
    {
        let mut values: Vec<(String, String)> = Vec::new();
        let mut pos: usize = at;
        let mut i: usize = 0;
        let ghost paths = views(captures@);
        let ghost all = captured_turn(self@, paths, 0, docs(replies@), at as int);
        assert(after_pairs(pairs_in(values@), all) == all) by {
            if let Turn::Done(r, _) = all {
                assert(pairs_in(values@) + r =~= r);
            }
        }
        while i < captures.len()
            invariant
                i <= captures.len(),
                at <= pos <= replies.len(),
                paths == views(captures@),
                all == captured_turn(self@, paths, 0, docs(replies@), at as int),
                all == after_pairs(
                    pairs_in(values@),
                    captured_turn(self@, paths, i as int, docs(replies@), pos as int),
                ),
            decreases captures.len() - i,
        {
            let c = captures[i].as_str();
            assert(paths[i as int] == c@);
            let (v, n): (String, usize) = match self.evaluate(c, replies, pos) {
                Step::Ask(q) => return Step::Ask(q),
                Step::Done(v, n) => (v, n),
            };
            let ghost before = pairs_in(values@);
            let ghost pair = (c@, v@);
            values.push((owned(c), v));
            assert(pairs_in(values@) =~= before.push(pair));
            proof {
                let rest = captured_turn(self@, paths, i + 1, docs(replies@), n as int);
                if let Turn::Done(r, _) = rest {
                    assert(before + (seq![pair] + r) =~= before.push(pair) + r);
                }
            }
            pos = n;
            i += 1;
        }
        assert(pairs_in(values@) + Seq::<(Seq<char>, Seq<char>)>::empty() =~= pairs_in(values@));
        Step::Done(values, pos)
    }

    /// A stop as a hit of a trace: the values of the given variable paths, or
    /// brief locals.
    pub fn capture(
        &self,
        stop: &Stop,
        captures: &Vec<String>,
        replies: &Vec<Json>,
        at: usize,
    ) -> (s: Step<TraceHit>)
        requires
            at <= replies.len(),
        ensures
            match s {
                Step::Ask(q) => hit_turn(
                    self@,
                    stop@,
                    views(captures@),
                    docs(replies@),
                    at as int,
                ) == Turn::<HitModel>::Ask(q@),
                Step::Done(r, n) => hit_turn(
                    self@,
                    stop@,
                    views(captures@),
                    docs(replies@),
                    at as int,
                ) == Turn::Done(r@, n as int) && at <= n <= replies.len(),
            },
    {
        let (func, loc): (String, String) = match stop.top() {
            Some(f) => {
                let mut loc = owned(f.file.as_str());
                loc.append(":");
                let n = show_int(f.line);
                loc.append(n.as_str());
                (owned(f.name.as_str()), loc)
            },
            None => (String::new(), String::new()),
        };
        if captures.len() == 0 {
            match self.locals_text(1, replies, at) {
                Step::Ask(q) => Step::Ask(q),
                Step::Done(t, n) => {
                    let t = trim(t.as_str());
                    let t = replace_all(t.as_str(), "\n", "; ");
                    let mut values: Vec<(String, String)> = Vec::new();
                    let ghost text = t@;
                    values.push((owned("locals"), t));
                    assert(pairs_in(values@) =~= seq![("locals"@, text)]);
                    Step::Done(TraceHit { func, loc, values }, n)
                },
            }
        } else {
            match self.captured(captures, replies, at) {
                Step::Ask(q) => Step::Ask(q),
                Step::Done(values, n) => Step::Done(TraceHit { func, loc, values }, n),
            }
        }
    }
}

/// A run through breakpoint hits without yielding: at each stop capture the
/// given variable paths (or brief locals), auto-continue, and collect a
/// compact trace. Starts from the current stop.
pub struct Trace {
    pub captures: Vec<String>,
    pub max: usize,
    pub hits: Vec<TraceHit>,
    /// The program has ended, or could not be resumed.
    pub ended: bool,
}

/// Another hit is to be captured: the program is stopped, and there is room.
pub open spec fn more_hits(t: Trace, last: Option<StopModel>) -> bool {
    !t.ended && t.hits@.len() < t.max && (last matches Some(s) && !s.exited)
}

impl Session {
    /// Traces at most `max_hits` hits.
    pub fn trace(&self, captures: Vec<String>, max_hits: usize) -> (t: Trace)
        ensures
            t.captures == captures,
            t.max == max_hits,
            hits_in(t.hits@) == Seq::<HitModel>::empty(),
            !t.ended,
    {
        let t = Trace { captures, max: max_hits, hits: Vec::new(), ended: false };
        assert(hits_in(t.hits@) =~= Seq::empty());
        t
    }
}

impl Trace {
    /// The stop to capture next, where there is one.
    pub fn wants<'a>(&self, s: &'a Session) -> (r: Option<&'a Stop>)
        ensures
            match r {
                Some(stop) => more_hits(*self, s@.last_stop) && s@.last_stop == Some(stop@),
                None => !more_hits(*self, s@.last_stop),
            },
    {
        if self.ended || self.hits.len() >= self.max {
            return None;
        }
        match &s.last_stop {
            Some(stop) => if stop.exited {
                None
            } else {
                Some(stop)
            },
            None => None,
        }
    }

    /// Takes a hit that was captured, and what came of letting the program run
    /// on.
    pub fn add(&mut self, hit: TraceHit, ran: &Result<Stop, String>)
        requires
            old(self).hits@.len() < old(self).max,
        ensures
            final(self).captures == old(self).captures,
            final(self).max == old(self).max,
            hits_in(final(self).hits@) == hits_in(old(self).hits@).push(hit@),
            final(self).hits@.len() <= final(self).max,
            final(self).ended == match ran {
                Ok(stop) => stop.exited || old(self).ended,
                Err(_) => true,
            },
    {
        let ghost before = hits_in(self.hits@);
        let ghost h = hit@;
        self.hits.push(hit);
        assert(hits_in(self.hits@) =~= before.push(h));
        match ran {
            Ok(stop) => {
                if stop.exited {
                    self.ended = true;
                }
            },
            Err(_) => {
                self.ended = true;
            },
        }
    }
}

/// What evaluating a path gives.
#[verifier::opaque]
spec fn value_turn(m: SessionModel, path: Seq<char>, replies: Seq<Doc>, at: int) -> Turn<Seq<char>> {
    evaluate_turn(m, path, replies, at)
}

proof fn lemma_value_turn(m: SessionModel, path: Seq<char>, replies: Seq<Doc>, at: int)
    ensures
        value_turn(m, path, replies, at) == evaluate_turn(m, path, replies, at),
{
    reveal(value_turn);
}

proof fn lemma_captured(
    m: SessionModel,
    captures: Seq<Seq<char>>,
    i: int,
    replies: Seq<Doc>,
    at: int,
) -> (pos: Seq<int>)
    requires
        0 <= i <= captures.len(),
    ensures
        pos.len() > 0,
        pos[0] == at,
        match captured_turn(m, captures, i, replies, at) {
            Turn::Done(values, n) => values.len() == captures.len() - i && pos.len() == values.len()
                + 1 && pos.last() == n && forall|c: int|
                i <= c < captures.len() ==> values[c - i].0 == #[trigger] captures[c]
                    && value_turn(m, captures[c], replies, pos[c - i]) == Turn::Done(
                    values[c - i].1,
                    pos[c - i + 1],
                ),
            Turn::Ask(a) => pos.len() <= captures.len() - i && value_turn(
                m,
                captures[i + pos.len() - 1],
                replies,
                pos.last(),
            ) == Turn::<Seq<char>>::Ask(a) && forall|c: int|
                i <= c < i + pos.len() - 1 ==> (value_turn(
                    m,
                    #[trigger] captures[c],
                    replies,
                    pos[c - i],
                ) matches Turn::Done(_, n) && n == pos[c - i + 1]),
        },
    decreases captures.len() - i,
{
    if i >= captures.len() {
        seq![at]
    } else {
        lemma_value_turn(m, captures[i], replies, at);
        match value_turn(m, captures[i], replies, at) {
            Turn::Ask(a) => seq![at],
            Turn::Done(v, n) => {
                let rest = lemma_captured(m, captures, i + 1, replies, n);
                let pos = seq![at] + rest;
                match captured_turn(m, captures, i + 1, replies, n) {
                    Turn::Done(more, end) => {
                        let values = seq![(captures[i], v)] + more;
                        assert forall|c: int| i <= c < captures.len() implies values[c - i].0
                            == #[trigger] captures[c] && value_turn(
                            m,
                            captures[c],
                            replies,
                            pos[c - i],
                        ) == Turn::Done(values[c - i].1, pos[c - i + 1]) by {
                            assert(pos[c - i + 1] == rest[c - i]);
                            if c > i {
                                assert(pos[c - i] == rest[c - i - 1]);
                                assert(values[c - i] == more[c - i - 1]);
                            }
                        }
                    },
                    Turn::Ask(a) => {
                        assert forall|c: int| i <= c < i + pos.len() - 1 implies (value_turn(
                            m,
                            #[trigger] captures[c],
                            replies,
                            pos[c - i],
                        ) matches Turn::Done(_, x) && x == pos[c - i + 1]) by {
                            assert(pos[c - i + 1] == rest[c - i]);
                            if c > i {
                                assert(pos[c - i] == rest[c - i - 1]);
                            }
                        }
                    },
                }
                pos
            },
        }
    }
}

/// Every captured path has its own value: a hit shows one pair for each path,
/// in their order, of the path and what evaluating that path gives, each
/// evaluation taking up the replies where the one before it ended. While a
/// path is not known yet, the question is the one that its evaluation asks.
pub proof fn every_captured_path_has_its_own_value(
    m: SessionModel,
    stop: StopModel,
    captures: Seq<Seq<char>>,
    replies: Seq<Doc>,
    at: int,
)
    requires
        captures.len() > 0,
    ensures
        exists|pos: Seq<int>|
            {
                &&& pos.len() > 0
                &&& #[trigger] pos[0] == at
                &&& match hit_turn(m, stop, captures, replies, at) {
                    Turn::Done(hit, n) => hit.values.len() == captures.len() && pos.len()
                        == captures.len() + 1 && pos.last() == n && forall|k: int|
                        0 <= k < captures.len() ==> hit.values[k].0 == #[trigger] captures[k]
                            && evaluate_turn(m, captures[k], replies, pos[k]) == Turn::Done(
                            hit.values[k].1,
                            pos[k + 1],
                        ),
                    Turn::Ask(a) => pos.len() <= captures.len() && evaluate_turn(
                        m,
                        captures[pos.len() - 1],
                        replies,
                        pos.last(),
                    ) == Turn::<Seq<char>>::Ask(a) && forall|k: int|
                        0 <= k < pos.len() - 1 ==> (evaluate_turn(
                            m,
                            #[trigger] captures[k],
                            replies,
                            pos[k],
                        ) matches Turn::Done(_, n) && n == pos[k + 1]),
                }
            },
{
    let pos = lemma_captured(m, captures, 0, replies, at);
    assert(pos[0] == at);
    match hit_turn(m, stop, captures, replies, at) {
        Turn::Done(hit, n) => {
            assert forall|k: int| 0 <= k < captures.len() implies hit.values[k].0
                == #[trigger] captures[k] && evaluate_turn(m, captures[k], replies, pos[k])
                == Turn::Done(hit.values[k].1, pos[k + 1]) by {
                lemma_value_turn(m, captures[k], replies, pos[k]);
            }
        },
        Turn::Ask(a) => {
            lemma_value_turn(m, captures[pos.len() - 1], replies, pos.last());
            assert forall|k: int| 0 <= k < pos.len() - 1 implies (evaluate_turn(
                m,
                #[trigger] captures[k],
                replies,
                pos[k],
            ) matches Turn::Done(_, n) && n == pos[k + 1]) by {
                lemma_value_turn(m, captures[k], replies, pos[k]);
            }
        },
    }
}

/// A hit is placed where its stop is: in the function of the innermost frame,
/// at that frame's file and line; and without paths to capture it shows the
/// locals under that one name.
pub proof fn a_hit_is_placed_at_its_stop(
    m: SessionModel,
    stop: StopModel,
    captures: Seq<Seq<char>>,
    replies: Seq<Doc>,
    at: int,
)
    ensures
        hit_turn(m, stop, captures, replies, at) matches Turn::Done(hit, _) ==> {
            &&& stop.frames.len() > 0 ==> hit.func == stop.frames[0].name && hit.loc
                == stop.frames[0].file + ":"@ + int_text(stop.frames[0].line)
            &&& stop.frames.len() == 0 ==> hit.func.len() == 0 && hit.loc.len() == 0
            &&& captures.len() == 0 ==> hit.values.len() == 1 && hit.values[0].0 == "locals"@
        },
{
}

/// A trace goes on as long as the program is stopped and there is room for a
/// hit; it ends for no other reason, and never holds more hits than it may.
pub proof fn a_trace_goes_on_while_there_is_room(t: Trace, last: Option<StopModel>)
    requires
        t.hits@.len() <= t.max,
    ensures
        !more_hits(t, last) ==> t.ended || t.hits@.len() == t.max || last is None || last->0.exited,
        more_hits(t, last) ==> t.hits@.len() + 1 <= t.max && last is Some && !last->0.exited,
        t.ended ==> !more_hits(t, last),
{
}

/// A list is seen item by item, in its order.
pub proof fn hits_are_seen_one_by_one(v: Seq<TraceHit>, i: int)
    ensures
        hits_in(v).len() == v.len(),
        0 <= i < v.len() ==> hits_in(v)[i] == v[i]@,
{
}

} // verus!
