//! Local variables as text, what changed of them since the last stop, and
//! the other conversations that show or change values.

use vstd::prelude::*;
use crate::dap::{ask, asking, exchange, Ask, Request, Step, Turn};
use crate::inspect::{
    ask_frames, ask_variables, evaluate_turn, frames_ask, lemma_refers_to_locals, locals_turn,
    refers_to_locals, resolve_turn, vars_in, variables_ask,
};
use crate::json::{docs, no_keys, Doc, Json};
use crate::num::{int_text, show_count, show_int};
use crate::predicate::{value_in, value_part};
use crate::render::{
    is_leaf_type, is_leaf_value, leaf_type, leaf_value, short_type, short_type_of,
};
use crate::session::{pairs_in, Session, SessionModel};
use crate::stack::{frames, frames_from, FrameModel, StopModel};
use crate::text::{
    debug_text, join, join_all, lemma_join_push, owned, same, show_debug, text_result, views,
};

verus! {

// ---------------------------------------------------------------------------
// One variable
// ---------------------------------------------------------------------------

/// A variable that is shown by its value alone.
pub open spec fn is_leaf(v: Doc) -> bool {
    leaf_value(v.at("value"@).text_or(""@)) || leaf_type(
        short_type_of(v.at("type"@).text_or(""@)),
    ) || v.at("variablesReference"@).int_or(0) == 0
}

/// A variable's type, and its value where it is shown.
pub open spec fn var_repr(v: Doc) -> Seq<char> {
    let typ = short_type_of(v.at("type"@).text_or(""@));
    let val = v.at("value"@).text_or(""@);
    if is_leaf(v) && val.len() > 0 {
        typ + " = "@ + val
    } else {
        typ
    }
}

fn leaf(v: &Json) -> (r: bool)
    ensures
        r == is_leaf(v@),
{
    let val = v.at("value").str_or("");
    let full = v.at("type").str_or("");
    let typ = short_type(full.as_str());
    is_leaf_value(val.as_str()) || is_leaf_type(typ.as_str()) || v.at("variablesReference").int_or(
        0,
    ) == 0
}

fn repr(v: &Json) -> (r: String)
    ensures
        r@ == var_repr(v@),
{
    let val = v.at("value").str_or("");
    let full = v.at("type").str_or("");
    let mut typ = short_type(full.as_str());
    if leaf(v) && !val.as_str().is_empty() {
        typ.append(" = ");
        typ.append(val.as_str());
    }
    typ
}

// ---------------------------------------------------------------------------
// The tree
// ---------------------------------------------------------------------------

pub open spec fn var_row(v: Doc, indent: Seq<char>) -> Seq<char> {
    indent + v.at("name"@).text_or("?"@) + ": "@ + var_repr(v)
}

/// The row that stands for the variables past the cap.
pub open spec fn more_rows(n: int, cap: int, indent: Seq<char>) -> Seq<Seq<char>> {
    if n > cap {
        seq![indent + "... ("@ + int_text(n - cap) + " more)"@]
    } else {
        Seq::empty()
    }
}

/// The rows of the variables under a reference, `depth` levels deep, at most
/// `cap` on each.
pub open spec fn tree_rows(
    rref: int,
    depth: int,
    cap: int,
    indent: Seq<char>,
    replies: Seq<Doc>,
    at: int,
) -> Turn<Seq<Seq<char>>>
    decreases depth, 1int, 0int,
{
    if rref == 0 || depth <= 0 {
        Turn::Done(Seq::empty(), at)
    } else {
        match exchange(variables_ask(rref), replies, at) {
            Turn::Ask(a) => Turn::Ask(a),
            Turn::Done(d, n) => match vars_rows(vars_in(d), 0, depth, cap, indent, replies, n) {
                Turn::Ask(a) => Turn::Ask(a),
                Turn::Done(rows, k) => Turn::Done(
                    rows + more_rows(vars_in(d).len() as int, cap, indent),
                    k,
                ),
            },
        }
    }
}

/// The rows of the variables from `i` on.
pub open spec fn vars_rows(
    vars: Seq<Doc>,
    i: int,
    depth: int,
    cap: int,
    indent: Seq<char>,
    replies: Seq<Doc>,
    at: int,
) -> Turn<Seq<Seq<char>>>
    decreases depth, 0int, vars.len() - i,
{
    if i < 0 || i >= vars.len() || i >= cap {
        Turn::Done(Seq::empty(), at)
    } else {
        let v = vars[i];
        let below = if !is_leaf(v) && depth > 1 {
            tree_rows(
                v.at("variablesReference"@).int_or(0),
                depth - 1,
                cap,
                indent + "  "@,
                replies,
                at,
            )
        } else {
            Turn::Done(Seq::empty(), at)
        };
        match below {
            Turn::Ask(a) => Turn::Ask(a),
            Turn::Done(sub, n) => match vars_rows(vars, i + 1, depth, cap, indent, replies, n) {
                Turn::Ask(a) => Turn::Ask(a),
                Turn::Done(rest, k) => Turn::Done(seq![var_row(v, indent)] + sub + rest, k),
            },
        }
    }
}

/// Puts the rows of the variables under a reference behind `out`.
pub fn render(
    rref: i64,
    depth: i32,
    cap: usize,
    indent: &str,
    replies: &Vec<Json>,
    at: usize,
    out: &mut Vec<String>,
) -> (s: Step<()>)
    requires
        at <= replies.len(),
    ensures
        match s {
            Step::Ask(q) => tree_rows(
                rref as int,
                depth as int,
                cap as int,
                indent@,
                docs(replies@),
                at as int,
            ) == Turn::<Seq<Seq<char>>>::Ask(q@),
            Step::Done(_, n) => tree_rows(
                rref as int,
                depth as int,
                cap as int,
                indent@,
                docs(replies@),
                at as int,
            ) matches Turn::Done(rows, k) && k == n && views(final(out)@) == views(old(out)@) + rows
                && at <= n <= replies.len(),
        },
    decreases depth, 1int, 0int,
{
    if rref == 0 || depth <= 0 {
        assert(views(out@) + Seq::<Seq<char>>::empty() =~= views(out@));
        return Step::Done((), at);
    }
    let (d, n): (&Json, usize) = match ask(ask_variables(rref), replies, at) {
        Step::Ask(q) => return Step::Ask(q),
        Step::Done(d, n) => (d, n),
    };
    let vars = match d.at("body").at("variables").as_array() {
        Some(a) => a,
        None => {
            assert(vars_in(d@) == Seq::<Doc>::empty());
            assert(Seq::<Seq<char>>::empty() + more_rows(0, cap as int, indent@)
                =~= Seq::<Seq<char>>::empty());
            assert(views(out@) + Seq::<Seq<char>>::empty() =~= views(out@));
            return Step::Done((), n);
        },
    };
    let ghost before = views(out@);
    match render_vars(vars, 0, depth, cap, indent, replies, n, out) {
        Step::Ask(q) => Step::Ask(q),
        Step::Done(_, k) => {
            let ghost rows = views(out@);
            if vars.len() > cap {
                let mut row = owned(indent);
                row.append("... (");
                let c = show_count(vars.len() - cap);
                row.append(c.as_str());
                row.append(" more)");
                let ghost t = row@;
                out.push(row);
                assert(views(out@) =~= rows.push(t));
                assert(views(out@) =~= rows + more_rows(vars@.len() as int, cap as int, indent@));
            } else {
                assert(rows + Seq::<Seq<char>>::empty() =~= rows);
            }
            proof {
                let t = vars_rows(
                    vars_in(d@),
                    0,
                    depth as int,
                    cap as int,
                    indent@,
                    docs(replies@),
                    n as int,
                );
                let own = t->Done_0;
                let tail = more_rows(vars@.len() as int, cap as int, indent@);
                assert((before + own) + tail =~= before + (own + tail));
            }
            Step::Done((), k)
        },
    }
}

fn render_vars(
    vars: &Vec<Json>,
    i: usize,
    depth: i32,
    cap: usize,
    indent: &str,
    replies: &Vec<Json>,
    at: usize,
    out: &mut Vec<String>,
) -> (s: Step<()>)
    requires
        at <= replies.len(),
        i <= vars.len(),
    ensures
        match s {
            Step::Ask(q) => vars_rows(
                docs(vars@),
                i as int,
                depth as int,
                cap as int,
                indent@,
                docs(replies@),
                at as int,
            ) == Turn::<Seq<Seq<char>>>::Ask(q@),
            Step::Done(_, n) => vars_rows(
                docs(vars@),
                i as int,
                depth as int,
                cap as int,
                indent@,
                docs(replies@),
                at as int,
            ) matches Turn::Done(rows, k) && k == n && views(final(out)@) == views(old(out)@) + rows
                && at <= n <= replies.len(),
        },
    decreases depth, 0int, vars.len() - i,
{
    if i >= vars.len() || i >= cap {
        assert(views(out@) + Seq::<Seq<char>>::empty() =~= views(out@));
        return Step::Done((), at);
    }
    let v = &vars[i];
    assert(docs(vars@)[i as int] == v@);
    let ghost before = views(out@);
    let mut row = owned(indent);
    let name = v.at("name").str_or("?");
    row.append(name.as_str());
    row.append(": ");
    let shown = repr(v);
    row.append(shown.as_str());
    let ghost t = row@;
    out.push(row);
    assert(views(out@) =~= before.push(t));
    let ghost mut sub = Seq::<Seq<char>>::empty();
    let mut n: usize = at;
    if !leaf(v) && depth > 1 {
        let mut deeper = owned(indent);
        deeper.append("  ");
        let child = v.at("variablesReference").int_or(0);
        let ghost turn = tree_rows(
            child as int,
            depth - 1,
            cap as int,
            indent@ + "  "@,
            docs(replies@),
            at as int,
        );
        match render(child, depth - 1, cap, deeper.as_str(), replies, at, out) {
            Step::Ask(q) => return Step::Ask(q),
            Step::Done(_, k) => {
                n = k;
                proof {
                    sub = turn->Done_0;
                }
            },
        }
        assert(views(out@) == before.push(t) + sub);
    } else {
        assert(before.push(t) + sub =~= before.push(t));
    }
    match render_vars(vars, i + 1, depth, cap, indent, replies, n, out) {
        Step::Ask(q) => Step::Ask(q),
        Step::Done(_, k) => {
            proof {
                let turn = vars_rows(
                    docs(vars@),
                    i + 1,
                    depth as int,
                    cap as int,
                    indent@,
                    docs(replies@),
                    n as int,
                );
                let rest = turn->Done_0;
                assert((before.push(t) + sub) + rest =~= before + (seq![t] + sub + rest));
            }
            Step::Done((), k)
        },
    }
}

/// The local variables of the selected frame as text.
pub open spec fn locals_text_turn(
    m: SessionModel,
    depth: int,
    cap: int,
    replies: Seq<Doc>,
    at: int,
) -> Turn<Seq<char>> {
    match locals_turn(m, replies, at) {
        Turn::Ask(a) => Turn::Ask(a),
        Turn::Done(r, n) => match tree_rows(r, depth, cap, "  "@, replies, n) {
            Turn::Ask(a) => Turn::Ask(a),
            Turn::Done(rows, k) => Turn::Done(
                if rows.len() == 0 {
                    "  (no locals)"@
                } else {
                    join(rows, "\n"@)
                },
                k,
            ),
        },
    }
}

impl Session {
    /// The local variables of the selected frame, at most twelve on a level.
    pub fn locals_text(&self, depth: i32, replies: &Vec<Json>, at: usize) -> (s: Step<String>)
        requires
            at <= replies.len(),
        ensures
            match s {
                Step::Ask(q) => locals_text_turn(
                    self@,
                    depth as int,
                    12,
                    docs(replies@),
                    at as int,
                ) == Turn::<Seq<char>>::Ask(q@),
                Step::Done(r, n) => locals_text_turn(
                    self@,
                    depth as int,
                    12,
                    docs(replies@),
                    at as int,
                ) == Turn::Done(r@, n as int) && at <= n <= replies.len(),
            },
    {
        self.locals_text_capped(depth, 12, replies, at)
    }

    /// Like `locals_text`, but with an explicit per-level child cap (raised by
    /// `vars --full` for a complete dump).
    pub fn locals_text_capped(
        &self,
        depth: i32,
        cap: usize,
        replies: &Vec<Json>,
        at: usize,
    ) -> (s: Step<String>)
        requires
            at <= replies.len(),
        ensures
            match s {
                Step::Ask(q) => locals_text_turn(
                    self@,
                    depth as int,
                    cap as int,
                    docs(replies@),
                    at as int,
                ) == Turn::<Seq<char>>::Ask(q@),
                Step::Done(r, n) => locals_text_turn(
                    self@,
                    depth as int,
                    cap as int,
                    docs(replies@),
                    at as int,
                ) == Turn::Done(r@, n as int) && at <= n <= replies.len(),
            },
    {
        let (rref, n): (i64, usize) = match self.locals_ref(replies, at) {
            Step::Ask(q) => return Step::Ask(q),
            Step::Done(r, n) => (r, n),
        };
        let mut out: Vec<String> = Vec::new();
        match render(rref, depth, cap, "  ", replies, n, &mut out) {
            Step::Ask(q) => Step::Ask(q),
            Step::Done(_, k) => {
                proof {
                    let rows = tree_rows(
                        rref as int,
                        depth as int,
                        cap as int,
                        "  "@,
                        docs(replies@),
                        n as int,
                    )->Done_0;
                    assert(views(out@) =~= rows);
                }
                if out.len() == 0 {
                    Step::Done(owned("  (no locals)"), k)
                } else {
                    Step::Done(join_all(&out, "\n"), k)
                }
            },
        }
    }
}

// ---------------------------------------------------------------------------
// What changed
// ---------------------------------------------------------------------------

/// The first local variables, by name and representation, at most `n`.
pub open spec fn snapshot_of(vars: Seq<Doc>, n: int) -> Seq<(Seq<char>, Seq<char>)> {
    let k = if vars.len() < n {
        vars.len() as int
    } else {
        n
    };
    Seq::new(k as nat, |i: int| (vars[i].at("name"@).text_or("?"@), var_repr(vars[i])))
}

/// The local variables of the selected frame, by name and representation.
pub open spec fn snapshot_turn(m: SessionModel, replies: Seq<Doc>, at: int) -> Turn<
    Seq<(Seq<char>, Seq<char>)>,
> {
    match locals_turn(m, replies, at) {
        Turn::Ask(a) => Turn::Ask(a),
        Turn::Done(r, n) => if r == 0 {
            Turn::Done(Seq::empty(), n)
        } else {
            match exchange(variables_ask(r), replies, n) {
                Turn::Ask(a) => Turn::Ask(a),
                Turn::Done(d, k) => Turn::Done(snapshot_of(vars_in(d), 24), k),
            }
        },
    }
}

/// The representation of a variable in a snapshot; of two with one name the
/// last counts.
pub open spec fn recorded(prev: Seq<(Seq<char>, Seq<char>)>, name: Seq<char>) -> Option<Seq<char>>
    decreases prev.len(),
{
    if prev.len() == 0 {
        None
    } else if prev.last().0 == name {
        Some(prev.last().1)
    } else {
        recorded(prev.drop_last(), name)
    }
}

/// The rows of what changed between two snapshots.
pub open spec fn delta_rows(
    prev: Seq<(Seq<char>, Seq<char>)>,
    cur: Seq<(Seq<char>, Seq<char>)>,
) -> Seq<Seq<char>>
    decreases cur.len(),
{
    if cur.len() == 0 {
        Seq::empty()
    } else {
        let rows = delta_rows(prev, cur.drop_last());
        let name = cur.last().0;
        let repr = cur.last().1;
        match recorded(prev, name) {
            Some(before) => if before == repr {
                rows
            } else {
                rows.push(
                    "  ~ "@ + name + ": "@ + repr + " (was "@ + value_in(before) + ")"@,
                )
            },
            None => rows.push("  + "@ + name + ": "@ + repr),
        }
    }
}

/// How many variables are as they were.
pub open spec fn unchanged_count(
    prev: Seq<(Seq<char>, Seq<char>)>,
    cur: Seq<(Seq<char>, Seq<char>)>,
) -> int
    decreases cur.len(),
{
    if cur.len() == 0 {
        0
    } else {
        unchanged_count(prev, cur.drop_last()) + if recorded(prev, cur.last().0) == Some(
            cur.last().1,
        ) {
            1int
        } else {
            0
        }
    }
}

/// What changed between two snapshots.
pub open spec fn delta_text(
    prev: Seq<(Seq<char>, Seq<char>)>,
    cur: Seq<(Seq<char>, Seq<char>)>,
) -> Seq<char> {
    let rows = delta_rows(prev, cur);
    let same_ones = unchanged_count(prev, cur);
    if rows.len() == 0 {
        if same_ones == 0 {
            "  (no locals)"@
        } else {
            "  (no change; "@ + int_text(same_ones) + " unchanged)"@
        }
    } else if same_ones > 0 {
        join(rows.push("  (+"@ + int_text(same_ones) + " unchanged)"@), "\n"@)
    } else {
        join(rows, "\n"@)
    }
}

fn find_recorded<'a>(prev: &'a Vec<(String, String)>, name: &str) -> (r: Option<&'a String>)
    ensures
        match r {
            Some(t) => recorded(pairs_in(prev@), name@) == Some(t@),
            None => recorded(pairs_in(prev@), name@) is None,
        },
{
    let ghost all = pairs_in(prev@);
    let mut i: usize = prev.len();
    assert(all.take(i as int) =~= all);
    while i > 0
        invariant
            i <= prev.len(),
            all == pairs_in(prev@),
            recorded(all, name@) == recorded(all.take(i as int), name@),
        decreases i,
    {
        assert(all.take(i as int).drop_last() =~= all.take(i - 1));
        assert(all.take(i as int).last() == all[i - 1]);
        if same(prev[i - 1].0.as_str(), name) {
            return Some(&prev[i - 1].1);
        }
        i -= 1;
    }
    None
}

impl Session {
    /// The top frame's depth-1 locals, by name and `type = value`.
    pub fn locals_snapshot(&self, replies: &Vec<Json>, at: usize) -> (s: Step<
        Vec<(String, String)>,
    >)
        requires
            at <= replies.len(),
        ensures
            match s {
                Step::Ask(q) => snapshot_turn(self@, docs(replies@), at as int) == Turn::<
                    Seq<(Seq<char>, Seq<char>)>,
                >::Ask(q@),
                Step::Done(r, n) => snapshot_turn(self@, docs(replies@), at as int) == Turn::Done(
                    pairs_in(r@),
                    n as int,
                ) && at <= n <= replies.len(),
            },
    {
        let mut cur: Vec<(String, String)> = Vec::new();
        let (rref, n): (i64, usize) = match self.locals_ref(replies, at) {
            Step::Ask(q) => return Step::Ask(q),
            Step::Done(r, n) => (r, n),
        };
        if rref == 0 {
            assert(pairs_in(cur@) =~= Seq::empty());
            return Step::Done(cur, n);
        }
        match ask(ask_variables(rref), replies, n) {
            Step::Ask(q) => Step::Ask(q),
            Step::Done(d, k) => {
                match d.at("body").at("variables").as_array() {
                    Some(vars) => {
                        let mut i: usize = 0;
                        while i < vars.len() && i < 24
                            invariant
                                i <= vars.len(),
                                i <= 24,
                                cur.len() == i,
                                forall|j: int|
                                    0 <= j < i ==> (#[trigger] cur@[j]).0@ == docs(vars@)[j].at(
                                        "name"@,
                                    ).text_or("?"@) && cur@[j].1@ == var_repr(docs(vars@)[j]),
                            decreases vars.len() - i,
                        {
                            let v = &vars[i];
                            assert(docs(vars@)[i as int] == v@);
                            let name = v.at("name").str_or("?");
                            cur.push((name, repr(v)));
                            i += 1;
                        }
                        assert(pairs_in(cur@) =~= snapshot_of(docs(vars@), 24));
                    },
                    None => {
                        assert(vars_in(d@) == Seq::<Doc>::empty());
                        assert(pairs_in(cur@) =~= snapshot_of(vars_in(d@), 24));
                    },
                }
                Step::Done(cur, k)
            },
        }
    }

    /// Diff a snapshot of the locals against the previous stop's, and return
    /// only what changed: `~ name` for a changed value (with the old one), `+
    /// name` for a new local, and a `(+N unchanged)` tail. Keeps the snapshot
    /// for the next stop.
    pub fn locals_delta(&mut self, cur: Vec<(String, String)>) -> (r: String)
        ensures
            r@ == delta_text(old(self)@.prev_locals, pairs_in(cur@)),
            final(self)@ == (SessionModel { prev_locals: pairs_in(cur@), ..old(self)@ }),
            old(self)@.wf() ==> final(self)@.wf(),
    {
        let ghost prev = self@.prev_locals;
        let ghost all = pairs_in(cur@);
        let mut rows: Vec<String> = Vec::new();
        let mut unchanged: usize = 0;
        let mut i: usize = 0;
        assert(all.take(0) =~= Seq::empty());
        assert(views(rows@) =~= Seq::empty());
        while i < cur.len()
            invariant
                i <= cur.len(),
                unchanged <= i,
                prev == pairs_in(self.prev_locals@),
                all == pairs_in(cur@),
                views(rows@) == delta_rows(prev, all.take(i as int)),
                unchanged == unchanged_count(prev, all.take(i as int)),
            decreases cur.len() - i,
        {
            assert(all.take(i + 1).drop_last() =~= all.take(i as int));
            assert(all.take(i + 1).last() == all[i as int]);
            let ghost before = views(rows@);
            let name = cur[i].0.as_str();
            let text = cur[i].1.as_str();
            match find_recorded(&self.prev_locals, name) {
                Some(p) => {
                    if same(p.as_str(), text) {
                        unchanged += 1;
                    } else {
                        let mut row = String::from_str("  ~ ");
                        row.append(name);
                        row.append(": ");
                        row.append(text);
                        row.append(" (was ");
                        let was = value_part(p.as_str());
                        row.append(was.as_str());
                        row.append(")");
                        let ghost t = row@;
                        rows.push(row);
                        assert(views(rows@) =~= before.push(t));
                    }
                },
                None => {
                    let mut row = String::from_str("  + ");
                    row.append(name);
                    row.append(": ");
                    row.append(text);
                    let ghost t = row@;
                    rows.push(row);
                    assert(views(rows@) =~= before.push(t));
                },
            }
            i += 1;
        }
        assert(all.take(all.len() as int) =~= all);
        self.prev_locals = cur;
        if rows.len() == 0 {
            if unchanged == 0 {
                owned("  (no locals)")
            } else {
                let mut r = String::from_str("  (no change; ");
                let c = show_count(unchanged);
                r.append(c.as_str());
                r.append(" unchanged)");
                r
            }
        } else {
            if unchanged > 0 {
                let ghost before = views(rows@);
                let mut row = String::from_str("  (+");
                let c = show_count(unchanged);
                row.append(c.as_str());
                row.append(" unchanged)");
                let ghost t = row@;
                rows.push(row);
                assert(views(rows@) =~= before.push(t));
            }
            join_all(&rows, "\n")
        }
    }
}

proof fn lemma_recorded_self(cur: Seq<(Seq<char>, Seq<char>)>, i: int)
    requires
        0 <= i < cur.len(),
        forall|j: int, k: int|
            0 <= j < k < cur.len() ==> (#[trigger] cur[j]).0 != (#[trigger] cur[k]).0,
    ensures
        recorded(cur, cur[i].0) == Some(cur[i].1),
    decreases cur.len(),
{
    if i < cur.len() - 1 {
        assert(cur[i].0 != cur[cur.len() - 1].0);
        assert(cur.drop_last()[i] == cur[i]);
        assert forall|j: int, k: int| 0 <= j < k < cur.drop_last().len() implies (
        #[trigger] cur.drop_last()[j]).0 != (#[trigger] cur.drop_last()[k]).0 by {
            assert(cur[j].0 != cur[k].0);
        }
        lemma_recorded_self(cur.drop_last(), i);
    }
}

proof fn lemma_no_delta(prev: Seq<(Seq<char>, Seq<char>)>, cur: Seq<(Seq<char>, Seq<char>)>)
    requires
        forall|i: int|
            0 <= i < cur.len() ==> recorded(prev, (#[trigger] cur[i]).0) == Some(cur[i].1),
    ensures
        delta_rows(prev, cur).len() == 0,
        unchanged_count(prev, cur) == cur.len(),
    decreases cur.len(),
{
    if cur.len() > 0 {
        assert forall|i: int| 0 <= i < cur.drop_last().len() implies recorded(
            prev,
            (#[trigger] cur.drop_last()[i]).0,
        ) == Some(cur.drop_last()[i].1) by {
            assert(cur.drop_last()[i] == cur[i]);
        }
        lemma_no_delta(prev, cur.drop_last());
        assert(cur[cur.len() - 1] == cur.last());
    }
}

/// Two stops with the same variables, no two of one name, show no change.
pub proof fn same_locals_show_no_change(cur: Seq<(Seq<char>, Seq<char>)>)
    requires
        cur.len() > 0,
        forall|j: int, k: int|
            0 <= j < k < cur.len() ==> (#[trigger] cur[j]).0 != (#[trigger] cur[k]).0,
    ensures
        delta_text(cur, cur) == "  (no change; "@ + int_text(cur.len() as int) + " unchanged)"@,
{
    assert forall|i: int| 0 <= i < cur.len() implies recorded(cur, (#[trigger] cur[i]).0) == Some(
        cur[i].1,
    ) by {
        lemma_recorded_self(cur, i);
    }
    lemma_no_delta(cur, cur);
}

// ---------------------------------------------------------------------------
// Changing and watching
// ---------------------------------------------------------------------------

pub open spec fn set_ask(rref: int, name: Seq<char>, value: Seq<char>) -> Ask {
    asking(
        "setVariable"@,
        no_keys().with("variablesReference"@, Doc::Int(rref)).with("name"@, Doc::Str(name)).with(
            "value"@,
            Doc::Str(value),
        ),
        10,
    )
}

/// What became of a change to a variable.
pub open spec fn set_text(path: Seq<char>, reply: Doc) -> Seq<char> {
    if reply.at("success"@).bool_or(false) {
        path + " = "@ + reply.at("body"@).at("value"@).text_or(""@)
    } else {
        "(cannot set "@ + debug_text(path) + ": "@ + reply.at("message"@).text_or("error"@) + ")"@
    }
}

pub open spec fn set_turn(
    m: SessionModel,
    path: Seq<char>,
    value: Seq<char>,
    replies: Seq<Doc>,
    at: int,
) -> Turn<Seq<char>> {
    match resolve_turn(m, path, replies, at) {
        Turn::Ask(a) => Turn::Ask(a),
        Turn::Done(None, n) => Turn::Done(
            "(variable "@ + debug_text(path) + " not found)"@,
            n,
        ),
        Turn::Done(Some((rref, name)), n) => match exchange(
            set_ask(rref, name, value),
            replies,
            n,
        ) {
            Turn::Ask(a) => Turn::Ask(a),
            Turn::Done(d, k) => Turn::Done(set_text(path, d), k),
        },
    }
}

pub open spec fn data_info_ask(rref: int, name: Seq<char>) -> Ask {
    asking(
        "dataBreakpointInfo"@,
        no_keys().with("variablesReference"@, Doc::Int(rref)).with("name"@, Doc::Str(name)),
        120,
    )
}

/// The data that a variable is watched by, or why it cannot be.
pub open spec fn data_id_in(var: Seq<char>, reply: Doc) -> Result<Seq<char>, Seq<char>> {
    match reply.at("body"@).at("dataId"@).text() {
        Some(d) => Ok(d),
        None => Err(
            "cannot watch "@ + debug_text(var) + ": "@ + reply.at("body"@).at(
                "description"@,
            ).text_or("unsupported"@),
        ),
    }
}

pub open spec fn watch_turn(
    m: SessionModel,
    var: Seq<char>,
    replies: Seq<Doc>,
    at: int,
) -> Turn<Result<Seq<char>, Seq<char>>> {
    match resolve_turn(m, var, replies, at) {
        Turn::Ask(a) => Turn::Ask(a),
        Turn::Done(None, n) => Turn::Done(
            Err("variable "@ + debug_text(var) + " not found in the current frame"@),
            n,
        ),
        Turn::Done(Some((rref, name)), n) => match exchange(
            data_info_ask(rref, name),
            replies,
            n,
        ) {
            Turn::Ask(a) => Turn::Ask(a),
            Turn::Done(d, k) => Turn::Done(data_id_in(var, d), k),
        },
    }
}

impl Session {
    /// Changes the variable at a path; says what became of it.
    pub fn set_variable(&self, path: &str, value: &str, replies: &Vec<Json>, at: usize) -> (s: Step<
        String,
    >)
        requires
            at <= replies.len(),
        ensures
            match s {
                Step::Ask(q) => set_turn(self@, path@, value@, docs(replies@), at as int)
                    == Turn::<Seq<char>>::Ask(q@),
                Step::Done(r, n) => set_turn(self@, path@, value@, docs(replies@), at as int)
                    == Turn::Done(r@, n as int) && at <= n <= replies.len(),
            },
    {
        let quoted = show_debug(path);
        let ((rref, name), n): ((i64, String), usize) = match self.resolve_var_ref(
            path,
            replies,
            at,
        ) {
            Step::Ask(q) => return Step::Ask(q),
            Step::Done(None, n) => {
                let mut r = String::from_str("(variable ");
                r.append(quoted.as_str());
                r.append(" not found)");
                return Step::Done(r, n);
            },
            Step::Done(Some(p), n) => (p, n),
        };
        let request = Request::new(
            "setVariable",
            Json::obj().with("variablesReference", Json::number(rref)).with(
                "name",
                Json::text(name.as_str()),
            ).with("value", Json::text(value)),
            10,
        );
        match ask(request, replies, n) {
            Step::Ask(q) => Step::Ask(q),
            Step::Done(d, k) => {
                if !d.at("success").bool_or(false) {
                    let m = d.at("message").str_or("error");
                    let mut r = String::from_str("(cannot set ");
                    r.append(quoted.as_str());
                    r.append(": ");
                    r.append(m.as_str());
                    r.append(")");
                    return Step::Done(r, k);
                }
                let mut r = owned(path);
                r.append(" = ");
                let v = d.at("body").at("value").str_or("");
                r.append(v.as_str());
                Step::Done(r, k)
            },
        }
    }

    /// The data by which the adapter can watch a variable; an error where it
    /// cannot. With it [`Session::add_data_bp`] adds the breakpoint.
    pub fn add_watchpoint(&self, var: &str, replies: &Vec<Json>, at: usize) -> (s: Step<
        Result<String, String>,
    >)
        requires
            at <= replies.len(),
        ensures
            match s {
                Step::Ask(q) => watch_turn(self@, var@, docs(replies@), at as int) == Turn::<
                    Result<Seq<char>, Seq<char>>,
                >::Ask(q@),
                Step::Done(r, n) => watch_turn(self@, var@, docs(replies@), at as int)
                    == Turn::Done(text_result(r), n as int) && at <= n <= replies.len(),
            },
    {
        let quoted = show_debug(var);
        let ((rref, name), n): ((i64, String), usize) = match self.resolve_var_ref(
            var,
            replies,
            at,
        ) {
            Step::Ask(q) => return Step::Ask(q),
            Step::Done(None, n) => {
                let mut r = String::from_str("variable ");
                r.append(quoted.as_str());
                r.append(" not found in the current frame");
                return Step::Done(Err(r), n);
            },
            Step::Done(Some(p), n) => (p, n),
        };
        let request = Request::new(
            "dataBreakpointInfo",
            Json::obj().with("variablesReference", Json::number(rref)).with(
                "name",
                Json::text(name.as_str()),
            ),
            120,
        );
        match ask(request, replies, n) {
            Step::Ask(q) => Step::Ask(q),
            Step::Done(d, k) => match d.at("body").at("dataId").as_str() {
                Some(id) => Step::Done(Ok(owned(id)), k),
                None => {
                    let why = d.at("body").at("description").str_or("unsupported");
                    let mut r = String::from_str("cannot watch ");
                    r.append(quoted.as_str());
                    r.append(": ");
                    r.append(why.as_str());
                    Step::Done(Err(r), k)
                },
            },
        }
    }
}

/// The rows of the watch expressions from `i` on.
pub open spec fn watch_rows(
    m: SessionModel,
    i: int,
    replies: Seq<Doc>,
    at: int,
) -> Turn<Seq<Seq<char>>>
    decreases m.watches.len() - i,
{
    if i < 0 || i >= m.watches.len() {
        Turn::Done(Seq::empty(), at)
    } else {
        match evaluate_turn(m, m.watches[i], replies, at) {
            Turn::Ask(a) => Turn::Ask(a),
            Turn::Done(v, n) => match watch_rows(m, i + 1, replies, n) {
                Turn::Ask(a) => Turn::Ask(a),
                Turn::Done(rest, k) => Turn::Done(
                    seq!["  "@ + m.watches[i] + ": "@ + v] + rest,
                    k,
                ),
            },
        }
    }
}

/// The watch expressions and their values.
pub open spec fn watches_turn(m: SessionModel, replies: Seq<Doc>, at: int) -> Turn<Seq<char>> {
    if m.watches.len() == 0 {
        Turn::Done("  (no watch expressions)"@, at)
    } else {
        match watch_rows(m, 0, replies, at) {
            Turn::Ask(a) => Turn::Ask(a),
            Turn::Done(rows, n) => Turn::Done(join(rows, "\n"@), n),
        }
    }
}

/// A thread and where it is.
pub open spec fn thread_row(m: SessionModel, t: Doc, fs: Seq<FrameModel>) -> Seq<char> {
    let id = t.at("id"@).int_or(0);
    let place = if fs.len() > 0 {
        fs[0].name + " "@ + fs[0].file + ":"@ + int_text(fs[0].line)
    } else {
        "?"@
    };
    " "@ + (if m.cur_thread == Some(id) {
        "*"@
    } else {
        " "@
    }) + " thread "@ + int_text(id) + " ["@ + t.at("name"@).text_or(""@) + "]  "@ + place
}

/// The rows of the threads from `i` on.
pub open spec fn thread_rows(
    m: SessionModel,
    i: int,
    replies: Seq<Doc>,
    at: int,
) -> Turn<Seq<Seq<char>>>
    decreases m.threads.len() - i,
{
    if i < 0 || i >= m.threads.len() {
        Turn::Done(Seq::empty(), at)
    } else {
        match exchange(frames_ask(m.threads[i].at("id"@).int_or(0)), replies, at) {
            Turn::Ask(a) => Turn::Ask(a),
            Turn::Done(d, n) => match thread_rows(m, i + 1, replies, n) {
                Turn::Ask(a) => Turn::Ask(a),
                Turn::Done(rest, k) => Turn::Done(
                    seq![thread_row(m, m.threads[i], frames_from(d))] + rest,
                    k,
                ),
            },
        }
    }
}

/// The threads and where each is.
pub open spec fn threads_turn(m: SessionModel, replies: Seq<Doc>, at: int) -> Turn<Seq<char>> {
    if m.threads.len() == 0 {
        Turn::Done("(no threads)"@, at)
    } else {
        match thread_rows(m, 0, replies, at) {
            Turn::Ask(a) => Turn::Ask(a),
            Turn::Done(rows, n) => Turn::Done(join(rows, "\n"@), n),
        }
    }
}

/// A turn with rows put in front of its outcome.
pub open spec fn behind(rows: Seq<Seq<char>>, t: Turn<Seq<Seq<char>>>) -> Turn<Seq<Seq<char>>> {
    match t {
        Turn::Ask(a) => Turn::Ask(a),
        Turn::Done(rest, n) => Turn::Done(rows + rest, n),
    }
}

impl Session {
    /// The watch expressions and their values.
    pub fn watches_text(&self, replies: &Vec<Json>, at: usize) -> (s: Step<String>)
        requires
            at <= replies.len(),
        ensures
            match s {
                Step::Ask(q) => watches_turn(self@, docs(replies@), at as int) == Turn::<
                    Seq<char>,
                >::Ask(q@),
                Step::Done(r, n) => watches_turn(self@, docs(replies@), at as int) == Turn::Done(
                    r@,
                    n as int,
                ) && at <= n <= replies.len(),
            },
    {
        if self.watches.len() == 0 {
            return Step::Done(owned("  (no watch expressions)"), at);
        }
        let mut rows: Vec<String> = Vec::new();
        let mut pos: usize = at;
        let mut i: usize = 0;
        let ghost all = watch_rows(self@, 0, docs(replies@), at as int);
        assert(behind(views(rows@), all) == all) by {
            if let Turn::Done(r, _) = all {
                assert(views(rows@) + r =~= r);
            }
        }
        while i < self.watches.len()
            invariant
                i <= self.watches.len(),
                at <= pos <= replies.len(),
                all == watch_rows(self@, 0, docs(replies@), at as int),
                all == behind(
                    views(rows@),
                    watch_rows(self@, i as int, docs(replies@), pos as int),
                ),
                self@.watches.len() > 0,
            decreases self.watches.len() - i,
        {
            let e = self.watches[i].as_str();
            assert(self@.watches[i as int] == e@);
            let (v, n): (String, usize) = match self.evaluate(e, replies, pos) {
                Step::Ask(q) => return Step::Ask(q),
                Step::Done(v, n) => (v, n),
            };
            let mut row = String::from_str("  ");
            row.append(e);
            row.append(": ");
            row.append(v.as_str());
            let ghost before = views(rows@);
            let ghost t = row@;
            rows.push(row);
            assert(views(rows@) =~= before.push(t));
            proof {
                let rest = watch_rows(self@, i + 1, docs(replies@), n as int);
                if let Turn::Done(r, _) = rest {
                    assert(before + (seq![t] + r) =~= before.push(t) + r);
                }
            }
            pos = n;
            i += 1;
        }
        assert(views(rows@) + Seq::<Seq<char>>::empty() =~= views(rows@));
        Step::Done(join_all(&rows, "\n"), pos)
    }

    /// The threads and where each is; the current one is marked.
    pub fn threads_text(&self, replies: &Vec<Json>, at: usize) -> (s: Step<String>)
        requires
            at <= replies.len(),
        ensures
            match s {
                Step::Ask(q) => threads_turn(self@, docs(replies@), at as int) == Turn::<
                    Seq<char>,
                >::Ask(q@),
                Step::Done(r, n) => threads_turn(self@, docs(replies@), at as int) == Turn::Done(
                    r@,
                    n as int,
                ) && at <= n <= replies.len(),
            },
    {
        if self.threads.len() == 0 {
            return Step::Done(owned("(no threads)"), at);
        }
        let mut rows: Vec<String> = Vec::new();
        let mut pos: usize = at;
        let mut i: usize = 0;
        let ghost all = thread_rows(self@, 0, docs(replies@), at as int);
        assert(behind(views(rows@), all) == all) by {
            if let Turn::Done(r, _) = all {
                assert(views(rows@) + r =~= r);
            }
        }
        while i < self.threads.len()
            invariant
                i <= self.threads.len(),
                at <= pos <= replies.len(),
                all == thread_rows(self@, 0, docs(replies@), at as int),
                all == behind(
                    views(rows@),
                    thread_rows(self@, i as int, docs(replies@), pos as int),
                ),
                self@.threads.len() > 0,
            decreases self.threads.len() - i,
        {
            let thread = &self.threads[i];
            assert(self@.threads[i as int] == thread@);
            let id = thread.at("id").int_or(0);
            let (d, n): (&Json, usize) = match ask(ask_frames(id), replies, pos) {
                Step::Ask(q) => return Step::Ask(q),
                Step::Done(d, n) => (d, n),
            };
            let fs = frames(d);
            let mut row = String::from_str(" ");
            let current = match self.cur_thread {
                Some(c) => c == id,
                None => false,
            };
            if current {
                row.append("*");
            } else {
                row.append(" ");
            }
            row.append(" thread ");
            let num = show_int(id);
            row.append(num.as_str());
            row.append(" [");
            let name = thread.at("name").str_or("");
            row.append(name.as_str());
            row.append("]  ");
            if fs.len() > 0 {
                assert(frames_from(d@)[0] == fs@[0]@);
                let mut place = owned(fs[0].name.as_str());
                place.append(" ");
                place.append(fs[0].file.as_str());
                place.append(":");
                let line = show_int(fs[0].line);
                place.append(line.as_str());
                row.append(place.as_str());
            } else {
                row.append("?");
            }
            let ghost before = views(rows@);
            let ghost t = row@;
            assert(t == thread_row(self@, thread@, frames_from(d@)));
            rows.push(row);
            assert(views(rows@) =~= before.push(t));
            proof {
                let rest = thread_rows(self@, i + 1, docs(replies@), n as int);
                if let Turn::Done(r, _) = rest {
                    assert(before + (seq![t] + r) =~= before.push(t) + r);
                }
            }
            pos = n;
            i += 1;
        }
        assert(views(rows@) + Seq::<Seq<char>>::empty() =~= views(rows@));
        Step::Done(join_all(&rows, "\n"), pos)
    }
}

// ---------------------------------------------------------------------------
// What is shown of variables
// ---------------------------------------------------------------------------

/// A snapshot has a variable last as `repr`.
pub open spec fn last_was(
    prev: Seq<(Seq<char>, Seq<char>)>,
    name: Seq<char>,
    repr: Seq<char>,
) -> bool {
    exists|j: int|
        {
            &&& 0 <= j < prev.len()
            &&& #[trigger] prev[j] == (name, repr)
            &&& forall|k: int| j < k < prev.len() ==> (#[trigger] prev[k]).0 != name
        }
}

proof fn lemma_recorded(prev: Seq<(Seq<char>, Seq<char>)>, name: Seq<char>)
    ensures
        match recorded(prev, name) {
            Some(repr) => last_was(prev, name, repr),
            None => forall|j: int| 0 <= j < prev.len() ==> (#[trigger] prev[j]).0 != name,
        },
    decreases prev.len(),
{
    if prev.len() > 0 {
        let n = prev.len() - 1;
        let rest = prev.drop_last();
        if prev[n].0 == name {
            assert(prev[n] == (name, prev[n].1));
        } else {
            lemma_recorded(rest, name);
            match recorded(rest, name) {
                Some(repr) => {
                    let j = choose|j: int|
                        {
                            &&& 0 <= j < rest.len()
                            &&& #[trigger] rest[j] == (name, repr)
                            &&& forall|k: int| j < k < rest.len() ==> (#[trigger] rest[k]).0 != name
                        };
                    assert(prev[j] == (name, repr));
                    assert forall|k: int| j < k < prev.len() implies (#[trigger] prev[k]).0
                        != name by {
                        if k < n {
                            assert(rest[k] == prev[k]);
                        }
                    }
                },
                None => {
                    assert forall|j: int| 0 <= j < prev.len() implies (#[trigger] prev[j]).0
                        != name by {
                        if j < n {
                            assert(rest[j] == prev[j]);
                        }
                    }
                },
            }
        }
    }
}

proof fn lemma_last_was(prev: Seq<(Seq<char>, Seq<char>)>, name: Seq<char>, repr: Seq<char>)
    requires
        last_was(prev, name, repr),
    ensures
        recorded(prev, name) == Some(repr),
{
    lemma_recorded(prev, name);
    let j = choose|j: int|
        {
            &&& 0 <= j < prev.len()
            &&& #[trigger] prev[j] == (name, repr)
            &&& forall|k: int| j < k < prev.len() ==> (#[trigger] prev[k]).0 != name
        };
    assert(prev[j].0 == name);
    if let Some(other) = recorded(prev, name) {
        let i = choose|i: int|
            {
                &&& 0 <= i < prev.len()
                &&& #[trigger] prev[i] == (name, other)
                &&& forall|k: int| i < k < prev.len() ==> (#[trigger] prev[k]).0 != name
            };
        assert(prev[i].0 == name);
        assert(i == j);
    }
}

/// The row that tells of a variable that is not as it was: behind a `~` with
/// the value that it had, or behind a `+` where there was none of its name.
pub open spec fn tells_of_change(
    row: Seq<char>,
    prev: Seq<(Seq<char>, Seq<char>)>,
    name: Seq<char>,
    repr: Seq<char>,
) -> bool {
    ||| row == "  + "@ + name + ": "@ + repr && forall|j: int|
        0 <= j < prev.len() ==> (#[trigger] prev[j]).0 != name
    ||| exists|before: Seq<char>|
        {
            &&& #[trigger] last_was(prev, name, before)
            &&& before != repr
            &&& row == "  ~ "@ + name + ": "@ + repr + " (was "@ + value_in(before) + ")"@
        }
}

/// Exactly the variables that are not as they were are told of, each by a row
/// of its own and in their order; all others are counted.
pub proof fn exactly_what_changed_is_shown(
    prev: Seq<(Seq<char>, Seq<char>)>,
    cur: Seq<(Seq<char>, Seq<char>)>,
)
    ensures
        ({
            let changed = cur.filter(
                |c: (Seq<char>, Seq<char>)| !last_was(prev, c.0, c.1),
            );
            let rows = delta_rows(prev, cur);
            &&& rows.len() == changed.len()
            &&& forall|k: int|
                0 <= k < rows.len() ==> tells_of_change(
                    #[trigger] rows[k],
                    prev,
                    changed[k].0,
                    changed[k].1,
                )
            &&& unchanged_count(prev, cur) == cur.len() - rows.len()
        }),
    decreases cur.len(),
{
    reveal(Seq::filter);
    let p = |c: (Seq<char>, Seq<char>)| !last_was(prev, c.0, c.1);
    if cur.len() > 0 {
        exactly_what_changed_is_shown(prev, cur.drop_last());
        let (name, repr) = cur.last();
        lemma_recorded(prev, name);
        if last_was(prev, name, repr) {
            lemma_last_was(prev, name, repr);
        }
        let rows = delta_rows(prev, cur);
        let before = delta_rows(prev, cur.drop_last());
        let changed = cur.filter(p);
        let earlier = cur.drop_last().filter(p);
        if p(cur.last()) {
            assert(changed == earlier.push(cur.last()));
            assert(rows.drop_last() =~= before);
            assert forall|k: int| 0 <= k < rows.len() implies tells_of_change(
                #[trigger] rows[k],
                prev,
                changed[k].0,
                changed[k].1,
            ) by {
                if k < before.len() {
                    assert(rows[k] == before[k]);
                }
            }
        }
    }
}

/// What changed is told row by row; behind that, how many are as they were,
/// where there are any. Where nothing changed, that is said with their number.
pub proof fn changes_come_before_the_count(
    prev: Seq<(Seq<char>, Seq<char>)>,
    cur: Seq<(Seq<char>, Seq<char>)>,
)
    ensures
        ({
            let rows = delta_rows(prev, cur);
            let same_ones = cur.len() - rows.len();
            let t = delta_text(prev, cur);
            &&& cur.len() == 0 ==> t == "  (no locals)"@
            &&& cur.len() > 0 && rows.len() == 0 ==> t == "  (no change; "@ + int_text(same_ones)
                + " unchanged)"@
            &&& rows.len() > 0 && same_ones == 0 ==> t == join(rows, "\n"@)
            &&& rows.len() > 0 && same_ones > 0 ==> t == join(rows, "\n"@) + "\n"@ + ("  (+"@
                + int_text(same_ones) + " unchanged)"@)
        }),
{
    exactly_what_changed_is_shown(prev, cur);
    let rows = delta_rows(prev, cur);
    lemma_join_push(
        rows,
        "\n"@,
        "  (+"@ + int_text(cur.len() - rows.len()) + " unchanged)"@,
    );
}

/// A snapshot is of the first two dozen variables, each by its name.
pub proof fn a_snapshot_names_the_first_variables(reply: Doc, i: int)
    ensures
        ({
            let vars = reply.at("body"@).at("variables"@).items();
            let shot = snapshot_of(vars_in(reply), 24);
            &&& shot.len() == if vars.len() <= 24 {
                vars.len() as int
            } else {
                24
            }
            &&& 0 <= i < shot.len() && vars[i].at("name"@) is Str ==> vars[i].at("name"@)
                == Doc::Str(shot[i].0)
            &&& 0 <= i < shot.len() ==> shot[i].1 == var_repr(vars[i])
        }),
{
}

/// A variable without children is shown with its value, behind its type; one
/// whose children are shown in its place by its type alone.
pub proof fn a_variable_shows_its_value_or_its_children(v: Doc, value: Seq<char>)
    requires
        v.at("value"@) == Doc::Str(value),
        value.len() > 0,
    ensures
        v.at("variablesReference"@) == Doc::Int(0) || !v.has("variablesReference"@) ==> var_repr(v)
            == short_type_of(v.at("type"@).text_or(""@)) + " = "@ + value,
        is_leaf(v) ==> var_repr(v) == short_type_of(v.at("type"@).text_or(""@)) + " = "@ + value,
        !is_leaf(v) ==> var_repr(v) == short_type_of(v.at("type"@).text_or(""@)) && v.at(
            "variablesReference"@,
        ) is Int,
{
}

/// The rows of one level are those of its variables in their order, `starts`
/// saying where each begins: the variable's own row, then, two blanks further
/// in and one level less deep, the rows of what lies under it. `taken` says
/// which reply each of them goes on from.
pub open spec fn rows_of_level(
    vars: Seq<Doc>,
    from: int,
    depth: int,
    cap: int,
    indent: Seq<char>,
    replies: Seq<Doc>,
    rows: Seq<Seq<char>>,
    starts: Seq<int>,
    taken: Seq<int>,
) -> bool {
    forall|i: int|
        from <= i < from + starts.len() - 1 ==> {
            let v = #[trigger] vars[i];
            let a = starts[i - from];
            let b = starts[i - from + 1];
            &&& 0 <= a < b <= rows.len()
            &&& rows[a] == indent + v.at("name"@).text_or("?"@) + ": "@ + var_repr(v)
            &&& if depth > 1 && !is_leaf(v) {
                tree_rows(
                    v.at("variablesReference"@).int_or(0),
                    depth - 1,
                    cap,
                    indent + "  "@,
                    replies,
                    taken[i - from],
                ) == Turn::Done(rows.subrange(a + 1, b), taken[i - from + 1])
            } else {
                b == a + 1 && taken[i - from + 1] == taken[i - from]
            }
        }
}

/// The rows below a variable.
#[verifier::opaque]
spec fn sub_rows(
    v: Doc,
    depth: int,
    cap: int,
    indent: Seq<char>,
    replies: Seq<Doc>,
    at: int,
) -> Turn<Seq<Seq<char>>> {
    if !is_leaf(v) && depth > 1 {
        tree_rows(
            v.at("variablesReference"@).int_or(0),
            depth - 1,
            cap,
            indent + "  "@,
            replies,
            at,
        )
    } else {
        Turn::Done(Seq::empty(), at)
    }
}

proof fn lemma_vars_rows(
    vars: Seq<Doc>,
    i: int,
    depth: int,
    cap: int,
    indent: Seq<char>,
    replies: Seq<Doc>,
    at: int,
) -> (r: (Seq<int>, Seq<int>))
    requires
        0 <= i <= vars.len(),
        0 <= i <= cap || i == 0,
    ensures
        vars_rows(vars, i, depth, cap, indent, replies, at) matches Turn::Done(rows, n) ==> {
            &&& r.0.len() == r.1.len()
            &&& r.0.len() == 1 + if vars.len() <= cap {
                vars.len() - i
            } else if cap > i {
                cap - i
            } else {
                0
            }
            &&& r.0[0] == 0
            &&& r.0.last() == rows.len()
            &&& r.1[0] == at
            &&& r.1.last() == n
            &&& forall|c: int|
                i <= c < i + r.0.len() - 1 ==> {
                    let v = #[trigger] vars[c];
                    let a = r.0[c - i];
                    let b = r.0[c - i + 1];
                    &&& 0 <= a < b <= rows.len()
                    &&& rows[a] == indent + v.at("name"@).text_or("?"@) + ": "@ + var_repr(v)
                    &&& sub_rows(v, depth, cap, indent, replies, r.1[c - i]) == Turn::Done(
                        rows.subrange(a + 1, b),
                        r.1[c - i + 1],
                    )
                }
        },
    decreases vars.len() - i,
{
    if i >= vars.len() || i >= cap {
        (seq![0int], seq![at])
    } else {
        let v = vars[i];
        assert(vars_rows(vars, i, depth, cap, indent, replies, at) == (match sub_rows(
            v,
            depth,
            cap,
            indent,
            replies,
            at,
        ) {
            Turn::Ask(a) => Turn::Ask(a),
            Turn::Done(sub, n) => match vars_rows(vars, i + 1, depth, cap, indent, replies, n) {
                Turn::Ask(a) => Turn::Ask(a),
                Turn::Done(rest, k) => Turn::Done(seq![var_row(v, indent)] + sub + rest, k),
            },
        })) by {
            reveal(sub_rows);
        }
        match sub_rows(v, depth, cap, indent, replies, at) {
            Turn::Ask(a) => (seq![0int], seq![at]),
            Turn::Done(sub, n) => {
                let (s, t) = lemma_vars_rows(vars, i + 1, depth, cap, indent, replies, n);
                let w = 1 + sub.len() as int;
                let starts = seq![0int] + s.map_values(|x: int| x + w);
                let taken = seq![at] + t;
                match vars_rows(vars, i + 1, depth, cap, indent, replies, n) {
                    Turn::Ask(a) => {},
                    Turn::Done(rest, k) => {
                        let rows = seq![var_row(v, indent)] + sub + rest;
                        assert forall|c: int| i <= c < i + starts.len() - 1 implies ({
                            let v = #[trigger] vars[c];
                            let a = starts[c - i];
                            let b = starts[c - i + 1];
                            &&& 0 <= a < b <= rows.len()
                            &&& rows[a] == indent + v.at("name"@).text_or("?"@) + ": "@ + var_repr(v)
                            &&& sub_rows(v, depth, cap, indent, replies, taken[c - i])
                                == Turn::Done(rows.subrange(a + 1, b), taken[c - i + 1])
                        }) by {
                            let a = starts[c - i];
                            let b = starts[c - i + 1];
                            assert(b == s[c - i] + w);
                            assert(taken[c - i + 1] == t[c - i]);
                            if c == i {
                                assert(rows.subrange(1, b) =~= sub);
                            } else {
                                assert(a == s[c - i - 1] + w);
                                assert(taken[c - i] == t[c - i - 1]);
                                let x = s[c - i - 1];
                                let y = s[c - i];
                                assert(rest[x] == rows[a]);
                                assert(rows.subrange(a + 1, b) =~= rest.subrange(x + 1, y));
                            }
                        }
                    },
                }
                (starts, taken)
            },
        }
    }
}

/// Every variable under a reference has its row, up to the cap, in the order
/// of the reply; behind each come the rows of what lies under it; and past the
/// cap one row says how many more there are.
pub proof fn every_variable_has_its_row(
    rref: int,
    depth: int,
    cap: int,
    indent: Seq<char>,
    replies: Seq<Doc>,
    at: int,
)
    requires
        rref != 0,
        depth > 0,
        0 <= cap,
        0 <= at <= replies.len(),
    ensures
        at == replies.len() ==> (tree_rows(rref, depth, cap, indent, replies, at) matches Turn::Ask(
            a,
        ) && a.command == "variables"@ && a.args.at("variablesReference"@) == Doc::Int(rref)),
        at < replies.len() ==> (tree_rows(rref, depth, cap, indent, replies, at) matches Turn::Done(
            rows,
            n,
        ) ==> {
            let vars = replies[at].at("body"@).at("variables"@).items();
            exists|starts: Seq<int>, taken: Seq<int>|
                {
                    &&& #[trigger] rows_of_level(
                        vars,
                        0,
                        depth,
                        cap,
                        indent,
                        replies,
                        rows,
                        starts,
                        taken,
                    )
                    &&& starts.len() > 0 && starts[0] == 0
                    &&& taken.len() == starts.len() && taken[0] == at + 1 && taken.last() == n
                    &&& vars.len() <= cap ==> starts.len() == vars.len() + 1 && starts.last()
                        == rows.len()
                    &&& vars.len() > cap ==> starts.len() == cap + 1 && starts.last() == rows.len()
                        - 1 && rows.last() == indent + "... ("@ + int_text(vars.len() - cap)
                        + " more)"@
                }
        }),
{
    if at < replies.len() {
        let vars = vars_in(replies[at]);
        let (starts, taken) = lemma_vars_rows(vars, 0, depth, cap, indent, replies, at + 1);
        if let Turn::Done(rows, n) = tree_rows(rref, depth, cap, indent, replies, at) {
            let own = match vars_rows(vars, 0, depth, cap, indent, replies, at + 1) {
                Turn::Done(own, _) => own,
                Turn::Ask(_) => Seq::empty(),
            };
            assert(rows == own + more_rows(vars.len() as int, cap, indent));
            assert forall|i: int| 0 <= i < 0 + starts.len() - 1 implies ({
                let v = #[trigger] vars[i];
                let a = starts[i - 0];
                let b = starts[i - 0 + 1];
                &&& 0 <= a < b <= rows.len()
                &&& rows[a] == indent + v.at("name"@).text_or("?"@) + ": "@ + var_repr(v)
                &&& if depth > 1 && !is_leaf(v) {
                    tree_rows(
                        v.at("variablesReference"@).int_or(0),
                        depth - 1,
                        cap,
                        indent + "  "@,
                        replies,
                        taken[i - 0],
                    ) == Turn::Done(rows.subrange(a + 1, b), taken[i - 0 + 1])
                } else {
                    b == a + 1 && taken[i - 0 + 1] == taken[i - 0]
                }
            }) by {
                reveal(sub_rows);
                let a = starts[i];
                let b = starts[i + 1];
                assert(rows.subrange(a + 1, b) =~= own.subrange(a + 1, b));
            }
            assert(rows_of_level(vars, 0, depth, cap, indent, replies, rows, starts, taken));
        }
    }
}

/// The locals of a stop are the rows of the local scope, a blank line between
/// none of them; where there are none, that is said.
pub proof fn the_locals_are_the_rows_of_the_local_scope(
    m: SessionModel,
    stop: StopModel,
    depth: int,
    cap: int,
    rref: int,
    replies: Seq<Doc>,
    at: int,
)
    requires
        m.last_stop == Some(stop),
        0 <= m.cur_frame < stop.frames.len(),
        0 <= at < replies.len(),
        refers_to_locals(replies[at], rref),
    ensures
        match tree_rows(rref, depth, cap, "  "@, replies, at + 1) {
            Turn::Ask(a) => locals_text_turn(m, depth, cap, replies, at) == Turn::<
                Seq<char>,
            >::Ask(a),
            Turn::Done(rows, n) => locals_text_turn(m, depth, cap, replies, at) == Turn::Done(
                if rows.len() == 0 {
                    "  (no locals)"@
                } else {
                    join(rows, "\n"@)
                },
                n,
            ),
        },
        rref != 0 && at + 1 < replies.len() ==> snapshot_turn(m, replies, at) == Turn::Done(
            snapshot_of(replies[at + 1].at("body"@).at("variables"@).items(), 24),
            at + 2,
        ),
{
    lemma_refers_to_locals(replies[at], rref);
}

/// A variable is changed where its path leads: the adapter is asked to set the
/// last part of the path, under the reference that the rest of it leads to, to
/// the value; and what it then holds is what the adapter replies.
pub proof fn a_variable_is_set_where_its_path_leads(
    m: SessionModel,
    path: Seq<char>,
    value: Seq<char>,
    replies: Seq<Doc>,
    at: int,
    rref: int,
    leaf: Seq<char>,
    n: int,
    now: Seq<char>,
)
    requires
        resolve_turn(m, path, replies, at) == Turn::Done(Some((rref, leaf)), n),
        0 <= n <= replies.len(),
    ensures
        n == replies.len() ==> (set_turn(m, path, value, replies, at) matches Turn::Ask(a)
            && a.command == "setVariable"@ && a.args.at("variablesReference"@) == Doc::Int(rref)
            && a.args.at("name"@) == Doc::Str(leaf) && a.args.at("value"@) == Doc::Str(value)),
        n < replies.len() && replies[n].at("success"@) == Doc::Bool(true) && replies[n].at(
            "body"@,
        ).at("value"@) == Doc::Str(now) ==> set_turn(m, path, value, replies, at) == Turn::Done(
            path + " = "@ + now,
            n + 1,
        ),
        n < replies.len() && replies[n].at("success"@) != Doc::Bool(true) ==> (set_turn(
            m,
            path,
            value,
            replies,
            at,
        ) matches Turn::Done(t, k) && k == n + 1 && "(cannot set "@.is_prefix_of(t)),
        n == replies.len() ==> (watch_turn(m, path, replies, at) matches Turn::Ask(a) && a.command
            == "dataBreakpointInfo"@ && a.args.at("variablesReference"@) == Doc::Int(rref)
            && a.args.at("name"@) == Doc::Str(leaf)),
        n < replies.len() && replies[n].at("body"@).at("dataId"@) == Doc::Str(now) ==> watch_turn(
            m,
            path,
            replies,
            at,
        ) == Turn::Done(Ok::<Seq<char>, Seq<char>>(now), n + 1),
        n < replies.len() && !(replies[n].at("body"@).at("dataId"@) is Str) ==> (watch_turn(
            m,
            path,
            replies,
            at,
        ) matches Turn::Done(r, k) && r is Err && k == n + 1),
{
    reveal_strlit("variablesReference");
    reveal_strlit("name");
    reveal_strlit("value");
    assert("variablesReference"@.len() == 18 && "name"@.len() == 4 && "value"@.len() == 5);
    if n < replies.len() && replies[n].at("success"@) != Doc::Bool(true) {
        let t = set_text(path, replies[n]);
        assert(t.take("(cannot set "@.len() as int) =~= "(cannot set "@);
    }
}

/// A path that leads nowhere is neither set nor watched.
pub proof fn what_is_not_there_is_not_set(
    m: SessionModel,
    path: Seq<char>,
    value: Seq<char>,
    replies: Seq<Doc>,
    at: int,
    n: int,
)
    requires
        resolve_turn(m, path, replies, at) == Turn::Done(None::<(int, Seq<char>)>, n),
    ensures
        set_turn(m, path, value, replies, at) == Turn::Done(
            "(variable "@ + debug_text(path) + " not found)"@,
            n,
        ),
        watch_turn(m, path, replies, at) matches Turn::Done(r, k) && r is Err && k == n,
{
}

/// What evaluating an expression gives.
#[verifier::opaque]
spec fn value_turn(m: SessionModel, e: Seq<char>, replies: Seq<Doc>, at: int) -> Turn<Seq<char>> {
    evaluate_turn(m, e, replies, at)
}

proof fn lemma_value_turn(m: SessionModel, e: Seq<char>, replies: Seq<Doc>, at: int)
    ensures
        value_turn(m, e, replies, at) == evaluate_turn(m, e, replies, at),
{
    reveal(value_turn);
}

proof fn lemma_watch_rows(m: SessionModel, i: int, replies: Seq<Doc>, at: int) -> (pos: Seq<int>)
    requires
        0 <= i <= m.watches.len(),
    ensures
        watch_rows(m, i, replies, at) matches Turn::Done(rows, n) ==> {
            &&& rows.len() == m.watches.len() - i
            &&& pos.len() == rows.len() + 1
            &&& pos[0] == at
            &&& pos.last() == n
            &&& forall|c: int|
                i <= c < m.watches.len() ==> (value_turn(
                    m,
                    #[trigger] m.watches[c],
                    replies,
                    pos[c - i],
                ) matches Turn::Done(v, k) && k == pos[c - i + 1] && rows[c - i] == "  "@
                    + m.watches[c] + ": "@ + v)
        },
    decreases m.watches.len() - i,
{
    if i >= m.watches.len() {
        seq![at]
    } else {
        lemma_value_turn(m, m.watches[i], replies, at);
        match value_turn(m, m.watches[i], replies, at) {
            Turn::Ask(a) => seq![at],
            Turn::Done(v, n) => {
                let rest = lemma_watch_rows(m, i + 1, replies, n);
                let pos = seq![at] + rest;
                if let Turn::Done(more, end) = watch_rows(m, i + 1, replies, n) {
                    let rows = seq!["  "@ + m.watches[i] + ": "@ + v] + more;
                    assert forall|c: int| i <= c < m.watches.len() implies (value_turn(
                        m,
                        #[trigger] m.watches[c],
                        replies,
                        pos[c - i],
                    ) matches Turn::Done(x, k) && k == pos[c - i + 1] && rows[c - i] == "  "@
                        + m.watches[c] + ": "@ + x) by {
                        assert(pos[c - i + 1] == rest[c - i]);
                        if c > i {
                            assert(pos[c - i] == rest[c - i - 1]);
                            assert(rows[c - i] == more[c - i - 1]);
                        }
                    }
                }
                pos
            },
        }
    }
}

/// Every watch expression is shown, in the order in which they were added, by
/// a row of the expression and its own value.
pub proof fn every_watch_shows_its_own_value(m: SessionModel, replies: Seq<Doc>, at: int)
    ensures
        m.watches.len() == 0 ==> watches_turn(m, replies, at) == Turn::Done(
            "  (no watch expressions)"@,
            at,
        ),
        m.watches.len() > 0 ==> (watches_turn(m, replies, at) matches Turn::Done(t, n) ==> exists|
            rows: Seq<Seq<char>>,
            pos: Seq<int>,
        |
            {
                &&& t == #[trigger] join(rows, "\n"@)
                &&& rows.len() == m.watches.len()
                &&& #[trigger] pos.len() == rows.len() + 1
                &&& pos[0] == at
                &&& pos.last() == n
                &&& forall|c: int|
                    0 <= c < m.watches.len() ==> (evaluate_turn(
                        m,
                        #[trigger] m.watches[c],
                        replies,
                        pos[c],
                    ) matches Turn::Done(v, k) && k == pos[c + 1] && rows[c] == "  "@ + m.watches[c]
                        + ": "@ + v)
            }),
{
    if m.watches.len() > 0 {
        let pos = lemma_watch_rows(m, 0, replies, at);
        if let Turn::Done(rows, n) = watch_rows(m, 0, replies, at) {
            assert forall|c: int| 0 <= c < m.watches.len() implies (evaluate_turn(
                m,
                #[trigger] m.watches[c],
                replies,
                pos[c],
            ) matches Turn::Done(v, k) && k == pos[c + 1] && rows[c] == "  "@ + m.watches[c] + ": "@
                + v) by {
                lemma_value_turn(m, m.watches[c], replies, pos[c]);
            }
            assert(join(rows, "\n"@) == join(rows, "\n"@));
            assert(pos.len() == rows.len() + 1);
        }
    }
}

proof fn lemma_thread_rows(m: SessionModel, i: int, replies: Seq<Doc>, at: int)
    requires
        0 <= i <= m.threads.len(),
        0 <= at <= replies.len(),
    ensures
        match thread_rows(m, i, replies, at) {
            Turn::Done(rows, n) => rows.len() == m.threads.len() - i && n == at + rows.len() && n
                <= replies.len() && forall|c: int|
                i <= c < m.threads.len() ==> rows[c - i] == thread_row(
                    m,
                    #[trigger] m.threads[c],
                    frames_from(replies[at + c - i]),
                ),
            Turn::Ask(a) => replies.len() - at < m.threads.len() - i && a == frames_ask(
                m.threads[i + replies.len() - at].at("id"@).int_or(0),
            ),
        },
    decreases m.threads.len() - i,
{
    if i < m.threads.len() && at < replies.len() {
        lemma_thread_rows(m, i + 1, replies, at + 1);
        if let Turn::Done(rest, k) = thread_rows(m, i + 1, replies, at + 1) {
            let rows = seq![thread_row(m, m.threads[i], frames_from(replies[at]))] + rest;
            assert forall|c: int| i <= c < m.threads.len() implies rows[c - i] == thread_row(
                m,
                #[trigger] m.threads[c],
                frames_from(replies[at + c - i]),
            ) by {
                if c > i {
                    assert(rows[c - i] == rest[c - (i + 1)]);
                    assert(at + 1 + c - (i + 1) == at + c - i);
                }
            }
        }
    }
}

/// Every thread is shown, in its order and by its number and name, with the
/// place of the innermost frame that the adapter reports of that thread; the
/// current one and no other is marked by a star.
pub proof fn every_thread_is_shown_where_it_is(m: SessionModel, replies: Seq<Doc>, at: int)
    requires
        m.threads.len() > 0,
        0 <= at <= replies.len(),
    ensures
        match threads_turn(m, replies, at) {
            Turn::Done(t, n) => n == at + m.threads.len() && exists|rows: Seq<Seq<char>>|
                {
                    &&& t == #[trigger] join(rows, "\n"@)
                    &&& rows.len() == m.threads.len()
                    &&& forall|c: int|
                        0 <= c < m.threads.len() ==> {
                            let id = (#[trigger] m.threads[c]).at("id"@).int_or(0);
                            let frames = frames_from(replies[at + c]);
                            rows[c] == " "@ + (if m.cur_thread == Some(id) {
                                "*"@
                            } else {
                                " "@
                            }) + " thread "@ + int_text(id) + " ["@ + m.threads[c].at(
                                "name"@,
                            ).text_or(""@) + "]  "@ + (if frames.len() > 0 {
                                frames[0].name + " "@ + frames[0].file + ":"@ + int_text(
                                    frames[0].line,
                                )
                            } else {
                                "?"@
                            })
                        }
                },
            Turn::Ask(a) => a.command == "stackTrace"@ && a.args.at("threadId"@) == Doc::Int(
                m.threads[replies.len() - at].at("id"@).int_or(0),
            ),
        },
{
    lemma_thread_rows(m, 0, replies, at);
    reveal_strlit("threadId");
    reveal_strlit("levels");
    assert("threadId"@.len() == 8 && "levels"@.len() == 6);
    if let Turn::Done(rows, n) = thread_rows(m, 0, replies, at) {
        assert(join(rows, "\n"@) == join(rows, "\n"@));
        assert forall|c: int| 0 <= c < m.threads.len() implies rows[c] == thread_row(
            m,
            #[trigger] m.threads[c],
            frames_from(replies[at + c]),
        ) by {
            assert(rows[c - 0] == rows[c]);
            assert(at + c - 0 == at + c);
        }
    }
}

} // verus!
