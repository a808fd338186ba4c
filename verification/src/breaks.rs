//! What becomes of breakpoints: whether they bound, removing and switching
//! them, counting their hits, and listing them.

use vstd::prelude::*;
use crate::dap::{Ask, Request};
use crate::json::{docs, no_keys, Doc, Json};
use crate::num::{i64_value, int_text, lemma_int_text, read_i64, show_int};
use crate::session::{
    bps_of, data_sync, datas_in, file_index, files_in, find_file, fn_sync, fns_in, lemma_file_index,
    line_sync, lines_in, new_line_bp, DataBp, DataBpModel, FileModel, FnBp, FnBpModel, LineBp,
    LineBpModel, Session, SessionModel,
};
use crate::stack::{Stop, StopModel};
use crate::text::{
    contains, digit, ends, has_text, join, join_all, joined_parts_split_again, owned, same,
    split_char, split_on, views, what_is_held_stands_between,
};
use crate::util::{file_label, show_file};

verus! {

// ---------------------------------------------------------------------------
// What bound
// ---------------------------------------------------------------------------

/// Whether each breakpoint in the reply to a `setBreakpoints` request bound.
pub open spec fn verified_flags(reply: Doc) -> Seq<bool> {
    let a = reply.at("body"@).at("breakpoints"@).items();
    Seq::new(a.len(), |i: int| a[i].at("verified"@).bool_or(false))
}

/// The place of a breakpoint among the enabled ones from `i` on, `n` of which
/// came before.
pub open spec fn enabled_place(bps: Seq<LineBpModel>, id: int, i: int, n: int) -> Option<int>
    decreases bps.len() - i,
{
    if i < 0 || i >= bps.len() {
        None
    } else if bps[i].enabled {
        if bps[i].id == id {
            Some(n)
        } else {
            enabled_place(bps, id, i + 1, n + 1)
        }
    } else {
        enabled_place(bps, id, i + 1, n)
    }
}

/// Whether a line breakpoint bound, by the reply to the request that told of
/// it; one that the reply does not speak of did.
pub open spec fn line_bound(bps: Seq<LineBpModel>, id: int, reply: Doc) -> bool {
    match enabled_place(bps, id, 0, 0) {
        Some(p) => if p < verified_flags(reply).len() {
            verified_flags(reply)[p]
        } else {
            true
        },
        None => true,
    }
}

/// The place of the first breakpoint with an id, from `i` on.
pub open spec fn line_place(bps: Seq<LineBpModel>, id: int, i: int) -> Option<int>
    decreases bps.len() - i,
{
    if i < 0 || i >= bps.len() {
        None
    } else if bps[i].id == id {
        Some(i)
    } else {
        line_place(bps, id, i + 1)
    }
}

/// The breakpoints with the first of an id marked as bound or not.
pub open spec fn with_verified(bps: Seq<LineBpModel>, id: int, verified: bool) -> Seq<LineBpModel> {
    match line_place(bps, id, 0) {
        Some(i) => bps.update(i, LineBpModel { verified, ..bps[i] }),
        None => bps,
    }
}

/// The session once the adapter has replied to the request that told of a new
/// line breakpoint.
pub open spec fn line_replied(
    m: SessionModel,
    path: Seq<char>,
    id: int,
    reply: Doc,
) -> SessionModel {
    match file_index(m.line_bps, path, 0) {
        Some(i) => {
            let bps = m.line_bps[i].bps;
            SessionModel {
                line_bps: m.line_bps.update(
                    i,
                    FileModel {
                        path: m.line_bps[i].path,
                        bps: with_verified(bps, id, line_bound(bps, id, reply)),
                    },
                ),
                ..m
            }
        },
        None => m,
    }
}

fn find_line(bps: &Vec<LineBp>, id: i64) -> (r: Option<usize>)
    ensures
        match r {
            Some(i) => i < bps.len() && line_place(lines_in(bps@), id as int, 0) == Some(i as int),
            None => line_place(lines_in(bps@), id as int, 0) is None,
        },
{
    let mut i: usize = 0;
    while i < bps.len()
        invariant
            i <= bps.len(),
            line_place(lines_in(bps@), id as int, 0) == line_place(
                lines_in(bps@),
                id as int,
                i as int,
            ),
        decreases bps.len() - i,
    {
        assert(lines_in(bps@)[i as int].id == bps@[i as int].id);
        if bps[i].id == id {
            return Some(i);
        }
        i += 1;
    }
    None
}

fn read_bound(bps: &Vec<LineBp>, id: i64, reply: &Json) -> (r: bool)
    ensures
        r == line_bound(lines_in(bps@), id as int, reply@),
{
    let ghost all = lines_in(bps@);
    let mut i: usize = 0;
    let mut n: usize = 0;
    while i < bps.len()
        invariant
            n <= i <= bps.len(),
            all == lines_in(bps@),
            enabled_place(all, id as int, 0, 0) == enabled_place(
                all,
                id as int,
                i as int,
                n as int,
            ),
        decreases bps.len() - i,
    {
        assert(all[i as int] == bps@[i as int]@);
        if bps[i].enabled {
            if bps[i].id == id {
                return match reply.at("body").at("breakpoints").as_array() {
                    Some(a) => if n < a.len() {
                        a[n].at("verified").bool_or(false)
                    } else {
                        true
                    },
                    None => true,
                };
            }
            n += 1;
        }
        i += 1;
    }
    true
}

/// How many of the breakpoints before place `i` are enabled.
pub open spec fn enabled_before(bps: Seq<FnBpModel>, i: int) -> int
    decreases i,
{
    if i <= 0 || i > bps.len() {
        0
    } else {
        enabled_before(bps, i - 1) + if bps[i - 1].enabled {
            1int
        } else {
            0
        }
    }
}

/// The function breakpoint at place `i` once the adapter has listed what
/// bound.
pub open spec fn bound_fn(bps: Seq<FnBpModel>, listed: Seq<Doc>, i: int) -> FnBpModel {
    let n = enabled_before(bps, i);
    if bps[i].enabled {
        FnBpModel {
            verified: n < listed.len() && listed[n].at("verified"@).bool_or(false),
            ..bps[i]
        }
    } else {
        bps[i]
    }
}

/// The session once the adapter has replied to the request that told of the
/// function breakpoints; a reply without a list changes nothing.
pub open spec fn fns_replied(m: SessionModel, reply: Doc) -> SessionModel {
    match reply.at("body"@).at("breakpoints"@) {
        Doc::Arr(listed) => SessionModel {
            fn_bps: Seq::new(m.fn_bps.len(), |i: int| bound_fn(m.fn_bps, listed, i)),
            ..m
        },
        _ => m,
    }
}

impl Session {
    /// What the adapter has to be told of at once, where a breakpoint was
    /// added: nothing before the program is configured, as the launch tells
    /// it of all.
    pub fn telling(&self, what: Sync) -> (r: Option<Sync>)
        ensures
            r == if self@.configured {
                Some(what)
            } else {
                None
            },
    {
        if self.configured {
            Some(what)
        } else {
            None
        }
    }

    /// Takes note of whether a new line breakpoint bound, by the reply to
    /// [`Session::sync_line`]; says so. One that the adapter has not been told
    /// of yet counts as bound.
    pub fn bind_line(&mut self, path: &str, id: i64, reply: Option<&Json>) -> (verified: bool)
        ensures
            match reply {
                Some(r) => verified == line_bound(
                    bps_of(old(self)@.line_bps, path@),
                    id as int,
                    r@,
                ) && final(self)@ == line_replied(old(self)@, path@, id as int, r@),
                None => verified && final(self)@ == old(self)@,
            },
            old(self)@.wf() ==> final(self)@.wf(),
    {
        proof {
            lemma_file_index(self@.line_bps, path@, 0);
        }
        let reply = match reply {
            Some(r) => r,
            None => return true,
        };
        match find_file(&self.line_bps, path) {
            Some(f) => {
                let ghost bps = lines_in(self.line_bps@[f as int].bps@);
                let verified = read_bound(&self.line_bps[f].bps, id, reply);
                match find_line(&self.line_bps[f].bps, id) {
                    Some(i) => {
                        self.line_bps[f].bps[i].verified = verified;
                        assert(lines_in(self.line_bps@[f as int].bps@) =~= bps.update(
                            i as int,
                            LineBpModel { verified, ..bps[i as int] },
                        ));
                    },
                    None => {},
                }
                assert(files_in(self.line_bps@) =~= line_replied(
                    old(self)@,
                    path@,
                    id as int,
                    reply@,
                ).line_bps);
                verified
            },
            None => true,
        }
    }

    /// Takes note of which function breakpoints bound, by the reply to
    /// [`Session::sync_fn`].
    pub fn bind_fns(&mut self, reply: &Json)
        ensures
            final(self)@ == fns_replied(old(self)@, reply@),
            old(self)@.wf() ==> final(self)@.wf(),
    {
        match reply.at("body").at("breakpoints").as_array() {
            Some(a) => {
                let ghost all = self@.fn_bps;
                let ghost listed = docs(a@);
                let mut i: usize = 0;
                let mut n: usize = 0;
                while i < self.fn_bps.len()
                    invariant
                        n <= i <= self.fn_bps.len(),
                        self.fn_bps.len() == all.len(),
                        listed == docs(a@),
                        n == enabled_before(all, i as int),
                        forall|k: int|
                            0 <= k < all.len() ==> (#[trigger] self.fn_bps@[k])@ == if k < i {
                                bound_fn(all, listed, k)
                            } else {
                                all[k]
                            },
                        self@ == (SessionModel { fn_bps: self@.fn_bps, ..old(self)@ }),
                    decreases self.fn_bps.len() - i,
                {
                    assert(self.fn_bps@[i as int]@ == all[i as int]);
                    if self.fn_bps[i].enabled {
                        let bound = n < a.len() && a[n].at("verified").bool_or(false);
                        self.fn_bps[i].verified = bound;
                        n += 1;
                    }
                    i += 1;
                }
                assert(self@.fn_bps =~= fns_replied(old(self)@, reply@).fn_bps);
            },
            None => {},
        }
    }
}

// ---------------------------------------------------------------------------
// Removing and switching
// ---------------------------------------------------------------------------

/// What the adapter has to be told of.
pub ghost enum SyncModel {
    Line(Seq<char>),
    Fns,
    Data,
}

/// What the adapter has to be told of: the breakpoints of a file, those on
/// functions, or those on data.
pub enum Sync {
    Line(String),
    Fns,
    Data,
}

impl View for Sync {
    type V = SyncModel;

    open spec fn view(&self) -> SyncModel {
        match self {
            Sync::Line(p) => SyncModel::Line(p@),
            Sync::Fns => SyncModel::Fns,
            Sync::Data => SyncModel::Data,
        }
    }
}

/// The request that tells the adapter of it.
pub open spec fn sync_request(m: SessionModel, what: SyncModel) -> Ask {
    match what {
        SyncModel::Line(p) => line_sync(m, p),
        SyncModel::Fns => fn_sync(m),
        SyncModel::Data => data_sync(m),
    }
}

/// The session once the adapter has replied to that request.
pub open spec fn sync_replied(m: SessionModel, what: SyncModel, reply: Doc) -> SessionModel {
    match what {
        SyncModel::Fns => fns_replied(m, reply),
        _ => m,
    }
}

pub open spec fn lines_without(bps: Seq<LineBpModel>, id: int) -> Seq<LineBpModel>
    decreases bps.len(),
{
    if bps.len() == 0 {
        bps
    } else if bps.last().id == id {
        lines_without(bps.drop_last(), id)
    } else {
        lines_without(bps.drop_last(), id).push(bps.last())
    }
}

pub open spec fn fns_without(bps: Seq<FnBpModel>, id: int) -> Seq<FnBpModel>
    decreases bps.len(),
{
    if bps.len() == 0 {
        bps
    } else if bps.last().id == id {
        fns_without(bps.drop_last(), id)
    } else {
        fns_without(bps.drop_last(), id).push(bps.last())
    }
}

pub open spec fn datas_without(bps: Seq<DataBpModel>, id: int) -> Seq<DataBpModel>
    decreases bps.len(),
{
    if bps.len() == 0 {
        bps
    } else if bps.last().id == id {
        datas_without(bps.drop_last(), id)
    } else {
        datas_without(bps.drop_last(), id).push(bps.last())
    }
}

/// The first file from `i` on with a breakpoint of that id.
pub open spec fn file_with(fs: Seq<FileModel>, id: int, i: int) -> Option<int>
    decreases fs.len() - i,
{
    if i < 0 || i >= fs.len() {
        None
    } else if line_place(fs[i].bps, id, 0) is Some {
        Some(i)
    } else {
        file_with(fs, id, i + 1)
    }
}

pub open spec fn fn_place(bps: Seq<FnBpModel>, id: int, i: int) -> Option<int>
    decreases bps.len() - i,
{
    if i < 0 || i >= bps.len() {
        None
    } else if bps[i].id == id {
        Some(i)
    } else {
        fn_place(bps, id, i + 1)
    }
}

pub open spec fn data_place(bps: Seq<DataBpModel>, id: int, i: int) -> Option<int>
    decreases bps.len() - i,
{
    if i < 0 || i >= bps.len() {
        None
    } else if bps[i].id == id {
        Some(i)
    } else {
        data_place(bps, id, i + 1)
    }
}

/// The session without the breakpoint of an id, and what the adapter has to
/// be told of; `None` where there is no such breakpoint.
pub open spec fn removed(m: SessionModel, id: Seq<char>) -> Option<(SessionModel, SyncModel)> {
    if id == "panic"@ {
        Some((m.with_panic(false), SyncModel::Fns))
    } else {
        match i64_value(id) {
            None => None,
            Some(n) => match file_with(m.line_bps, n, 0) {
                Some(i) => Some(
                    (
                        SessionModel {
                            line_bps: m.line_bps.update(
                                i,
                                FileModel {
                                    path: m.line_bps[i].path,
                                    bps: lines_without(m.line_bps[i].bps, n),
                                },
                            ),
                            ..m
                        },
                        SyncModel::Line(m.line_bps[i].path),
                    ),
                ),
                None => if fn_place(m.fn_bps, n, 0) is Some {
                    Some(
                        (
                            SessionModel { fn_bps: fns_without(m.fn_bps, n), ..m },
                            SyncModel::Fns,
                        ),
                    )
                } else if data_place(m.data_bps, n, 0) is Some {
                    Some(
                        (
                            SessionModel { data_bps: datas_without(m.data_bps, n), ..m },
                            SyncModel::Data,
                        ),
                    )
                } else {
                    None
                },
            },
        }
    }
}

/// The breakpoints with the first of an id switched on or off.
pub open spec fn lines_switched(bps: Seq<LineBpModel>, id: int, on: bool) -> Seq<LineBpModel> {
    match line_place(bps, id, 0) {
        Some(i) => bps.update(i, LineBpModel { enabled: on, ..bps[i] }),
        None => bps,
    }
}

/// The last file before `i` with a breakpoint of that id.
pub open spec fn last_file_with(fs: Seq<FileModel>, id: int, i: int) -> Option<int>
    decreases i,
{
    if i <= 0 || i > fs.len() {
        None
    } else if line_place(fs[i - 1].bps, id, 0) is Some {
        Some(i - 1)
    } else {
        last_file_with(fs, id, i - 1)
    }
}

/// The session with the breakpoint of an id switched on or off, and what the
/// adapter has to be told of; `None` where there is no such breakpoint.
pub open spec fn switched(m: SessionModel, id: Seq<char>, on: bool) -> Option<
    (SessionModel, SyncModel),
> {
    if id == "panic"@ {
        Some((m.with_panic(on), SyncModel::Fns))
    } else {
        match i64_value(id) {
            None => None,
            Some(n) => match last_file_with(m.line_bps, n, m.line_bps.len() as int) {
                Some(i) => Some(
                    (
                        SessionModel {
                            line_bps: Seq::new(
                                m.line_bps.len(),
                                |k: int|
                                    FileModel {
                                        path: m.line_bps[k].path,
                                        bps: lines_switched(m.line_bps[k].bps, n, on),
                                    },
                            ),
                            ..m
                        },
                        SyncModel::Line(m.line_bps[i].path),
                    ),
                ),
                None => match fn_place(m.fn_bps, n, 0) {
                    Some(i) => Some(
                        (
                            SessionModel {
                                fn_bps: m.fn_bps.update(
                                    i,
                                    FnBpModel { enabled: on, ..m.fn_bps[i] },
                                ),
                                ..m
                            },
                            SyncModel::Fns,
                        ),
                    ),
                    None => match data_place(m.data_bps, n, 0) {
                        Some(i) => Some(
                            (
                                SessionModel {
                                    data_bps: m.data_bps.update(
                                        i,
                                        DataBpModel { enabled: on, ..m.data_bps[i] },
                                    ),
                                    ..m
                                },
                                SyncModel::Data,
                            ),
                        ),
                        None => None,
                    },
                },
            },
        }
    }
}

fn find_fn(bps: &Vec<FnBp>, id: i64) -> (r: Option<usize>)
    ensures
        match r {
            Some(i) => i < bps.len() && fn_place(fns_in(bps@), id as int, 0) == Some(i as int),
            None => fn_place(fns_in(bps@), id as int, 0) is None,
        },
{
    let mut i: usize = 0;
    while i < bps.len()
        invariant
            i <= bps.len(),
            fn_place(fns_in(bps@), id as int, 0) == fn_place(fns_in(bps@), id as int, i as int),
        decreases bps.len() - i,
    {
        assert(fns_in(bps@)[i as int].id == bps@[i as int].id);
        if bps[i].id == id {
            return Some(i);
        }
        i += 1;
    }
    None
}

fn find_data(bps: &Vec<DataBp>, id: i64) -> (r: Option<usize>)
    ensures
        match r {
            Some(i) => i < bps.len() && data_place(datas_in(bps@), id as int, 0) == Some(i as int),
            None => data_place(datas_in(bps@), id as int, 0) is None,
        },
{
    let mut i: usize = 0;
    while i < bps.len()
        invariant
            i <= bps.len(),
            data_place(datas_in(bps@), id as int, 0) == data_place(
                datas_in(bps@),
                id as int,
                i as int,
            ),
        decreases bps.len() - i,
    {
        assert(datas_in(bps@)[i as int].id == bps@[i as int].id);
        if bps[i].id == id {
            return Some(i);
        }
        i += 1;
    }
    None
}

fn drop_lines(bps: &mut Vec<LineBp>, id: i64)
    ensures
        lines_in(final(bps)@) == lines_without(lines_in(old(bps)@), id as int),
{
    let ghost all = lines_in(bps@);
    let ghost mut k: int = 0;
    let mut i: usize = 0;
    assert(all.take(0) =~= Seq::empty());
    assert(all.skip(0) =~= all);
    assert(lines_without(all.take(0), id as int) + all.skip(0) =~= all);
    while i < bps.len()
        invariant
            0 <= k <= all.len(),
            i == lines_without(all.take(k), id as int).len(),
            lines_in(bps@) == lines_without(all.take(k), id as int) + all.skip(k),
        decreases bps.len() - i,
    {
        let ghost kept = lines_without(all.take(k), id as int);
        let ghost before = bps@;
        assert(lines_in(before)[i as int] == all.skip(k)[0]);
        assert(all.take(k + 1).drop_last() =~= all.take(k));
        assert(all.take(k + 1).last() == all[k]);
        if bps[i].id == id {
            bps.remove(i);
            proof {
                before.remove_ensures(i as int);
            }
            assert(lines_in(before).len() == kept.len() + all.skip(k).len());
            assert forall|j: int| 0 <= j < bps.len() implies #[trigger] lines_in(bps@)[j] == (kept
                + all.skip(k + 1))[j] by {
                let whole = kept + all.skip(k);
                if j < i {
                    assert(lines_in(before)[j] == whole[j]);
                    assert(bps@[j] == before[j]);
                } else {
                    assert(lines_in(before)[j + 1] == whole[j + 1]);
                    assert(bps@[j] == before[j + 1]);
                }
            }
            assert(lines_in(bps@) =~= kept + all.skip(k + 1));
        } else {
            assert(lines_in(bps@) =~= kept.push(all[k]) + all.skip(k + 1));
            i += 1;
        }
        proof {
            k = k + 1;
        }
    }
    assert(all.skip(k).len() == 0);
    assert(all.take(k) =~= all);
    assert(lines_in(bps@) =~= lines_without(all, id as int));
}

fn drop_fns(bps: &mut Vec<FnBp>, id: i64)
    ensures
        fns_in(final(bps)@) == fns_without(fns_in(old(bps)@), id as int),
{
    let ghost all = fns_in(bps@);
    let ghost mut k: int = 0;
    let mut i: usize = 0;
    assert(all.take(0) =~= Seq::empty());
    assert(all.skip(0) =~= all);
    assert(fns_without(all.take(0), id as int) + all.skip(0) =~= all);
    while i < bps.len()
        invariant
            0 <= k <= all.len(),
            i == fns_without(all.take(k), id as int).len(),
            fns_in(bps@) == fns_without(all.take(k), id as int) + all.skip(k),
        decreases bps.len() - i,
    {
        let ghost kept = fns_without(all.take(k), id as int);
        let ghost before = bps@;
        assert(fns_in(before)[i as int] == all.skip(k)[0]);
        assert(all.take(k + 1).drop_last() =~= all.take(k));
        assert(all.take(k + 1).last() == all[k]);
        if bps[i].id == id {
            bps.remove(i);
            proof {
                before.remove_ensures(i as int);
            }
            assert(fns_in(before).len() == kept.len() + all.skip(k).len());
            assert forall|j: int| 0 <= j < bps.len() implies #[trigger] fns_in(bps@)[j] == (kept
                + all.skip(k + 1))[j] by {
                let whole = kept + all.skip(k);
                if j < i {
                    assert(fns_in(before)[j] == whole[j]);
                    assert(bps@[j] == before[j]);
                } else {
                    assert(fns_in(before)[j + 1] == whole[j + 1]);
                    assert(bps@[j] == before[j + 1]);
                }
            }
            assert(fns_in(bps@) =~= kept + all.skip(k + 1));
        } else {
            assert(fns_in(bps@) =~= kept.push(all[k]) + all.skip(k + 1));
            i += 1;
        }
        proof {
            k = k + 1;
        }
    }
    assert(all.skip(k).len() == 0);
    assert(all.take(k) =~= all);
    assert(fns_in(bps@) =~= fns_without(all, id as int));
}

fn drop_datas(bps: &mut Vec<DataBp>, id: i64)
    ensures
        datas_in(final(bps)@) == datas_without(datas_in(old(bps)@), id as int),
{
    let ghost all = datas_in(bps@);
    let ghost mut k: int = 0;
    let mut i: usize = 0;
    assert(all.take(0) =~= Seq::empty());
    assert(all.skip(0) =~= all);
    assert(datas_without(all.take(0), id as int) + all.skip(0) =~= all);
    while i < bps.len()
        invariant
            0 <= k <= all.len(),
            i == datas_without(all.take(k), id as int).len(),
            datas_in(bps@) == datas_without(all.take(k), id as int) + all.skip(k),
        decreases bps.len() - i,
    {
        let ghost kept = datas_without(all.take(k), id as int);
        let ghost before = bps@;
        assert(datas_in(before)[i as int] == all.skip(k)[0]);
        assert(all.take(k + 1).drop_last() =~= all.take(k));
        assert(all.take(k + 1).last() == all[k]);
        if bps[i].id == id {
            bps.remove(i);
            proof {
                before.remove_ensures(i as int);
            }
            assert(datas_in(before).len() == kept.len() + all.skip(k).len());
            assert forall|j: int| 0 <= j < bps.len() implies #[trigger] datas_in(bps@)[j] == (kept
                + all.skip(k + 1))[j] by {
                let whole = kept + all.skip(k);
                if j < i {
                    assert(datas_in(before)[j] == whole[j]);
                    assert(bps@[j] == before[j]);
                } else {
                    assert(datas_in(before)[j + 1] == whole[j + 1]);
                    assert(bps@[j] == before[j + 1]);
                }
            }
            assert(datas_in(bps@) =~= kept + all.skip(k + 1));
        } else {
            assert(datas_in(bps@) =~= kept.push(all[k]) + all.skip(k + 1));
            i += 1;
        }
        proof {
            k = k + 1;
        }
    }
    assert(all.skip(k).len() == 0);
    assert(all.take(k) =~= all);
    assert(datas_in(bps@) =~= datas_without(all, id as int));
}

impl Session {
    /// The request that tells the adapter of what changed.
    pub fn sync(&self, what: &Sync) -> (r: Request)
        ensures
            r@ == sync_request(self@, what@),
    {
        match what {
            Sync::Line(p) => self.sync_line(p.as_str()),
            Sync::Fns => self.sync_fn(),
            Sync::Data => self.sync_data(),
        }
    }

    /// Takes note of the adapter's reply to [`Session::sync`].
    pub fn synced(&mut self, what: &Sync, reply: &Json)
        ensures
            final(self)@ == sync_replied(old(self)@, what@, reply@),
            old(self)@.wf() ==> final(self)@.wf(),
    {
        match what {
            Sync::Fns => self.bind_fns(reply),
            _ => {},
        }
    }

    /// Removes the breakpoint with an id (or `panic`); says what the adapter
    /// has to be told of, or `None` where there is no such breakpoint.
    pub fn remove_bp(&mut self, id: &str) -> (r: Option<Sync>)
        ensures
            match r {
                Some(what) => removed(old(self)@, id@) == Some((final(self)@, what@)),
                None => removed(old(self)@, id@) is None && final(self)@ == old(self)@,
            },
            old(self)@.wf() ==> final(self)@.wf(),
    {
        if same(id, "panic") {
            self.panic = false;
            return Some(Sync::Fns);
        }
        let num: i64 = match read_i64(id) {
            Some(n) => n,
            None => return None,
        };
        let ghost m = self@;
        let mut i: usize = 0;
        while i < self.line_bps.len()
            invariant
                i <= self.line_bps.len(),
                self@ == m,
                m == old(self)@,
                id@ != "panic"@,
                i64_value(id@) == Some(num as int),
                file_with(m.line_bps, num as int, 0) == file_with(
                    m.line_bps,
                    num as int,
                    i as int,
                ),
            decreases self.line_bps.len() - i,
        {
            assert(m.line_bps[i as int] == self.line_bps@[i as int]@);
            match find_line(&self.line_bps[i].bps, num) {
                Some(_) => {
                    let path = owned(self.line_bps[i].path.as_str());
                    drop_lines(&mut self.line_bps[i].bps, num);
                    assert(self@.line_bps =~= (removed(m, id@)->0).0.line_bps);
                    return Some(Sync::Line(path));
                },
                None => {},
            }
            i += 1;
        }
        if let Some(_) = find_fn(&self.fn_bps, num) {
            drop_fns(&mut self.fn_bps, num);
            return Some(Sync::Fns);
        }
        if let Some(_) = find_data(&self.data_bps, num) {
            drop_datas(&mut self.data_bps, num);
            return Some(Sync::Data);
        }
        None
    }

    /// Switches the breakpoint with an id (or `panic`) on or off; says what
    /// the adapter has to be told of, or `None` where there is no such
    /// breakpoint.
    pub fn set_enabled(&mut self, id: &str, enabled: bool) -> (r: Option<Sync>)
        ensures
            match r {
                Some(what) => switched(old(self)@, id@, enabled) == Some((final(self)@, what@)),
                None => switched(old(self)@, id@, enabled) is None && final(self)@ == old(self)@,
            },
            old(self)@.wf() ==> final(self)@.wf(),
    {
        if same(id, "panic") {
            self.panic = enabled;
            return Some(Sync::Fns);
        }
        let num: i64 = match read_i64(id) {
            Some(n) => n,
            None => return None,
        };
        let ghost m = self@;
        let mut which: Option<usize> = None;
        let mut i: usize = 0;
        while i < self.line_bps.len()
            invariant
                i <= self.line_bps.len(),
                self.line_bps.len() == m.line_bps.len(),
                m == old(self)@,
                match which {
                    Some(k) => k < i && last_file_with(m.line_bps, num as int, i as int) == Some(
                        k as int,
                    ),
                    None => last_file_with(m.line_bps, num as int, i as int) is None,
                },
                forall|k: int|
                    0 <= k < m.line_bps.len() ==> (#[trigger] self.line_bps@[k])@ == if k < i {
                        FileModel {
                            path: m.line_bps[k].path,
                            bps: lines_switched(m.line_bps[k].bps, num as int, enabled),
                        }
                    } else {
                        m.line_bps[k]
                    },
                self@ == (SessionModel { line_bps: self@.line_bps, ..m }),
                which is None ==> self@.line_bps == m.line_bps,
            decreases self.line_bps.len() - i,
        {
            assert(self.line_bps@[i as int]@ == m.line_bps[i as int]);
            let ghost bps = lines_in(self.line_bps@[i as int].bps@);
            match find_line(&self.line_bps[i].bps, num) {
                Some(k) => {
                    self.line_bps[i].bps[k].enabled = enabled;
                    assert(lines_in(self.line_bps@[i as int].bps@) =~= lines_switched(
                        bps,
                        num as int,
                        enabled,
                    ));
                    which = Some(i);
                },
                None => {},
            }
            i += 1;
        }
        match which {
            Some(k) => {
                assert(self.line_bps@[k as int]@.path == m.line_bps[k as int].path);
                assert(self@.line_bps =~= (switched(m, id@, enabled)->0).0.line_bps);
                return Some(Sync::Line(owned(self.line_bps[k].path.as_str())));
            },
            None => {},
        }
        if let Some(k) = find_fn(&self.fn_bps, num) {
            self.fn_bps[k].enabled = enabled;
            assert(self@.fn_bps =~= (switched(m, id@, enabled)->0).0.fn_bps);
            return Some(Sync::Fns);
        }
        if let Some(k) = find_data(&self.data_bps, num) {
            self.data_bps[k].enabled = enabled;
            assert(self@.data_bps =~= (switched(m, id@, enabled)->0).0.data_bps);
            return Some(Sync::Data);
        }
        None
    }
}

// ---------------------------------------------------------------------------
// Counting
// ---------------------------------------------------------------------------

/// A count, at most the largest number of its type.
pub open spec fn at_most_max(n: int) -> int {
    if n > usize::MAX {
        usize::MAX as int
    } else {
        n
    }
}

/// How many line breakpoints the files have; with `active`, enabled ones.
pub open spec fn lines_count(fs: Seq<FileModel>, active: bool) -> int
    decreases fs.len(),
{
    if fs.len() == 0 {
        0
    } else {
        lines_count(fs.drop_last(), active) + line_count(fs.last().bps, active)
    }
}

pub open spec fn line_count(bps: Seq<LineBpModel>, active: bool) -> int
    decreases bps.len(),
{
    if bps.len() == 0 {
        0
    } else {
        line_count(bps.drop_last(), active) + if !active || bps.last().enabled {
            1int
        } else {
            0
        }
    }
}

pub open spec fn fn_count(bps: Seq<FnBpModel>, active: bool) -> int
    decreases bps.len(),
{
    if bps.len() == 0 {
        0
    } else {
        fn_count(bps.drop_last(), active) + if !active || bps.last().enabled {
            1int
        } else {
            0
        }
    }
}

pub open spec fn data_count(bps: Seq<DataBpModel>, active: bool) -> int
    decreases bps.len(),
{
    if bps.len() == 0 {
        0
    } else {
        data_count(bps.drop_last(), active) + if !active || bps.last().enabled {
            1int
        } else {
            0
        }
    }
}

/// How many breakpoints a session has; with `active`, enabled ones. The panic
/// breakpoint counts as one.
pub open spec fn bp_count(m: SessionModel, active: bool) -> int {
    lines_count(m.line_bps, active) + fn_count(m.fn_bps, active) + data_count(m.data_bps, active)
        + if m.panic {
        1int
    } else {
        0
    }
}

fn add_up(a: usize, b: usize) -> (r: usize)
    ensures
        r == at_most_max(a + b),
{
    if b > usize::MAX - a {
        usize::MAX
    } else {
        a + b
    }
}

proof fn lemma_counts(fs: Seq<FileModel>, active: bool)
    ensures
        lines_count(fs, active) >= 0,
    decreases fs.len(),
{
    if fs.len() > 0 {
        lemma_counts(fs.drop_last(), active);
        lemma_line_count(fs.last().bps, active);
    }
}

proof fn lemma_line_count(bps: Seq<LineBpModel>, active: bool)
    ensures
        0 <= line_count(bps, active) <= bps.len(),
    decreases bps.len(),
{
    if bps.len() > 0 {
        lemma_line_count(bps.drop_last(), active);
    }
}

proof fn lemma_fn_count(bps: Seq<FnBpModel>, active: bool)
    ensures
        0 <= fn_count(bps, active) <= bps.len(),
    decreases bps.len(),
{
    if bps.len() > 0 {
        lemma_fn_count(bps.drop_last(), active);
    }
}

proof fn lemma_data_count(bps: Seq<DataBpModel>, active: bool)
    ensures
        0 <= data_count(bps, active) <= bps.len(),
    decreases bps.len(),
{
    if bps.len() > 0 {
        lemma_data_count(bps.drop_last(), active);
    }
}

fn count_lines(bps: &Vec<LineBp>, active: bool) -> (n: usize)
    ensures
        n == line_count(lines_in(bps@), active),
{
    let ghost all = lines_in(bps@);
    let mut n: usize = 0;
    let mut i: usize = 0;
    assert(all.take(0) =~= Seq::empty());
    while i < bps.len()
        invariant
            n <= i <= bps.len(),
            all == lines_in(bps@),
            n == line_count(all.take(i as int), active),
        decreases bps.len() - i,
    {
        assert(all.take(i + 1).drop_last() =~= all.take(i as int));
        if !active || bps[i].enabled {
            n += 1;
        }
        i += 1;
    }
    assert(all.take(all.len() as int) =~= all);
    n
}

impl Session {
    fn count_bps(&self, active: bool) -> (n: usize)
        ensures
            n == at_most_max(bp_count(self@, active)),
    {
        let ghost files = self@.line_bps;
        let ghost fns = self@.fn_bps;
        let ghost datas = self@.data_bps;
        let mut n: usize = 0;
        let mut i: usize = 0;
        assert(files.take(0) =~= Seq::empty());
        while i < self.line_bps.len()
            invariant
                i <= self.line_bps.len(),
                files == files_in(self.line_bps@),
                n == at_most_max(lines_count(files.take(i as int), active)),
            decreases self.line_bps.len() - i,
        {
            assert(files.take(i + 1).drop_last() =~= files.take(i as int));
            proof {
                lemma_counts(files.take(i as int), active);
                lemma_line_count(files[i as int].bps, active);
            }
            n = add_up(n, count_lines(&self.line_bps[i].bps, active));
            i += 1;
        }
        assert(files.take(files.len() as int) =~= files);
        let mut k: usize = 0;
        let mut f: usize = 0;
        assert(fns.take(0) =~= Seq::empty());
        while k < self.fn_bps.len()
            invariant
                f <= k <= self.fn_bps.len(),
                fns == fns_in(self.fn_bps@),
                f == fn_count(fns.take(k as int), active),
            decreases self.fn_bps.len() - k,
        {
            assert(fns.take(k + 1).drop_last() =~= fns.take(k as int));
            if !active || self.fn_bps[k].enabled {
                f += 1;
            }
            k += 1;
        }
        assert(fns.take(fns.len() as int) =~= fns);
        let mut j: usize = 0;
        let mut d: usize = 0;
        assert(datas.take(0) =~= Seq::empty());
        while j < self.data_bps.len()
            invariant
                d <= j <= self.data_bps.len(),
                datas == datas_in(self.data_bps@),
                d == data_count(datas.take(j as int), active),
            decreases self.data_bps.len() - j,
        {
            assert(datas.take(j + 1).drop_last() =~= datas.take(j as int));
            if !active || self.data_bps[j].enabled {
                d += 1;
            }
            j += 1;
        }
        assert(datas.take(datas.len() as int) =~= datas);
        proof {
            lemma_counts(files, active);
            lemma_fn_count(fns, active);
            lemma_data_count(datas, active);
        }
        let p: usize = if self.panic {
            1
        } else {
            0
        };
        add_up(add_up(add_up(n, f), d), p)
    }

    /// How many breakpoints there are.
    pub fn breakpoint_count(&self) -> (n: usize)
        ensures
            n == at_most_max(bp_count(self@, false)),
    {
        self.count_bps(false)
    }

    /// Enabled breakpoints only — `continue --until` needs at least one place
    /// to stop at between condition checks.
    pub fn active_breakpoint_count(&self) -> (n: usize)
        ensures
            n == at_most_max(bp_count(self@, true)),
    {
        self.count_bps(true)
    }
}

// ---------------------------------------------------------------------------
// Hits
// ---------------------------------------------------------------------------

/// One hit more, in 32 bits.
pub open spec fn one_more(hits: int) -> int {
    if hits == u32::MAX {
        0
    } else {
        hits + 1
    }
}

pub open spec fn fn_hit(b: FnBpModel, name: Seq<char>) -> FnBpModel {
    if contains(name, b.name) {
        FnBpModel { hits: one_more(b.hits), ..b }
    } else {
        b
    }
}

pub open spec fn line_hit(b: LineBpModel, line: int) -> LineBpModel {
    if b.line == line {
        LineBpModel { hits: one_more(b.hits), ..b }
    } else {
        b
    }
}

pub open spec fn file_hit(f: FileModel, file: Seq<char>, line: int) -> FileModel {
    if file.is_suffix_of(f.path) {
        FileModel { path: f.path, bps: Seq::new(f.bps.len(), |i: int| line_hit(f.bps[i], line)) }
    } else {
        f
    }
}

/// The session with the hit of a breakpoint counted: on those that the
/// innermost frame of the stop lies at.
pub open spec fn hit_counted(m: SessionModel, stop: StopModel) -> SessionModel {
    match stop.top() {
        Some(f) => SessionModel {
            fn_bps: Seq::new(m.fn_bps.len(), |i: int| fn_hit(m.fn_bps[i], f.name)),
            line_bps: Seq::new(m.line_bps.len(), |i: int| file_hit(m.line_bps[i], f.file, f.line)),
            ..m
        },
        None => m,
    }
}

fn more(hits: u32) -> (r: u32)
    ensures
        r == one_more(hits as int),
{
    if hits == u32::MAX {
        0
    } else {
        hits + 1
    }
}

fn hit_lines(bps: &mut Vec<LineBp>, line: i64)
    ensures
        lines_in(final(bps)@) == Seq::new(
            lines_in(old(bps)@).len(),
            |i: int| line_hit(lines_in(old(bps)@)[i], line as int),
        ),
{
    let ghost all = lines_in(bps@);
    let mut i: usize = 0;
    while i < bps.len()
        invariant
            i <= bps.len(),
            bps.len() == all.len(),
            forall|k: int|
                0 <= k < all.len() ==> (#[trigger] bps@[k])@ == if k < i {
                    line_hit(all[k], line as int)
                } else {
                    all[k]
                },
        decreases bps.len() - i,
    {
        assert(bps@[i as int]@ == all[i as int]);
        if bps[i].line == line {
            let h: u32 = more(bps[i].hits);
            bps[i].hits = h;
        }
        i += 1;
    }
    assert(lines_in(bps@) =~= Seq::new(all.len(), |i: int| line_hit(all[i], line as int)));
}

impl Session {
    /// Credit a breakpoint hit to the matching user breakpoint (by the stopped
    /// frame), so an exit summary can report which breakpoints actually fired.
    pub fn count_hit(&mut self, stop: &Stop)
        ensures
            final(self)@ == hit_counted(old(self)@, stop@),
            old(self)@.wf() ==> final(self)@.wf(),
    {
        let f = match stop.top() {
            Some(f) => f,
            None => return,
        };
        let ghost m = self@;
        let mut i: usize = 0;
        while i < self.fn_bps.len()
            invariant
                i <= self.fn_bps.len(),
                self.fn_bps.len() == m.fn_bps.len(),
                forall|k: int|
                    0 <= k < m.fn_bps.len() ==> (#[trigger] self.fn_bps@[k])@ == if k < i {
                        fn_hit(m.fn_bps[k], f.name@)
                    } else {
                        m.fn_bps[k]
                    },
                self@ == (SessionModel { fn_bps: self@.fn_bps, ..m }),
            decreases self.fn_bps.len() - i,
        {
            assert(self.fn_bps@[i as int]@ == m.fn_bps[i as int]);
            if has_text(f.name.as_str(), self.fn_bps[i].name.as_str()) {
                let h: u32 = more(self.fn_bps[i].hits);
                self.fn_bps[i].hits = h;
            }
            i += 1;
        }
        assert(self@.fn_bps =~= hit_counted(m, stop@).fn_bps);
        let ghost n = self@;
        let mut j: usize = 0;
        while j < self.line_bps.len()
            invariant
                j <= self.line_bps.len(),
                self.line_bps.len() == m.line_bps.len(),
                n.line_bps == m.line_bps,
                forall|k: int|
                    0 <= k < m.line_bps.len() ==> (#[trigger] self.line_bps@[k])@ == if k < j {
                        file_hit(m.line_bps[k], f.file@, f.line as int)
                    } else {
                        m.line_bps[k]
                    },
                self@ == (SessionModel { line_bps: self@.line_bps, ..n }),
            decreases self.line_bps.len() - j,
        {
            assert(self.line_bps@[j as int]@ == m.line_bps[j as int]);
            if ends(self.line_bps[j].path.as_str(), f.file.as_str()) {
                hit_lines(&mut self.line_bps[j].bps, f.line);
            }
            j += 1;
        }
        assert(self@.line_bps =~= hit_counted(m, stop@).line_bps);
    }
}

// ---------------------------------------------------------------------------
// Listing
// ---------------------------------------------------------------------------

/// The last part of a path.
pub open spec fn last_part(path: Seq<char>) -> Seq<char> {
    split_on(path, '/').last()
}

pub open spec fn fn_summary(b: FnBpModel) -> Doc {
    no_keys().with("loc"@, Doc::Str("fn "@ + b.name)).with("verified"@, Doc::Bool(b.verified)).with(
        "hits"@,
        Doc::Int(b.hits),
    )
}

pub open spec fn line_summary(file: Seq<char>, b: LineBpModel) -> Doc {
    no_keys().with("loc"@, Doc::Str(file + ":"@ + int_text(b.line))).with(
        "verified"@,
        Doc::Bool(b.verified),
    ).with("hits"@, Doc::Int(b.hits))
}

pub open spec fn file_summary(f: FileModel) -> Seq<Doc> {
    Seq::new(f.bps.len(), |i: int| line_summary(last_part(f.path), f.bps[i]))
}

pub open spec fn files_summary(fs: Seq<FileModel>) -> Seq<Doc>
    decreases fs.len(),
{
    if fs.len() == 0 {
        Seq::empty()
    } else {
        files_summary(fs.drop_last()) + file_summary(fs.last())
    }
}

/// What became of each breakpoint.
pub open spec fn summary_of(m: SessionModel) -> Seq<Doc> {
    Seq::new(m.fn_bps.len(), |i: int| fn_summary(m.fn_bps[i])) + files_summary(m.line_bps)
}

impl Session {
    /// Per-breakpoint bind status + hit count — surfaced when a run ends so the
    /// agent can tell "bound but never reached" from "could not resolve".
    pub fn bp_summary(&self) -> (r: Vec<Json>)
        ensures
            docs(r@) == summary_of(self@),
    {
        let mut v: Vec<Json> = Vec::new();
        let ghost fns = Seq::new(self@.fn_bps.len(), |i: int| fn_summary(self@.fn_bps[i]));
        let ghost files = self@.line_bps;
        let mut i: usize = 0;
        while i < self.fn_bps.len()
            invariant
                i <= self.fn_bps.len(),
                fns == Seq::new(self@.fn_bps.len(), |i: int| fn_summary(self@.fn_bps[i])),
                docs(v@) == fns.take(i as int),
            decreases self.fn_bps.len() - i,
        {
            let b = &self.fn_bps[i];
            let ghost before = docs(v@);
            let mut loc = String::from_str("fn ");
            loc.append(b.name.as_str());
            v.push(
                Json::obj().with("loc", Json::text(loc.as_str())).with(
                    "verified",
                    Json::boolean(b.verified),
                ).with("hits", Json::number(b.hits as i64)),
            );
            assert(docs(v@) =~= before.push(fn_summary(b@)));
            assert(docs(v@) =~= fns.take(i + 1));
            i += 1;
        }
        assert(fns.take(fns.len() as int) =~= fns);
        let mut j: usize = 0;
        assert(files.take(0) =~= Seq::empty());
        assert(fns + files_summary(files.take(0)) =~= fns);
        while j < self.line_bps.len()
            invariant
                j <= self.line_bps.len(),
                files == files_in(self.line_bps@),
                docs(v@) == fns + files_summary(files.take(j as int)),
            decreases self.line_bps.len() - j,
        {
            let f = &self.line_bps[j];
            assert(files.take(j + 1).drop_last() =~= files.take(j as int));
            let ghost done = docs(v@);
            let ghost rows = file_summary(f@);
            let parts = split_char(f.path.as_str(), '/');
            let last: usize = parts.len() - 1;
            let file = parts[last].as_str();
            assert(file@ == views(parts@)[last as int]);
            assert(file@ == last_part(f.path@));
            let mut k: usize = 0;
            assert(done + rows.take(0) =~= done);
            while k < f.bps.len()
                invariant
                    k <= f.bps.len(),
                    rows == file_summary(f@),
                    file@ == last_part(f.path@),
                    docs(v@) == done + rows.take(k as int),
                decreases f.bps.len() - k,
            {
                let b = &f.bps[k];
                let ghost before = docs(v@);
                let mut loc = owned(file);
                loc.append(":");
                let n = show_int(b.line);
                loc.append(n.as_str());
                v.push(
                    Json::obj().with("loc", Json::text(loc.as_str())).with(
                        "verified",
                        Json::boolean(b.verified),
                    ).with("hits", Json::number(b.hits as i64)),
                );
                assert(docs(v@) =~= before.push(line_summary(file@, b@)));
                assert(rows.take(k + 1) =~= rows.take(k as int).push(rows[k as int]));
                assert(docs(v@) =~= done + rows.take(k + 1));
                k += 1;
            }
            assert(rows.take(rows.len() as int) =~= rows);
            assert(docs(v@) =~= fns + (files_summary(files.take(j as int)) + rows));
            j += 1;
        }
        assert(files.take(files.len() as int) =~= files);
        v
    }
}

/// The mark of a breakpoint that is switched off.
pub open spec fn off_mark(enabled: bool) -> Seq<char> {
    if enabled {
        ""@
    } else {
        " [disabled]"@
    }
}

/// What narrows a line breakpoint down.
pub open spec fn extras(b: LineBpModel) -> Seq<char> {
    let c = match b.condition {
        Some(c) => " if "@ + c,
        None => ""@,
    };
    let h = match b.hit {
        Some(h) => " hit="@ + int_text(h),
        None => ""@,
    };
    let l = match b.log {
        Some(l) => " log="@ + l,
        None => ""@,
    };
    c + h + l
}

/// The row of a line breakpoint up to its mark.
pub open spec fn line_head(file: Seq<char>, b: LineBpModel) -> Seq<char> {
    "  ["@ + int_text(b.id) + "] "@ + file + ":"@ + int_text(b.line) + extras(b)
}

pub open spec fn line_row(file: Seq<char>, b: LineBpModel) -> (int, Seq<char>) {
    (b.id, line_head(file, b) + off_mark(b.enabled))
}

/// The row of a function breakpoint up to its mark.
pub open spec fn fn_head(b: FnBpModel) -> Seq<char> {
    "  ["@ + int_text(b.id) + "] fn "@ + b.name
}

pub open spec fn fn_row(b: FnBpModel) -> (int, Seq<char>) {
    (b.id, fn_head(b) + off_mark(b.enabled))
}

/// The row of a data breakpoint up to its mark.
pub open spec fn data_head(b: DataBpModel) -> Seq<char> {
    "  ["@ + int_text(b.id) + "] watch "@ + b.name
}

pub open spec fn data_row(b: DataBpModel) -> (int, Seq<char>) {
    (b.id, data_head(b) + off_mark(b.enabled))
}

/// The rows with one more, behind those with no larger id.
pub open spec fn insert_row(rows: Seq<(int, Seq<char>)>, row: (int, Seq<char>)) -> Seq<
    (int, Seq<char>),
>
    decreases rows.len(),
{
    if rows.len() == 0 || rows.last().0 <= row.0 {
        rows.push(row)
    } else {
        insert_row(rows.drop_last(), row).push(rows.last())
    }
}

/// The rows of one file, put among others.
pub open spec fn with_file_rows(
    rows: Seq<(int, Seq<char>)>,
    file: Seq<char>,
    bps: Seq<LineBpModel>,
) -> Seq<(int, Seq<char>)>
    decreases bps.len(),
{
    if bps.len() == 0 {
        rows
    } else {
        insert_row(with_file_rows(rows, file, bps.drop_last()), line_row(file, bps.last()))
    }
}

pub open spec fn with_files_rows(fs: Seq<FileModel>) -> Seq<(int, Seq<char>)>
    decreases fs.len(),
{
    if fs.len() == 0 {
        Seq::empty()
    } else {
        with_file_rows(with_files_rows(fs.drop_last()), file_label(fs.last().path), fs.last().bps)
    }
}

pub open spec fn with_fn_rows(rows: Seq<(int, Seq<char>)>, bps: Seq<FnBpModel>) -> Seq<
    (int, Seq<char>),
>
    decreases bps.len(),
{
    if bps.len() == 0 {
        rows
    } else {
        insert_row(with_fn_rows(rows, bps.drop_last()), fn_row(bps.last()))
    }
}

pub open spec fn with_data_rows(rows: Seq<(int, Seq<char>)>, bps: Seq<DataBpModel>) -> Seq<
    (int, Seq<char>),
>
    decreases bps.len(),
{
    if bps.len() == 0 {
        rows
    } else {
        insert_row(with_data_rows(rows, bps.drop_last()), data_row(bps.last()))
    }
}

/// The rows of a session's breakpoints, by id.
pub open spec fn bp_rows(m: SessionModel) -> Seq<(int, Seq<char>)> {
    with_data_rows(with_fn_rows(with_files_rows(m.line_bps), m.fn_bps), m.data_bps)
}

pub open spec fn row_texts(rows: Seq<(int, Seq<char>)>) -> Seq<Seq<char>> {
    Seq::new(rows.len(), |i: int| rows[i].1)
}

/// The lines of a session's list of breakpoints, that of the panic breakpoint
/// last.
pub open spec fn bp_lines(m: SessionModel) -> Seq<Seq<char>> {
    let rows = row_texts(bp_rows(m));
    if m.panic {
        rows.push("  [panic] rust panic"@)
    } else {
        rows
    }
}

/// The list of a session's breakpoints.
pub open spec fn bp_list(m: SessionModel) -> Seq<char> {
    if bp_lines(m).len() == 0 {
        "  (no breakpoints)"@
    } else {
        join(bp_lines(m), "\n"@)
    }
}

pub open spec fn rows_in(v: Seq<(i64, String)>) -> Seq<(int, Seq<char>)> {
    Seq::new(v.len(), |i: int| (v[i].0 as int, v[i].1@))
}

proof fn lemma_insert_row(rows: Seq<(int, Seq<char>)>, row: (int, Seq<char>), i: int)
    requires
        0 <= i <= rows.len(),
        i == 0 || rows[i - 1].0 <= row.0,
        forall|k: int| i <= k < rows.len() ==> (#[trigger] rows[k]).0 > row.0,
    ensures
        insert_row(rows, row) == rows.insert(i, row),
    decreases rows.len(),
{
    if i == rows.len() {
        assert(rows.insert(i, row) =~= rows.push(row));
    } else {
        assert(rows[rows.len() - 1].0 > row.0);
        let front = rows.drop_last();
        assert forall|k: int| i <= k < front.len() implies (#[trigger] front[k]).0 > row.0 by {
            assert(rows[k].0 > row.0);
        }
        lemma_insert_row(front, row, i);
        assert(rows.insert(i, row) =~= front.insert(i, row).push(rows.last()));
    }
}

fn place_row(rows: &mut Vec<(i64, String)>, id: i64, text: String)
    ensures
        rows_in(final(rows)@) == insert_row(rows_in(old(rows)@), (id as int, text@)),
{
    let ghost all = rows_in(rows@);
    let mut i: usize = rows.len();
    while i > 0 && rows[i - 1].0 > id
        invariant
            i <= rows.len(),
            all == rows_in(rows@),
            forall|k: int| i <= k < all.len() ==> (#[trigger] all[k]).0 > id,
        decreases i,
    {
        assert(all[i - 1].0 == rows@[i - 1].0);
        i -= 1;
    }
    proof {
        if i > 0 {
            assert(all[i - 1].0 == rows@[i - 1].0);
        }
        lemma_insert_row(all, (id as int, text@), i as int);
    }
    let ghost t = text@;
    rows.insert(i, (id, text));
    assert(rows_in(rows@) =~= all.insert(i as int, (id as int, t)));
}

fn off(enabled: bool) -> (r: &'static str)
    ensures
        r@ == off_mark(enabled),
{
    if enabled {
        ""
    } else {
        " [disabled]"
    }
}

fn show_line(file: &str, b: &LineBp) -> (r: String)
    ensures
        r@ == line_row(file@, b@).1,
{
    let mut c = String::from_str("");
    if let Some(t) = &b.condition {
        c = String::from_str(" if ");
        c.append(t.as_str());
    }
    let mut h = String::from_str("");
    if let Some(n) = b.hit {
        h = String::from_str(" hit=");
        let t = show_int(n);
        h.append(t.as_str());
    }
    let mut l = String::from_str("");
    if let Some(t) = &b.log {
        l = String::from_str(" log=");
        l.append(t.as_str());
    }
    c.append(h.as_str());
    c.append(l.as_str());
    let mut r = String::from_str("  [");
    let id = show_int(b.id);
    let line = show_int(b.line);
    r.append(id.as_str());
    r.append("] ");
    r.append(file);
    r.append(":");
    r.append(line.as_str());
    r.append(c.as_str());
    r.append(off(b.enabled));
    r
}

fn show_named(id: i64, kind: &str, name: &str, enabled: bool) -> (r: String)
    ensures
        r@ == "  ["@ + int_text(id as int) + kind@ + name@ + off_mark(enabled),
{
    let mut r = String::from_str("  [");
    let n = show_int(id);
    r.append(n.as_str());
    r.append(kind);
    r.append(name);
    r.append(off(enabled));
    r
}

impl Session {
    /// The list of breakpoints, by id.
    pub fn breakpoints_text(&self) -> (r: String)
        ensures
            r@ == bp_list(self@),
    {
        let mut rows: Vec<(i64, String)> = Vec::new();
        assert(rows_in(rows@) =~= Seq::empty());
        let ghost files = self@.line_bps;
        let ghost fns = self@.fn_bps;
        let ghost datas = self@.data_bps;
        let mut j: usize = 0;
        assert(files.take(0) =~= Seq::empty());
        while j < self.line_bps.len()
            invariant
                j <= self.line_bps.len(),
                files == files_in(self.line_bps@),
                rows_in(rows@) == with_files_rows(files.take(j as int)),
            decreases self.line_bps.len() - j,
        {
            let f = &self.line_bps[j];
            assert(files.take(j + 1).drop_last() =~= files.take(j as int));
            let file = show_file(f.path.as_str());
            let ghost done = rows_in(rows@);
            let ghost bps = lines_in(f.bps@);
            let mut k: usize = 0;
            assert(bps.take(0) =~= Seq::empty());
            while k < f.bps.len()
                invariant
                    k <= f.bps.len(),
                    bps == lines_in(f.bps@),
                    rows_in(rows@) == with_file_rows(done, file@, bps.take(k as int)),
                decreases f.bps.len() - k,
            {
                assert(bps.take(k + 1).drop_last() =~= bps.take(k as int));
                assert(bps.take(k + 1).last() == f.bps@[k as int]@);
                place_row(&mut rows, f.bps[k].id, show_line(file.as_str(), &f.bps[k]));
                k += 1;
            }
            assert(bps.take(bps.len() as int) =~= bps);
            j += 1;
        }
        assert(files.take(files.len() as int) =~= files);
        let ghost done = rows_in(rows@);
        let mut i: usize = 0;
        assert(fns.take(0) =~= Seq::empty());
        while i < self.fn_bps.len()
            invariant
                i <= self.fn_bps.len(),
                fns == fns_in(self.fn_bps@),
                rows_in(rows@) == with_fn_rows(done, fns.take(i as int)),
            decreases self.fn_bps.len() - i,
        {
            let b = &self.fn_bps[i];
            assert(fns.take(i + 1).drop_last() =~= fns.take(i as int));
            assert(fns.take(i + 1).last() == b@);
            place_row(&mut rows, b.id, show_named(b.id, "] fn ", b.name.as_str(), b.enabled));
            i += 1;
        }
        assert(fns.take(fns.len() as int) =~= fns);
        let ghost done = rows_in(rows@);
        let mut d: usize = 0;
        assert(datas.take(0) =~= Seq::empty());
        while d < self.data_bps.len()
            invariant
                d <= self.data_bps.len(),
                datas == datas_in(self.data_bps@),
                rows_in(rows@) == with_data_rows(done, datas.take(d as int)),
            decreases self.data_bps.len() - d,
        {
            let b = &self.data_bps[d];
            assert(datas.take(d + 1).drop_last() =~= datas.take(d as int));
            assert(datas.take(d + 1).last() == b@);
            place_row(&mut rows, b.id, show_named(b.id, "] watch ", b.name.as_str(), b.enabled));
            d += 1;
        }
        assert(datas.take(datas.len() as int) =~= datas);
        let mut lines: Vec<String> = Vec::new();
        let ghost texts = row_texts(rows_in(rows@));
        let mut n: usize = 0;
        assert(views(lines@) =~= texts.take(0));
        while n < rows.len()
            invariant
                n <= rows.len(),
                texts == row_texts(rows_in(rows@)),
                views(lines@) == texts.take(n as int),
            decreases rows.len() - n,
        {
            let ghost before = views(lines@);
            lines.push(owned(rows[n].1.as_str()));
            assert(views(lines@) =~= before.push(texts[n as int]));
            assert(views(lines@) =~= texts.take(n + 1));
            n += 1;
        }
        assert(texts.take(texts.len() as int) =~= texts);
        if self.panic {
            lines.push(owned("  [panic] rust panic"));
            assert(views(lines@) =~= texts.push("  [panic] rust panic"@));
        }
        if lines.len() == 0 {
            owned("  (no breakpoints)")
        } else {
            join_all(&lines, "\n")
        }
    }
}

/// The rows come in the order of their ids.
pub open spec fn in_order(rows: Seq<(int, Seq<char>)>) -> bool {
    forall|i: int, j: int|
        0 <= i <= j < rows.len() ==> (#[trigger] rows[i]).0 <= (#[trigger] rows[j]).0
}

proof fn lemma_insert_in_order(rows: Seq<(int, Seq<char>)>, row: (int, Seq<char>))
    requires
        in_order(rows),
    ensures
        in_order(insert_row(rows, row)),
        insert_row(rows, row).to_multiset() == rows.to_multiset().insert(row),
        insert_row(rows, row).len() == rows.len() + 1,
        forall|i: int|
            0 <= i < rows.len() + 1 ==> (#[trigger] insert_row(rows, row)[i]).0 <= if rows.len()
                == 0 || rows.last().0 <= row.0 {
                row.0
            } else {
                rows.last().0
            },
    decreases rows.len(),
{
    broadcast use vstd::seq_lib::group_to_multiset_ensures;

    let out = insert_row(rows, row);
    if rows.len() == 0 || rows.last().0 <= row.0 {
        assert forall|i: int, j: int| 0 <= i <= j < out.len() implies (#[trigger] out[i]).0 <= (
        #[trigger] out[j]).0 by {
            if j < rows.len() {
                assert(rows[i].0 <= rows[j].0);
            } else if i < rows.len() {
                assert(rows[i].0 <= rows[rows.len() - 1].0);
            }
        }
    } else {
        let front = rows.drop_last();
        assert(in_order(front)) by {
            assert forall|i: int, j: int| 0 <= i <= j < front.len() implies (#[trigger] front[i]).0
                <= (#[trigger] front[j]).0 by {
                assert(rows[i].0 <= rows[j].0);
            }
        }
        lemma_insert_in_order(front, row);
        let mid = insert_row(front, row);
        assert(out == mid.push(rows.last()));
        assert(front.push(rows.last()) =~= rows);
        assert forall|i: int| 0 <= i < mid.len() implies (#[trigger] mid[i]).0 <= rows.last().0 by {
            if front.len() > 0 {
                assert(rows[front.len() - 1].0 <= rows[rows.len() - 1].0);
            }
        }
        assert(out.to_multiset() =~= rows.to_multiset().insert(row));
    }
}

/// The rows of the line breakpoints of a file, in their places.
pub open spec fn file_rows(file: Seq<char>, bps: Seq<LineBpModel>) -> Seq<(int, Seq<char>)> {
    Seq::new(bps.len(), |i: int| line_row(file, bps[i]))
}

pub open spec fn files_rows(fs: Seq<FileModel>) -> Seq<(int, Seq<char>)>
    decreases fs.len(),
{
    if fs.len() == 0 {
        Seq::empty()
    } else {
        files_rows(fs.drop_last()) + file_rows(file_label(fs.last().path), fs.last().bps)
    }
}

pub open spec fn fn_rows(bps: Seq<FnBpModel>) -> Seq<(int, Seq<char>)> {
    Seq::new(bps.len(), |i: int| fn_row(bps[i]))
}

pub open spec fn data_rows(bps: Seq<DataBpModel>) -> Seq<(int, Seq<char>)> {
    Seq::new(bps.len(), |i: int| data_row(bps[i]))
}

/// One row for each line, function and data breakpoint, in their places.
pub open spec fn all_rows(m: SessionModel) -> Seq<(int, Seq<char>)> {
    files_rows(m.line_bps) + fn_rows(m.fn_bps) + data_rows(m.data_bps)
}

proof fn lemma_file_rows(rows: Seq<(int, Seq<char>)>, file: Seq<char>, bps: Seq<LineBpModel>)
    requires
        in_order(rows),
    ensures
        in_order(with_file_rows(rows, file, bps)),
        with_file_rows(rows, file, bps).len() == rows.len() + line_count(bps, false),
        with_file_rows(rows, file, bps).to_multiset() == rows.to_multiset().add(
            file_rows(file, bps).to_multiset(),
        ),
    decreases bps.len(),
{
    broadcast use vstd::seq_lib::group_to_multiset_ensures;

    if bps.len() > 0 {
        let front = bps.drop_last();
        lemma_file_rows(rows, file, front);
        lemma_insert_in_order(with_file_rows(rows, file, front), line_row(file, bps.last()));
        assert(file_rows(file, bps) =~= file_rows(file, front).push(line_row(file, bps.last())));
        assert(with_file_rows(rows, file, bps).to_multiset() =~= rows.to_multiset().add(
            file_rows(file, bps).to_multiset(),
        ));
    } else {
        assert(file_rows(file, bps) =~= Seq::empty());
        assert(rows.to_multiset().add(file_rows(file, bps).to_multiset()) =~= rows.to_multiset());
    }
}

proof fn lemma_files_rows(fs: Seq<FileModel>)
    ensures
        in_order(with_files_rows(fs)),
        with_files_rows(fs).len() == lines_count(fs, false),
        with_files_rows(fs).to_multiset() == files_rows(fs).to_multiset(),
    decreases fs.len(),
{
    if fs.len() > 0 {
        let front = fs.drop_last();
        let file = file_label(fs.last().path);
        lemma_files_rows(front);
        lemma_file_rows(with_files_rows(front), file, fs.last().bps);
        vstd::seq_lib::lemma_multiset_commutative(
            files_rows(front),
            file_rows(file, fs.last().bps),
        );
    }
}

proof fn lemma_fn_rows(rows: Seq<(int, Seq<char>)>, bps: Seq<FnBpModel>)
    requires
        in_order(rows),
    ensures
        in_order(with_fn_rows(rows, bps)),
        with_fn_rows(rows, bps).len() == rows.len() + fn_count(bps, false),
        with_fn_rows(rows, bps).to_multiset() == rows.to_multiset().add(
            fn_rows(bps).to_multiset(),
        ),
    decreases bps.len(),
{
    broadcast use vstd::seq_lib::group_to_multiset_ensures;

    if bps.len() > 0 {
        let front = bps.drop_last();
        lemma_fn_rows(rows, front);
        lemma_insert_in_order(with_fn_rows(rows, front), fn_row(bps.last()));
        assert(fn_rows(bps) =~= fn_rows(front).push(fn_row(bps.last())));
        assert(with_fn_rows(rows, bps).to_multiset() =~= rows.to_multiset().add(
            fn_rows(bps).to_multiset(),
        ));
    } else {
        assert(fn_rows(bps) =~= Seq::empty());
        assert(rows.to_multiset().add(fn_rows(bps).to_multiset()) =~= rows.to_multiset());
    }
}

proof fn lemma_data_rows(rows: Seq<(int, Seq<char>)>, bps: Seq<DataBpModel>)
    requires
        in_order(rows),
    ensures
        in_order(with_data_rows(rows, bps)),
        with_data_rows(rows, bps).len() == rows.len() + data_count(bps, false),
        with_data_rows(rows, bps).to_multiset() == rows.to_multiset().add(
            data_rows(bps).to_multiset(),
        ),
    decreases bps.len(),
{
    broadcast use vstd::seq_lib::group_to_multiset_ensures;

    if bps.len() > 0 {
        let front = bps.drop_last();
        lemma_data_rows(rows, front);
        lemma_insert_in_order(with_data_rows(rows, front), data_row(bps.last()));
        assert(data_rows(bps) =~= data_rows(front).push(data_row(bps.last())));
        assert(with_data_rows(rows, bps).to_multiset() =~= rows.to_multiset().add(
            data_rows(bps).to_multiset(),
        ));
    } else {
        assert(data_rows(bps) =~= Seq::empty());
        assert(rows.to_multiset().add(data_rows(bps).to_multiset()) =~= rows.to_multiset());
    }
}

/// The list of breakpoints has one row for each, in the order of their ids.
pub proof fn breakpoints_are_listed_by_id(m: SessionModel)
    ensures
        in_order(bp_rows(m)),
        bp_rows(m).to_multiset() == all_rows(m).to_multiset(),
        bp_lines(m).len() == bp_count(m, false),
{
    let files = files_rows(m.line_bps);
    lemma_files_rows(m.line_bps);
    lemma_fn_rows(with_files_rows(m.line_bps), m.fn_bps);
    lemma_data_rows(with_fn_rows(with_files_rows(m.line_bps), m.fn_bps), m.data_bps);
    vstd::seq_lib::lemma_multiset_commutative(files, fn_rows(m.fn_bps));
    vstd::seq_lib::lemma_multiset_commutative(files + fn_rows(m.fn_bps), data_rows(m.data_bps));
}

pub open spec fn no_feed(s: Seq<char>) -> bool {
    !s.contains('\n')
}

/// No name, condition or log of a breakpoint holds a line feed.
pub open spec fn plain_names(m: SessionModel) -> bool {
    &&& forall|i: int|
        0 <= i < m.line_bps.len() ==> plain_file(#[trigger] m.line_bps[i])
    &&& forall|i: int| 0 <= i < m.fn_bps.len() ==> no_feed((#[trigger] m.fn_bps[i]).name)
    &&& forall|i: int| 0 <= i < m.data_bps.len() ==> no_feed((#[trigger] m.data_bps[i]).name)
}

pub open spec fn plain_file(f: FileModel) -> bool {
    no_feed(file_label(f.path)) && forall|i: int|
        0 <= i < f.bps.len() ==> plain_line(#[trigger] f.bps[i])
}

pub open spec fn plain_line(b: LineBpModel) -> bool {
    (b.condition matches Some(c) ==> no_feed(c)) && (b.log matches Some(l) ==> no_feed(l))
}

/// A row of the list: one line, which begins with a number in brackets.
spec fn is_row(s: Seq<char>) -> bool {
    no_feed(s) && s.len() > 3 && s[2] == '[' && s[3] != 'p'
}

proof fn lemma_no_feed(a: Seq<char>, b: Seq<char>)
    requires
        no_feed(a),
        no_feed(b),
    ensures
        no_feed(a + b),
{
    let s = a + b;
    if s.contains('\n') {
        let i = choose|i: int| 0 <= i < s.len() && s[i] == '\n';
        if i < a.len() {
            assert(a[i] == '\n');
        } else {
            assert(b[i - a.len()] == '\n');
        }
    }
}

proof fn lemma_number_line(n: int)
    ensures
        no_feed(int_text(n)),
{
    lemma_int_text(n);
    let t = int_text(n);
    if t.contains('\n') {
        let i = choose|i: int| 0 <= i < t.len() && t[i] == '\n';
        assert(digit(t[i]) || t[i] == '-');
    }
}

/// What a row begins with makes it one.
proof fn lemma_row(id: int, rest: Seq<char>, enabled: bool, s: Seq<char>)
    requires
        no_feed(rest),
        s == "  ["@ + int_text(id) + rest + off_mark(enabled),
    ensures
        is_row(s),
{
    reveal_strlit("  [");
    reveal_strlit("");
    reveal_strlit(" [disabled]");
    lemma_int_text(id);
    lemma_number_line(id);
    lemma_no_feed("  ["@, int_text(id));
    lemma_no_feed("  ["@ + int_text(id), rest);
    lemma_no_feed("  ["@ + int_text(id) + rest, off_mark(enabled));
    assert(digit(int_text(id)[0]) || int_text(id)[0] == '-');
    assert(s[2] == "  ["@[2]);
    assert(s[3] == int_text(id)[0]);
}

proof fn lemma_line_row(file: Seq<char>, b: LineBpModel)
    requires
        no_feed(file),
        plain_line(b),
    ensures
        is_row(line_row(file, b).1),
{
    reveal_strlit("");
    reveal_strlit("] ");
    reveal_strlit(":");
    reveal_strlit(" if ");
    reveal_strlit(" hit=");
    reveal_strlit(" log=");
    let c = match b.condition {
        Some(c) => " if "@ + c,
        None => ""@,
    };
    if let Some(x) = b.condition {
        lemma_no_feed(" if "@, x);
    }
    let h = match b.hit {
        Some(h) => " hit="@ + int_text(h),
        None => ""@,
    };
    if let Some(x) = b.hit {
        lemma_number_line(x);
        lemma_no_feed(" hit="@, int_text(x));
    }
    let l = match b.log {
        Some(l) => " log="@ + l,
        None => ""@,
    };
    if let Some(x) = b.log {
        lemma_no_feed(" log="@, x);
    }
    lemma_no_feed(c, h);
    lemma_no_feed(c + h, l);
    lemma_number_line(b.line);
    lemma_no_feed("] "@, file);
    lemma_no_feed("] "@ + file, ":"@);
    lemma_no_feed("] "@ + file + ":"@, int_text(b.line));
    lemma_no_feed("] "@ + file + ":"@ + int_text(b.line), extras(b));
    let rest = "] "@ + file + ":"@ + int_text(b.line) + extras(b);
    assert(line_head(file, b) =~= "  ["@ + int_text(b.id) + rest);
    lemma_row(b.id, rest, b.enabled, line_row(file, b).1);
}

proof fn lemma_fn_row(b: FnBpModel)
    requires
        no_feed(b.name),
    ensures
        is_row(fn_row(b).1),
{
    reveal_strlit("] fn ");
    lemma_no_feed("] fn "@, b.name);
    assert(fn_head(b) =~= "  ["@ + int_text(b.id) + ("] fn "@ + b.name));
    lemma_row(b.id, "] fn "@ + b.name, b.enabled, fn_row(b).1);
}

proof fn lemma_data_row(b: DataBpModel)
    requires
        no_feed(b.name),
    ensures
        is_row(data_row(b).1),
{
    reveal_strlit("] watch ");
    lemma_no_feed("] watch "@, b.name);
    assert(data_head(b) =~= "  ["@ + int_text(b.id) + ("] watch "@ + b.name));
    lemma_row(b.id, "] watch "@ + b.name, b.enabled, data_row(b).1);
}

proof fn lemma_files_are_rows(fs: Seq<FileModel>)
    requires
        forall|i: int| 0 <= i < fs.len() ==> plain_file(#[trigger] fs[i]),
    ensures
        forall|i: int| 0 <= i < files_rows(fs).len() ==> is_row((#[trigger] files_rows(fs)[i]).1),
    decreases fs.len(),
{
    if fs.len() > 0 {
        let front = fs.drop_last();
        assert forall|i: int| 0 <= i < front.len() implies plain_file(#[trigger] front[i]) by {
            assert(front[i] == fs[i]);
        }
        lemma_files_are_rows(front);
        let f = fs.last();
        assert(plain_file(fs[fs.len() - 1]));
        let done = files_rows(front);
        let rows = files_rows(fs);
        assert forall|i: int| 0 <= i < rows.len() implies is_row((#[trigger] rows[i]).1) by {
            if i < done.len() {
                assert(rows[i] == done[i]);
            } else {
                assert(plain_line(f.bps[i - done.len()]));
                lemma_line_row(file_label(f.path), f.bps[i - done.len()]);
            }
        }
    }
}

/// Every line of the list but that of the panic breakpoint is a row.
proof fn lemma_all_are_rows(m: SessionModel)
    requires
        plain_names(m),
    ensures
        forall|i: int| 0 <= i < bp_rows(m).len() ==> is_row((#[trigger] bp_rows(m)[i]).1),
{
    broadcast use vstd::seq_lib::group_to_multiset_ensures;

    breakpoints_are_listed_by_id(m);
    lemma_files_are_rows(m.line_bps);
    let rows = bp_rows(m);
    let all = all_rows(m);
    let n = files_rows(m.line_bps).len();
    let k = n + m.fn_bps.len();
    assert forall|i: int| 0 <= i < all.len() implies is_row((#[trigger] all[i]).1) by {
        if i < n {
            assert(all[i] == files_rows(m.line_bps)[i]);
        } else if i < k {
            assert(all[i] == fn_row(m.fn_bps[i - n]));
            lemma_fn_row(m.fn_bps[i - n]);
        } else {
            assert(all[i] == data_row(m.data_bps[i - k]));
            lemma_data_row(m.data_bps[i - k]);
        }
    }
    assert forall|i: int| 0 <= i < rows.len() implies is_row((#[trigger] rows[i]).1) by {
        assert(rows.contains(rows[i]));
        assert(rows.to_multiset().count(rows[i]) > 0);
        assert(all.contains(rows[i]));
        let j = choose|j: int| 0 <= j < all.len() && all[j] == rows[i];
        assert(is_row(all[j].1));
    }
}

/// The row ends in the mark of a breakpoint that is switched off.
pub open spec fn marked(row: Seq<char>) -> bool {
    " [disabled]"@.is_suffix_of(row)
}

/// Where no name, condition or log holds a line feed, the list of breakpoints
/// has one line for each, and that of the panic breakpoint, where it is set,
/// comes last; it says that there are none where there are none, and only
/// then.
pub proof fn breakpoints_are_listed_one_a_line(m: SessionModel)
    requires
        plain_names(m),
    ensures
        bp_list(m) == "  (no breakpoints)"@ <==> bp_count(m, false) == 0,
        bp_count(m, false) > 0 ==> split_on(bp_list(m), '\n') == bp_lines(m),
        bp_count(m, false) > 0 ==> split_on(bp_list(m), '\n').len() == bp_count(m, false),
        bp_count(m, false) > 0 ==> (m.panic <==> split_on(bp_list(m), '\n').last()
            == "  [panic] rust panic"@),
{
    reveal_strlit("\n");
    reveal_strlit("  [panic] rust panic");
    reveal_strlit("  (no breakpoints)");
    breakpoints_are_listed_by_id(m);
    lemma_all_are_rows(m);
    let ls = bp_lines(m);
    let rows = bp_rows(m);
    let last = "  [panic] rust panic"@;
    assert forall|i: int| 0 <= i < ls.len() implies !(#[trigger] ls[i]).contains('\n') by {
        if i < rows.len() {
            assert(ls[i] == rows[i].1);
            assert(is_row(rows[i].1));
        }
    }
    if ls.len() > 0 {
        assert("\n"@ =~= seq!['\n']);
        joined_parts_split_again(ls, '\n');
        assert(ls[0][2] == '[' && ls[0].len() > 2) by {
            if rows.len() > 0 {
                assert(ls[0] == rows[0].1);
                assert(is_row(rows[0].1));
            }
        }
        lemma_joined_begins(ls, "\n"@, 2);
        assert("  (no breakpoints)"@[2] == '(');
        if !m.panic {
            assert(ls.last() == rows[rows.len() - 1].1);
            assert(is_row(rows[rows.len() - 1].1));
            assert(last[3] == 'p');
        }
    }
}

/// A joined text begins with the first part.
proof fn lemma_joined_begins(parts: Seq<Seq<char>>, sep: Seq<char>, i: int)
    requires
        parts.len() > 0,
        0 <= i < parts[0].len(),
    ensures
        join(parts, sep).len() > i,
        join(parts, sep)[i] == parts[0][i],
    decreases parts.len(),
{
    if parts.len() > 1 {
        lemma_joined_begins(parts.drop_last(), sep, i);
    }
}

/// The row of a breakpoint ends in the mark if it is switched off, and only
/// then where what stands before the mark does not end in it.
pub proof fn rows_tell_what_is_disabled(
    file: Seq<char>,
    line: LineBpModel,
    func: FnBpModel,
    data: DataBpModel,
)
    ensures
        !line.enabled ==> marked(line_row(file, line).1),
        !func.enabled ==> marked(fn_row(func).1),
        !data.enabled ==> marked(data_row(data).1),
        !marked(line_head(file, line)) ==> (marked(line_row(file, line).1) <==> !line.enabled),
        !marked(fn_head(func)) ==> (marked(fn_row(func).1) <==> !func.enabled),
        !marked(data_head(data)) ==> (marked(data_row(data).1) <==> !data.enabled),
{
    lemma_mark(line_head(file, line), line.enabled);
    lemma_mark(fn_head(func), func.enabled);
    lemma_mark(data_head(data), data.enabled);
}

proof fn lemma_mark(head: Seq<char>, enabled: bool)
    ensures
        !enabled ==> marked(head + off_mark(enabled)),
        !marked(head) ==> (marked(head + off_mark(enabled)) <==> !enabled),
{
    reveal_strlit("");
    let mark = " [disabled]"@;
    let s = head + off_mark(enabled);
    if enabled {
        assert(s =~= head);
    } else {
        assert(s.subrange(s.len() - mark.len(), s.len() as int) =~= mark);
    }
}

// ---------------------------------------------------------------------------
// What breakpoints are bound, hit and listed as
// ---------------------------------------------------------------------------

proof fn lemma_enabled_place(bps: Seq<LineBpModel>, i: int, k: int, n: int)
    requires
        0 <= i <= k < bps.len(),
        bps[k].enabled,
        forall|j: int| i <= j < k ==> !((#[trigger] bps[j]).enabled && bps[j].id == bps[k].id),
    ensures
        enabled_place(bps, bps[k].id, i, n) == Some(
            n + bps.subrange(i, k).filter(|b: LineBpModel| b.enabled).len(),
        ),
    decreases k - i,
{
    let p = |b: LineBpModel| b.enabled;
    if i == k {
        reveal(Seq::filter);
        assert(bps.subrange(i, k).len() == 0);
    } else {
        assert(!(bps[i].enabled && bps[i].id == bps[k].id));
        let m = if bps[i].enabled {
            n + 1
        } else {
            n
        };
        lemma_enabled_place(bps, i + 1, k, m);
        let one = seq![bps[i]];
        assert(bps.subrange(i, k) =~= one + bps.subrange(i + 1, k));
        Seq::filter_distributes_over_add(one, bps.subrange(i + 1, k), p);
        assert(one.filter(p).len() == if bps[i].enabled {
            1int
        } else {
            0
        }) by {
            reveal_with_fuel(Seq::filter, 2);
            assert(one.drop_last() =~= Seq::<LineBpModel>::empty());
        }
    }
}

/// A line breakpoint that is switched on has bound as the adapter says of it:
/// in the reply it stands behind as many as are switched on before it in the
/// file. Of one that the reply says nothing of, it is taken to have bound.
pub proof fn a_breakpoint_binds_as_the_reply_says_of_it(bps: Seq<LineBpModel>, k: int, reply: Doc)
    requires
        0 <= k < bps.len(),
        bps[k].enabled,
        forall|j: int| 0 <= j < k ==> (#[trigger] bps[j]).id != bps[k].id,
    ensures
        ({
            let said = reply.at("body"@).at("breakpoints"@).items();
            let p = bps.take(k).filter(|b: LineBpModel| b.enabled).len() as int;
            &&& p < said.len() ==> (line_bound(bps, bps[k].id, reply) <==> said[p].at("verified"@)
                == Doc::Bool(true))
            &&& p >= said.len() ==> line_bound(bps, bps[k].id, reply)
        }),
{
    lemma_enabled_place(bps, 0, k, 0);
    assert(bps.subrange(0, k) =~= bps.take(k));
}

proof fn lemma_line_place(bps: Seq<LineBpModel>, id: int, i: int)
    requires
        0 <= i <= bps.len(),
    ensures
        match line_place(bps, id, i) {
            Some(k) => i <= k < bps.len() && bps[k].id == id && forall|j: int|
                i <= j < k ==> (#[trigger] bps[j]).id != id,
            None => forall|j: int| i <= j < bps.len() ==> (#[trigger] bps[j]).id != id,
        },
    decreases bps.len() - i,
{
    if i < bps.len() && bps[i].id != id {
        lemma_line_place(bps, id, i + 1);
    }
}

/// Taking note of a reply to a breakpoint on a line changes nothing but whether
/// that breakpoint has bound.
pub proof fn binding_a_line_changes_no_other(
    m: SessionModel,
    path: Seq<char>,
    id: int,
    reply: Doc,
    f: int,
    k: int,
)
    requires
        0 <= f < m.line_bps.len(),
        0 <= k < m.line_bps[f].bps.len(),
    ensures
        ({
            let r = line_replied(m, path, id, reply);
            let b = m.line_bps[f].bps[k];
            &&& r.line_bps.len() == m.line_bps.len()
            &&& r.line_bps[f].path == m.line_bps[f].path
            &&& r.line_bps[f].bps.len() == m.line_bps[f].bps.len()
            &&& b.id != id || m.line_bps[f].path != path ==> r.line_bps[f].bps[k] == b
            &&& r.line_bps[f].bps[k] == (LineBpModel { verified: r.line_bps[f].bps[k].verified, ..b })
            &&& m.wf() && m.line_bps[f].path == path && b.id == id && (forall|j: int|
                0 <= j < k ==> (#[trigger] m.line_bps[f].bps[j]).id != id)
                ==> r.line_bps[f].bps[k].verified == line_bound(m.line_bps[f].bps, id, reply)
            &&& r.fn_bps == m.fn_bps && r.data_bps == m.data_bps && r.panic == m.panic
        }),
{
    lemma_file_index(m.line_bps, path, 0);
    if let Some(i) = file_index(m.line_bps, path, 0) {
        lemma_line_place(m.line_bps[i].bps, id, 0);
        if i != f && m.line_bps[f].path == path && m.wf() {
            if i < f {
                assert(m.line_bps[i].path != m.line_bps[f].path);
            } else {
                assert(m.line_bps[f].path != m.line_bps[i].path);
            }
        }
    }
}

proof fn lemma_enabled_before(bps: Seq<FnBpModel>, i: int)
    requires
        0 <= i <= bps.len(),
    ensures
        enabled_before(bps, i) == bps.take(i).filter(|b: FnBpModel| b.enabled).len(),
    decreases i,
{
    reveal(Seq::filter);
    if i > 0 {
        lemma_enabled_before(bps, i - 1);
        assert(bps.take(i).drop_last() =~= bps.take(i - 1));
        assert(bps.take(i).last() == bps[i - 1]);
    }
}

/// A function breakpoint that is switched on has bound where the adapter says
/// so of it: in the reply it stands behind as many as are switched on before
/// it. One that is switched off stays as it is, and nothing else changes.
pub proof fn functions_bind_as_the_reply_says_of_them(
    m: SessionModel,
    reply: Doc,
    said: Seq<Doc>,
    i: int,
)
    requires
        reply.at("body"@).at("breakpoints"@) == Doc::Arr(said),
        0 <= i < m.fn_bps.len(),
    ensures
        ({
            let r = fns_replied(m, reply);
            let p = m.fn_bps.take(i).filter(|b: FnBpModel| b.enabled).len() as int;
            &&& r == (SessionModel { fn_bps: r.fn_bps, ..m })
            &&& r.fn_bps.len() == m.fn_bps.len()
            &&& r.fn_bps[i] == (FnBpModel { verified: r.fn_bps[i].verified, ..m.fn_bps[i] })
            &&& !m.fn_bps[i].enabled ==> r.fn_bps[i] == m.fn_bps[i]
            &&& m.fn_bps[i].enabled ==> (r.fn_bps[i].verified <==> p < said.len() && said[p].at(
                "verified"@,
            ) == Doc::Bool(true))
        }),
{
    lemma_enabled_before(m.fn_bps, i);
}

/// A stop counts as a hit of exactly the line breakpoints on its line, in the
/// files whose path ends in its file, and of the functions whose name stands
/// in that of its innermost frame: each of those has one hit more, all others
/// as many as before; and nothing else of them changes.
pub proof fn a_stop_is_a_hit_of_the_breakpoints_it_is_at(
    m: SessionModel,
    stop: StopModel,
    i: int,
    k: int,
)
    requires
        stop.frames.len() > 0,
    ensures
        ({
            let r = hit_counted(m, stop);
            let top = stop.frames[0];
            &&& r == (SessionModel { line_bps: r.line_bps, fn_bps: r.fn_bps, ..m })
            &&& r.line_bps.len() == m.line_bps.len() && r.fn_bps.len() == m.fn_bps.len()
            &&& 0 <= i < m.fn_bps.len() ==> {
                let b = m.fn_bps[i];
                &&& r.fn_bps[i] == (FnBpModel { hits: r.fn_bps[i].hits, ..b })
                &&& (exists|x: Seq<char>, y: Seq<char>| top.name == #[trigger] (x + b.name + y))
                    && b.hits < u32::MAX ==> r.fn_bps[i].hits == b.hits + 1
                &&& (forall|x: Seq<char>, y: Seq<char>| top.name != #[trigger] (x + b.name + y))
                    ==> r.fn_bps[i].hits == b.hits
            }
            &&& 0 <= i < m.line_bps.len() && 0 <= k < m.line_bps[i].bps.len() ==> {
                let b = m.line_bps[i].bps[k];
                let c = r.line_bps[i].bps[k];
                &&& r.line_bps[i].path == m.line_bps[i].path
                &&& r.line_bps[i].bps.len() == m.line_bps[i].bps.len()
                &&& c == (LineBpModel { hits: c.hits, ..b })
                &&& b.line == top.line && top.file.is_suffix_of(m.line_bps[i].path) && b.hits
                    < u32::MAX ==> c.hits == b.hits + 1
                &&& b.line != top.line || !top.file.is_suffix_of(m.line_bps[i].path) ==> c.hits
                    == b.hits
            }
        }),
{
    if 0 <= i < m.fn_bps.len() {
        what_is_held_stands_between(stop.frames[0].name, m.fn_bps[i].name);
    }
}

proof fn lemma_switch_count(bps: Seq<LineBpModel>, k: int, on: bool)
    requires
        0 <= k < bps.len(),
    ensures
        line_count(bps.update(k, LineBpModel { enabled: on, ..bps[k] }), true) == line_count(
            bps,
            true,
        ) + (if on {
            1int
        } else {
            0
        }) - (if bps[k].enabled {
            1int
        } else {
            0
        }),
    decreases bps.len(),
{
    let b = LineBpModel { enabled: on, ..bps[k] };
    if k == bps.len() - 1 {
        assert(bps.update(k, b).drop_last() =~= bps.drop_last());
    } else {
        lemma_switch_count(bps.drop_last(), k, on);
        assert(bps.update(k, b).drop_last() =~= bps.drop_last().update(k, b));
    }
}

/// A new breakpoint is one more, and one more that is switched on; that which
/// catches panics counts as one; and of all no more are switched on than there
/// are.
pub proof fn breakpoints_are_counted(
    m: SessionModel,
    path: Seq<char>,
    line: int,
    name: Seq<char>,
    data_id: Seq<char>,
    active: bool,
)
    requires
        m.wf(),
    ensures
        bp_count(m.with_line_bp(path, line, None, None, None), active) == bp_count(m, active) + 1,
        bp_count(m.with_fn_bp(name), active) == bp_count(m, active) + 1,
        bp_count(m.with_data_bp(name, data_id), active) == bp_count(m, active) + 1,
        !m.panic ==> bp_count(m.with_panic(true), active) == bp_count(m, active) + 1,
        0 <= bp_count(m, true) <= bp_count(m, false),
        m.line_bps.len() == 0 && m.fn_bps.len() == 0 && m.data_bps.len() == 0 && !m.panic
            ==> bp_count(m, active) == 0,
{
    let f = m.with_fn_bp(name);
    assert(f.fn_bps.drop_last() =~= m.fn_bps);
    let d = m.with_data_bp(name, data_id);
    assert(d.data_bps.drop_last() =~= m.data_bps);
    let l = m.with_line_bp(path, line, None, None, None);
    lemma_file_index(m.line_bps, path, 0);
    let bps = bps_of(m.line_bps, path);
    let b = l.line_bps;
    match file_index(m.line_bps, path, 0) {
        Some(i) => {
            let more = m.line_bps[i].bps.push(
                new_line_bp(l.bp_id, line, None, None, None),
            );
            assert(more.drop_last() =~= m.line_bps[i].bps);
            lemma_file_of_many(
                m.line_bps,
                i,
                FileModel { path: m.line_bps[i].path, bps: more },
                active,
            );
        },
        None => {
            assert(b.drop_last() =~= m.line_bps);
            let own = b.last().bps;
            assert(own.drop_last() =~= Seq::<LineBpModel>::empty());
            assert(line_count(Seq::<LineBpModel>::empty(), active) == 0);
        },
    }
    lemma_active_lines(m.line_bps);
    lemma_active_fns(m.fn_bps);
    lemma_active_datas(m.data_bps);
    lemma_counts(m.line_bps, true);
    lemma_fn_count(m.fn_bps, true);
    lemma_data_count(m.data_bps, true);
}

proof fn lemma_file_of_many(fs: Seq<FileModel>, i: int, f: FileModel, active: bool)
    requires
        0 <= i < fs.len(),
    ensures
        lines_count(fs.update(i, f), active) == lines_count(fs, active) - line_count(
            fs[i].bps,
            active,
        ) + line_count(f.bps, active),
    decreases fs.len(),
{
    if i == fs.len() - 1 {
        assert(fs.update(i, f).drop_last() =~= fs.drop_last());
    } else {
        lemma_file_of_many(fs.drop_last(), i, f, active);
        assert(fs.update(i, f).drop_last() =~= fs.drop_last().update(i, f));
    }
}

proof fn lemma_active_line(bps: Seq<LineBpModel>)
    ensures
        line_count(bps, true) <= line_count(bps, false),
    decreases bps.len(),
{
    if bps.len() > 0 {
        lemma_active_line(bps.drop_last());
    }
}

proof fn lemma_active_lines(fs: Seq<FileModel>)
    ensures
        lines_count(fs, true) <= lines_count(fs, false),
    decreases fs.len(),
{
    if fs.len() > 0 {
        lemma_active_lines(fs.drop_last());
        lemma_active_line(fs.last().bps);
    }
}

proof fn lemma_active_fns(bps: Seq<FnBpModel>)
    ensures
        fn_count(bps, true) <= fn_count(bps, false),
    decreases bps.len(),
{
    if bps.len() > 0 {
        lemma_active_fns(bps.drop_last());
    }
}

proof fn lemma_active_datas(bps: Seq<DataBpModel>)
    ensures
        data_count(bps, true) <= data_count(bps, false),
    decreases bps.len(),
{
    if bps.len() > 0 {
        lemma_active_datas(bps.drop_last());
    }
}

/// A breakpoint that is switched changes the number of those that are switched
/// on by itself alone, and never the number of all.
pub proof fn switching_is_counted(
    bps: Seq<LineBpModel>,
    fns: Seq<FnBpModel>,
    datas: Seq<DataBpModel>,
    k: int,
)
    ensures
        0 <= k < bps.len() && bps[k].enabled ==> line_count(
            bps.update(k, LineBpModel { enabled: false, ..bps[k] }),
            true,
        ) == line_count(bps, true) - 1,
        0 <= k < fns.len() && fns[k].enabled ==> fn_count(
            fns.update(k, FnBpModel { enabled: false, ..fns[k] }),
            true,
        ) == fn_count(fns, true) - 1,
        0 <= k < datas.len() && datas[k].enabled ==> data_count(
            datas.update(k, DataBpModel { enabled: false, ..datas[k] }),
            true,
        ) == data_count(datas, true) - 1,
        line_count(bps, false) == bps.len(),
        fn_count(fns, false) == fns.len(),
        data_count(datas, false) == datas.len(),
    decreases bps.len() + fns.len() + datas.len(),
{
    if 0 <= k < bps.len() {
        lemma_switch_count(bps, k, false);
    }
    if 0 <= k < fns.len() {
        lemma_fn_switch_count(fns, k);
    }
    if 0 <= k < datas.len() {
        lemma_data_switch_count(datas, k);
    }
    lemma_all_count(bps, fns, datas);
}

proof fn lemma_all_count(bps: Seq<LineBpModel>, fns: Seq<FnBpModel>, datas: Seq<DataBpModel>)
    ensures
        line_count(bps, false) == bps.len(),
        fn_count(fns, false) == fns.len(),
        data_count(datas, false) == datas.len(),
    decreases bps.len() + fns.len() + datas.len(),
{
    if bps.len() > 0 {
        lemma_all_count(bps.drop_last(), fns, datas);
    } else if fns.len() > 0 {
        lemma_all_count(bps, fns.drop_last(), datas);
    } else if datas.len() > 0 {
        lemma_all_count(bps, fns, datas.drop_last());
    }
}

proof fn lemma_fn_switch_count(bps: Seq<FnBpModel>, k: int)
    requires
        0 <= k < bps.len(),
    ensures
        bps[k].enabled ==> fn_count(bps.update(k, FnBpModel { enabled: false, ..bps[k] }), true)
            == fn_count(bps, true) - 1,
    decreases bps.len(),
{
    let b = FnBpModel { enabled: false, ..bps[k] };
    if k == bps.len() - 1 {
        assert(bps.update(k, b).drop_last() =~= bps.drop_last());
    } else {
        lemma_fn_switch_count(bps.drop_last(), k);
        assert(bps.update(k, b).drop_last() =~= bps.drop_last().update(k, b));
    }
}

proof fn lemma_data_switch_count(bps: Seq<DataBpModel>, k: int)
    requires
        0 <= k < bps.len(),
    ensures
        bps[k].enabled ==> data_count(bps.update(k, DataBpModel { enabled: false, ..bps[k] }), true)
            == data_count(bps, true) - 1,
    decreases bps.len(),
{
    let b = DataBpModel { enabled: false, ..bps[k] };
    if k == bps.len() - 1 {
        assert(bps.update(k, b).drop_last() =~= bps.drop_last());
    } else {
        lemma_data_switch_count(bps.drop_last(), k);
        assert(bps.update(k, b).drop_last() =~= bps.drop_last().update(k, b));
    }
}

proof fn lemma_in_files_rows(fs: Seq<FileModel>, f: int, k: int)
    requires
        0 <= f < fs.len(),
        0 <= k < fs[f].bps.len(),
    ensures
        files_rows(fs).contains(line_row(file_label(fs[f].path), fs[f].bps[k])),
    decreases fs.len(),
{
    let row = line_row(file_label(fs[f].path), fs[f].bps[k]);
    let before = files_rows(fs.drop_last());
    let last = file_rows(file_label(fs.last().path), fs.last().bps);
    if f == fs.len() - 1 {
        assert(last[k] == row);
        assert((before + last)[before.len() + k] == row);
    } else {
        lemma_in_files_rows(fs.drop_last(), f, k);
        let i = choose|i: int| 0 <= i < before.len() && before[i] == row;
        assert((before + last)[i] == row);
    }
}

proof fn lemma_row_is_listed(m: SessionModel, row: (int, Seq<char>), i: int)
    requires
        0 <= i < all_rows(m).len(),
        all_rows(m)[i] == row,
    ensures
        bp_lines(m).contains(row.1),
{
    broadcast use vstd::seq_lib::group_to_multiset_ensures;

    breakpoints_are_listed_by_id(m);
    assert(all_rows(m).contains(row));
    assert(all_rows(m).to_multiset().count(row) > 0);
    assert(bp_rows(m).contains(row));
    let j = choose|j: int| 0 <= j < bp_rows(m).len() && bp_rows(m)[j] == row;
    assert(row_texts(bp_rows(m))[j] == row.1);
    assert(bp_lines(m)[j] == row.1);
}

/// Every breakpoint stands in the list by a row of its own, which gives its
/// number, where it is or what it watches, what narrows it down, and, where it
/// is switched off, that it is.
pub proof fn every_breakpoint_has_its_row(m: SessionModel, f: int, k: int)
    ensures
        0 <= f < m.line_bps.len() && 0 <= k < m.line_bps[f].bps.len() ==> {
            let b = m.line_bps[f].bps[k];
            bp_lines(m).contains(
                "  ["@ + int_text(b.id) + "] "@ + file_label(m.line_bps[f].path) + ":"@ + int_text(
                    b.line,
                ) + ((match b.condition {
                    Some(c) => " if "@ + c,
                    None => ""@,
                }) + (match b.hit {
                    Some(h) => " hit="@ + int_text(h),
                    None => ""@,
                }) + (match b.log {
                    Some(l) => " log="@ + l,
                    None => ""@,
                })) + (if b.enabled {
                    ""@
                } else {
                    " [disabled]"@
                }),
            )
        },
        0 <= k < m.fn_bps.len() ==> {
            let b = m.fn_bps[k];
            bp_lines(m).contains(
                "  ["@ + int_text(b.id) + "] fn "@ + b.name + (if b.enabled {
                    ""@
                } else {
                    " [disabled]"@
                }),
            )
        },
        0 <= k < m.data_bps.len() ==> {
            let b = m.data_bps[k];
            bp_lines(m).contains(
                "  ["@ + int_text(b.id) + "] watch "@ + b.name + (if b.enabled {
                    ""@
                } else {
                    " [disabled]"@
                }),
            )
        },
        m.panic ==> bp_lines(m).last() == "  [panic] rust panic"@,
{
    let files = files_rows(m.line_bps);
    let fns = fn_rows(m.fn_bps);
    let datas = data_rows(m.data_bps);
    if 0 <= f < m.line_bps.len() && 0 <= k < m.line_bps[f].bps.len() {
        let row = line_row(file_label(m.line_bps[f].path), m.line_bps[f].bps[k]);
        lemma_in_files_rows(m.line_bps, f, k);
        let i = choose|i: int| 0 <= i < files.len() && files[i] == row;
        assert(all_rows(m)[i] == row);
        lemma_row_is_listed(m, row, i);
    }
    if 0 <= k < m.fn_bps.len() {
        assert(all_rows(m)[files.len() + k] == fns[k]);
        lemma_row_is_listed(m, fns[k], files.len() + k);
    }
    if 0 <= k < m.data_bps.len() {
        assert(all_rows(m)[files.len() + fns.len() + k] == datas[k]);
        lemma_row_is_listed(m, datas[k], files.len() + fns.len() + k);
    }
}

/// The summary of a run tells of every function breakpoint, then of every line
/// breakpoint: where it is, whether it bound, and how often it was hit.
pub proof fn the_summary_tells_of_every_breakpoint(m: SessionModel, f: int, k: int)
    ensures
        summary_of(m).len() == m.fn_bps.len() + lines_count(m.line_bps, false),
        0 <= k < m.fn_bps.len() ==> {
            let d = summary_of(m)[k];
            &&& d.at("loc"@) == Doc::Str("fn "@ + m.fn_bps[k].name)
            &&& d.at("verified"@) == Doc::Bool(m.fn_bps[k].verified)
            &&& d.at("hits"@) == Doc::Int(m.fn_bps[k].hits)
        },
        0 <= f < m.line_bps.len() && 0 <= k < m.line_bps[f].bps.len() ==> exists|i: int|
            {
                let b = m.line_bps[f].bps[k];
                &&& m.fn_bps.len() <= i < summary_of(m).len()
                &&& (#[trigger] summary_of(m)[i]).at("loc"@) == Doc::Str(
                    split_on(m.line_bps[f].path, '/').last() + ":"@ + int_text(b.line),
                )
                &&& summary_of(m)[i].at("verified"@) == Doc::Bool(b.verified)
                &&& summary_of(m)[i].at("hits"@) == Doc::Int(b.hits)
            },
{
    reveal_strlit("loc");
    reveal_strlit("verified");
    reveal_strlit("hits");
    assert("loc"@.len() == 3 && "verified"@.len() == 8 && "hits"@.len() == 4);
    lemma_summary_len(m.line_bps);
    if 0 <= f < m.line_bps.len() && 0 <= k < m.line_bps[f].bps.len() {
        let j = lemma_in_summary(m.line_bps, f, k);
        assert(summary_of(m)[m.fn_bps.len() + j] == files_summary(m.line_bps)[j]);
    }
}

proof fn lemma_summary_len(fs: Seq<FileModel>)
    ensures
        files_summary(fs).len() == lines_count(fs, false),
    decreases fs.len(),
{
    if fs.len() > 0 {
        lemma_summary_len(fs.drop_last());
        lemma_all_count(fs.last().bps, Seq::empty(), Seq::empty());
    }
}

proof fn lemma_in_summary(fs: Seq<FileModel>, f: int, k: int) -> (i: int)
    requires
        0 <= f < fs.len(),
        0 <= k < fs[f].bps.len(),
    ensures
        0 <= i < files_summary(fs).len(),
        files_summary(fs)[i] == line_summary(last_part(fs[f].path), fs[f].bps[k]),
    decreases fs.len(),
{
    let before = files_summary(fs.drop_last());
    if f == fs.len() - 1 {
        assert(file_summary(fs.last())[k] == line_summary(last_part(fs[f].path), fs[f].bps[k]));
        before.len() + k
    } else {
        lemma_in_summary(fs.drop_last(), f, k)
    }
}

/// One that is switched off, or that there is none of, is taken to have bound.
pub proof fn what_was_not_told_is_taken_to_have_bound(bps: Seq<LineBpModel>, id: int, reply: Doc)
    requires
        forall|k: int| 0 <= k < bps.len() && (#[trigger] bps[k]).id == id ==> !bps[k].enabled,
    ensures
        line_bound(bps, id, reply),
{
    lemma_none_enabled(bps, id, 0, 0);
}

proof fn lemma_none_enabled(bps: Seq<LineBpModel>, id: int, i: int, n: int)
    requires
        0 <= i <= bps.len(),
        forall|k: int| 0 <= k < bps.len() && (#[trigger] bps[k]).id == id ==> !bps[k].enabled,
    ensures
        enabled_place(bps, id, i, n) is None,
    decreases bps.len() - i,
{
    if i < bps.len() {
        lemma_none_enabled(bps, id, i + 1, n + 1);
        lemma_none_enabled(bps, id, i + 1, n);
    }
}

} // verus!
