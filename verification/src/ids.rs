//! How breakpoints are told apart: each has a number of its own, which it
//! keeps until it is removed.

use vstd::prelude::*;
use crate::breaks::{
    bp_count, data_count, data_place, datas_without, file_with, fn_count, fn_place, fns_replied,
    fns_without, hit_counted, last_file_with, line_count, line_place, lines_count, lines_without,
    removed, switched, SyncModel,
};
use crate::json::Doc;
use crate::num::i64_value;
use crate::run::{stepped, InputModel, PhaseModel, TaskModel};
use crate::session::{
    bps_of, file_index, lemma_file_index, new_line_bp, new_session, DataBpModel, FileModel, FnBpModel, LineBpModel,
    SessionModel,
};
use crate::stack::StopModel;

verus! {

// ---------------------------------------------------------------------------
// Counting the breakpoints with a number
// ---------------------------------------------------------------------------

pub open spec fn lines_with(bps: Seq<LineBpModel>, id: int) -> int
    decreases bps.len(),
{
    if bps.len() == 0 {
        0
    } else {
        lines_with(bps.drop_last(), id) + if bps.last().id == id {
            1int
        } else {
            0
        }
    }
}

pub open spec fn files_with(fs: Seq<FileModel>, id: int) -> int
    decreases fs.len(),
{
    if fs.len() == 0 {
        0
    } else {
        files_with(fs.drop_last(), id) + lines_with(fs.last().bps, id)
    }
}

pub open spec fn fns_with(bps: Seq<FnBpModel>, id: int) -> int
    decreases bps.len(),
{
    if bps.len() == 0 {
        0
    } else {
        fns_with(bps.drop_last(), id) + if bps.last().id == id {
            1int
        } else {
            0
        }
    }
}

pub open spec fn datas_with(bps: Seq<DataBpModel>, id: int) -> int
    decreases bps.len(),
{
    if bps.len() == 0 {
        0
    } else {
        datas_with(bps.drop_last(), id) + if bps.last().id == id {
            1int
        } else {
            0
        }
    }
}

/// How many breakpoints have a number.
pub open spec fn with_id(m: SessionModel, id: int) -> int {
    files_with(m.line_bps, id) + fns_with(m.fn_bps, id) + datas_with(m.data_bps, id)
}

/// No two breakpoints have one number, and every number has been given out.
pub open spec fn told_apart(m: SessionModel) -> bool {
    &&& 0 <= m.bp_id <= i64::MAX
    &&& forall|id: int| 0 <= #[trigger] with_id(m, id) <= 1
    &&& forall|id: int| #[trigger] with_id(m, id) > 0 ==> 1 <= id <= m.bp_id
}

/// No two breakpoints have one number.
pub open spec fn numbers_differ(m: SessionModel) -> bool {
    forall|id: int| #[trigger] with_id(m, id) <= 1
}

/// The session without the breakpoint at place `k` of its file `i`.
pub open spec fn line_taken(m: SessionModel, i: int, k: int) -> SessionModel {
    SessionModel {
        line_bps: m.line_bps.update(
            i,
            FileModel { path: m.line_bps[i].path, bps: m.line_bps[i].bps.remove(k) },
        ),
        ..m
    }
}

/// `r` is the session without one breakpoint, which has the number: all else
/// is as it was, and in its order.
pub open spec fn one_taken(m: SessionModel, r: SessionModel, id: int) -> bool {
    ||| exists|i: int, k: int|
        0 <= i < m.line_bps.len() && 0 <= k < m.line_bps[i].bps.len() && m.line_bps[i].bps[k].id
            == id && r == #[trigger] line_taken(m, i, k)
    ||| exists|k: int|
        0 <= k < m.fn_bps.len() && (#[trigger] m.fn_bps[k]).id == id && r == (SessionModel {
            fn_bps: m.fn_bps.remove(k),
            ..m
        })
    ||| exists|k: int|
        0 <= k < m.data_bps.len() && (#[trigger] m.data_bps[k]).id == id && r == (SessionModel {
            data_bps: m.data_bps.remove(k),
            ..m
        })
}

// ---------------------------------------------------------------------------
// Lists
// ---------------------------------------------------------------------------

proof fn lemma_lines_nonneg(bps: Seq<LineBpModel>, id: int)
    ensures
        lines_with(bps, id) >= 0,
    decreases bps.len(),
{
    if bps.len() > 0 {
        lemma_lines_nonneg(bps.drop_last(), id);
    }
}

proof fn lemma_files_nonneg(fs: Seq<FileModel>, id: int)
    ensures
        files_with(fs, id) >= 0,
    decreases fs.len(),
{
    if fs.len() > 0 {
        lemma_files_nonneg(fs.drop_last(), id);
        lemma_lines_nonneg(fs.last().bps, id);
    }
}

proof fn lemma_fns_nonneg(bps: Seq<FnBpModel>, id: int)
    ensures
        fns_with(bps, id) >= 0,
    decreases bps.len(),
{
    if bps.len() > 0 {
        lemma_fns_nonneg(bps.drop_last(), id);
    }
}

proof fn lemma_datas_nonneg(bps: Seq<DataBpModel>, id: int)
    ensures
        datas_with(bps, id) >= 0,
    decreases bps.len(),
{
    if bps.len() > 0 {
        lemma_datas_nonneg(bps.drop_last(), id);
    }
}

/// Lists of breakpoints with the same numbers at the same places.
proof fn lemma_lines_alike(a: Seq<LineBpModel>, b: Seq<LineBpModel>, id: int)
    requires
        a.len() == b.len(),
        forall|i: int| 0 <= i < a.len() ==> (#[trigger] a[i]).id == b[i].id,
    ensures
        lines_with(a, id) == lines_with(b, id),
    decreases a.len(),
{
    if a.len() > 0 {
        lemma_lines_alike(a.drop_last(), b.drop_last(), id);
        assert(a[a.len() - 1].id == b[b.len() - 1].id);
    }
}

proof fn lemma_files_alike(a: Seq<FileModel>, b: Seq<FileModel>, id: int)
    requires
        a.len() == b.len(),
        forall|i: int|
            0 <= i < a.len() ==> lines_with((#[trigger] a[i]).bps, id) == lines_with(b[i].bps, id),
    ensures
        files_with(a, id) == files_with(b, id),
    decreases a.len(),
{
    if a.len() > 0 {
        let x = a.drop_last();
        let y = b.drop_last();
        assert forall|i: int| 0 <= i < x.len() implies lines_with((#[trigger] x[i]).bps, id)
            == lines_with(y[i].bps, id) by {
            assert(x[i] == a[i]);
        }
        lemma_files_alike(x, y, id);
        assert(lines_with(a[a.len() - 1].bps, id) == lines_with(b[a.len() - 1].bps, id));
    }
}

proof fn lemma_fns_alike(a: Seq<FnBpModel>, b: Seq<FnBpModel>, id: int)
    requires
        a.len() == b.len(),
        forall|i: int| 0 <= i < a.len() ==> (#[trigger] a[i]).id == b[i].id,
    ensures
        fns_with(a, id) == fns_with(b, id),
    decreases a.len(),
{
    if a.len() > 0 {
        lemma_fns_alike(a.drop_last(), b.drop_last(), id);
        assert(a[a.len() - 1].id == b[b.len() - 1].id);
    }
}

proof fn lemma_datas_alike(a: Seq<DataBpModel>, b: Seq<DataBpModel>, id: int)
    requires
        a.len() == b.len(),
        forall|i: int| 0 <= i < a.len() ==> (#[trigger] a[i]).id == b[i].id,
    ensures
        datas_with(a, id) == datas_with(b, id),
    decreases a.len(),
{
    if a.len() > 0 {
        lemma_datas_alike(a.drop_last(), b.drop_last(), id);
        assert(a[a.len() - 1].id == b[b.len() - 1].id);
    }
}

/// One file of many set.
proof fn lemma_file_set(fs: Seq<FileModel>, i: int, f: FileModel, id: int)
    requires
        0 <= i < fs.len(),
    ensures
        files_with(fs.update(i, f), id) == files_with(fs, id) - lines_with(fs[i].bps, id)
            + lines_with(f.bps, id),
    decreases fs.len(),
{
    let g = fs.update(i, f);
    if i == fs.len() - 1 {
        assert(g.drop_last() =~= fs.drop_last());
    } else {
        assert(g.drop_last() =~= fs.drop_last().update(i, f));
        lemma_file_set(fs.drop_last(), i, f, id);
        assert(g.last() == fs.last());
    }
}

proof fn lemma_lines_dropped(bps: Seq<LineBpModel>, n: int, id: int)
    ensures
        lines_with(lines_without(bps, n), id) == if id == n {
            0
        } else {
            lines_with(bps, id)
        },
    decreases bps.len(),
{
    if bps.len() > 0 {
        lemma_lines_dropped(bps.drop_last(), n, id);
        let rest = lines_without(bps.drop_last(), n);
        if bps.last().id != n {
            assert(rest.push(bps.last()).drop_last() =~= rest);
        }
    }
}

proof fn lemma_fns_dropped(bps: Seq<FnBpModel>, n: int, id: int)
    ensures
        fns_with(fns_without(bps, n), id) == if id == n {
            0
        } else {
            fns_with(bps, id)
        },
    decreases bps.len(),
{
    if bps.len() > 0 {
        lemma_fns_dropped(bps.drop_last(), n, id);
        let rest = fns_without(bps.drop_last(), n);
        if bps.last().id != n {
            assert(rest.push(bps.last()).drop_last() =~= rest);
        }
    }
}

proof fn lemma_datas_dropped(bps: Seq<DataBpModel>, n: int, id: int)
    ensures
        datas_with(datas_without(bps, n), id) == if id == n {
            0
        } else {
            datas_with(bps, id)
        },
    decreases bps.len(),
{
    if bps.len() > 0 {
        lemma_datas_dropped(bps.drop_last(), n, id);
        let rest = datas_without(bps.drop_last(), n);
        if bps.last().id != n {
            assert(rest.push(bps.last()).drop_last() =~= rest);
        }
    }
}

/// A breakpoint is found exactly where there is one.
proof fn lemma_line_found(bps: Seq<LineBpModel>, id: int, i: int)
    requires
        0 <= i <= bps.len(),
    ensures
        line_place(bps, id, i) matches Some(k) ==> i <= k < bps.len() && bps[k].id == id,
        line_place(bps, id, i) is Some <==> lines_with(bps, id) > lines_with(bps.take(i), id),
    decreases bps.len() - i,
{
    if i < bps.len() {
        lemma_line_found(bps, id, i + 1);
        assert(bps.take(i + 1).drop_last() =~= bps.take(i));
        lemma_take_fewer_lines(bps, id, i + 1);
    } else {
        assert(bps.take(i) =~= bps);
    }
}

proof fn lemma_take_fewer_lines(bps: Seq<LineBpModel>, id: int, i: int)
    requires
        0 <= i <= bps.len(),
    ensures
        lines_with(bps.take(i), id) <= lines_with(bps, id),
    decreases bps.len() - i,
{
    if i < bps.len() {
        lemma_take_fewer_lines(bps, id, i + 1);
        assert(bps.take(i + 1).drop_last() =~= bps.take(i));
    } else {
        assert(bps.take(i) =~= bps);
    }
}

proof fn lemma_has_line(bps: Seq<LineBpModel>, id: int)
    ensures
        line_place(bps, id, 0) is Some <==> lines_with(bps, id) > 0,
        line_place(bps, id, 0) matches Some(k) ==> 0 <= k < bps.len() && bps[k].id == id,
{
    assert(bps.take(0) =~= Seq::empty());
    lemma_line_found(bps, id, 0);
}

proof fn lemma_take_fewer_files(fs: Seq<FileModel>, id: int, i: int)
    requires
        0 <= i <= fs.len(),
    ensures
        files_with(fs.take(i), id) <= files_with(fs, id),
    decreases fs.len() - i,
{
    if i < fs.len() {
        lemma_take_fewer_files(fs, id, i + 1);
        assert(fs.take(i + 1).drop_last() =~= fs.take(i));
        lemma_lines_nonneg(fs[i].bps, id);
    } else {
        assert(fs.take(i) =~= fs);
    }
}

proof fn lemma_file_found(fs: Seq<FileModel>, id: int, i: int)
    requires
        0 <= i <= fs.len(),
    ensures
        file_with(fs, id, i) matches Some(k) ==> i <= k < fs.len() && lines_with(fs[k].bps, id) > 0,
        file_with(fs, id, i) is Some <==> files_with(fs, id) > files_with(fs.take(i), id),
    decreases fs.len() - i,
{
    if i < fs.len() {
        lemma_file_found(fs, id, i + 1);
        assert(fs.take(i + 1).drop_last() =~= fs.take(i));
        lemma_has_line(fs[i].bps, id);
        lemma_lines_nonneg(fs[i].bps, id);
        lemma_take_fewer_files(fs, id, i + 1);
    } else {
        assert(fs.take(i) =~= fs);
    }
}

proof fn lemma_has_file(fs: Seq<FileModel>, id: int)
    ensures
        file_with(fs, id, 0) is Some <==> files_with(fs, id) > 0,
        file_with(fs, id, 0) matches Some(k) ==> 0 <= k < fs.len() && lines_with(fs[k].bps, id) > 0,
{
    assert(fs.take(0) =~= Seq::empty());
    lemma_file_found(fs, id, 0);
}

proof fn lemma_last_file(fs: Seq<FileModel>, id: int, i: int)
    requires
        0 <= i <= fs.len(),
    ensures
        last_file_with(fs, id, i) is Some <==> files_with(fs.take(i), id) > 0,
        last_file_with(fs, id, i) matches Some(k) ==> 0 <= k < i,
    decreases i,
{
    if i > 0 {
        lemma_last_file(fs, id, i - 1);
        assert(fs.take(i).drop_last() =~= fs.take(i - 1));
        lemma_has_line(fs[i - 1].bps, id);
        lemma_lines_nonneg(fs[i - 1].bps, id);
        lemma_files_nonneg(fs.take(i - 1), id);
    }
}

proof fn lemma_take_fewer_fns(bps: Seq<FnBpModel>, id: int, i: int)
    requires
        0 <= i <= bps.len(),
    ensures
        fns_with(bps.take(i), id) <= fns_with(bps, id),
    decreases bps.len() - i,
{
    if i < bps.len() {
        lemma_take_fewer_fns(bps, id, i + 1);
        assert(bps.take(i + 1).drop_last() =~= bps.take(i));
    } else {
        assert(bps.take(i) =~= bps);
    }
}

proof fn lemma_fn_found(bps: Seq<FnBpModel>, id: int, i: int)
    requires
        0 <= i <= bps.len(),
    ensures
        fn_place(bps, id, i) matches Some(k) ==> i <= k < bps.len() && bps[k].id == id,
        fn_place(bps, id, i) is Some <==> fns_with(bps, id) > fns_with(bps.take(i), id),
    decreases bps.len() - i,
{
    if i < bps.len() {
        lemma_fn_found(bps, id, i + 1);
        assert(bps.take(i + 1).drop_last() =~= bps.take(i));
        lemma_take_fewer_fns(bps, id, i + 1);
    } else {
        assert(bps.take(i) =~= bps);
    }
}

proof fn lemma_has_fn(bps: Seq<FnBpModel>, id: int)
    ensures
        fn_place(bps, id, 0) is Some <==> fns_with(bps, id) > 0,
        fn_place(bps, id, 0) matches Some(k) ==> 0 <= k < bps.len() && bps[k].id == id,
{
    assert(bps.take(0) =~= Seq::empty());
    lemma_fn_found(bps, id, 0);
}

proof fn lemma_take_fewer_datas(bps: Seq<DataBpModel>, id: int, i: int)
    requires
        0 <= i <= bps.len(),
    ensures
        datas_with(bps.take(i), id) <= datas_with(bps, id),
    decreases bps.len() - i,
{
    if i < bps.len() {
        lemma_take_fewer_datas(bps, id, i + 1);
        assert(bps.take(i + 1).drop_last() =~= bps.take(i));
    } else {
        assert(bps.take(i) =~= bps);
    }
}

proof fn lemma_data_found(bps: Seq<DataBpModel>, id: int, i: int)
    requires
        0 <= i <= bps.len(),
    ensures
        data_place(bps, id, i) matches Some(k) ==> i <= k < bps.len() && bps[k].id == id,
        data_place(bps, id, i) is Some <==> datas_with(bps, id) > datas_with(bps.take(i), id),
    decreases bps.len() - i,
{
    if i < bps.len() {
        lemma_data_found(bps, id, i + 1);
        assert(bps.take(i + 1).drop_last() =~= bps.take(i));
        lemma_take_fewer_datas(bps, id, i + 1);
    } else {
        assert(bps.take(i) =~= bps);
    }
}

proof fn lemma_has_data(bps: Seq<DataBpModel>, id: int)
    ensures
        data_place(bps, id, 0) is Some <==> datas_with(bps, id) > 0,
        data_place(bps, id, 0) matches Some(k) ==> 0 <= k < bps.len() && bps[k].id == id,
{
    assert(bps.take(0) =~= Seq::empty());
    lemma_data_found(bps, id, 0);
}

proof fn lemma_with_id_nonneg(m: SessionModel, id: int)
    ensures
        files_with(m.line_bps, id) >= 0,
        fns_with(m.fn_bps, id) >= 0,
        datas_with(m.data_bps, id) >= 0,
{
    lemma_files_nonneg(m.line_bps, id);
    lemma_fns_nonneg(m.fn_bps, id);
    lemma_datas_nonneg(m.data_bps, id);
}

/// The one breakpoint with a number taken out of a list.
proof fn lemma_line_taken(bps: Seq<LineBpModel>, id: int, k: int)
    requires
        0 <= k < bps.len(),
        bps[k].id == id,
        lines_with(bps, id) <= 1,
    ensures
        lines_without(bps, id) == bps.remove(k),
    decreases bps.len(),
{
    let front = bps.drop_last();
    lemma_lines_nonneg(front, id);
    if k < front.len() {
        assert(front[k] == bps[k]);
        lemma_take_fewer_lines(front, id, k + 1);
        assert(front.take(k + 1).drop_last() =~= front.take(k));
        lemma_lines_nonneg(front.take(k), id);
        lemma_line_taken(front, id, k);
        assert(front.remove(k).push(bps.last()) =~= bps.remove(k));
    } else {
        lemma_lines_stay(front, id);
        assert(bps.remove(k) =~= front);
    }
}

proof fn lemma_lines_stay(bps: Seq<LineBpModel>, id: int)
    requires
        lines_with(bps, id) <= 0,
    ensures
        lines_without(bps, id) == bps,
    decreases bps.len(),
{
    if bps.len() > 0 {
        lemma_lines_nonneg(bps.drop_last(), id);
        lemma_lines_stay(bps.drop_last(), id);
        assert(bps.drop_last().push(bps.last()) =~= bps);
    }
}

proof fn lemma_fn_taken(bps: Seq<FnBpModel>, id: int, k: int)
    requires
        0 <= k < bps.len(),
        bps[k].id == id,
        fns_with(bps, id) <= 1,
    ensures
        fns_without(bps, id) == bps.remove(k),
    decreases bps.len(),
{
    let front = bps.drop_last();
    lemma_fns_nonneg(front, id);
    if k < front.len() {
        assert(front[k] == bps[k]);
        lemma_take_fewer_fns(front, id, k + 1);
        assert(front.take(k + 1).drop_last() =~= front.take(k));
        lemma_fns_nonneg(front.take(k), id);
        lemma_fn_taken(front, id, k);
        assert(front.remove(k).push(bps.last()) =~= bps.remove(k));
    } else {
        lemma_fns_stay(front, id);
        assert(bps.remove(k) =~= front);
    }
}

proof fn lemma_fns_stay(bps: Seq<FnBpModel>, id: int)
    requires
        fns_with(bps, id) <= 0,
    ensures
        fns_without(bps, id) == bps,
    decreases bps.len(),
{
    if bps.len() > 0 {
        lemma_fns_nonneg(bps.drop_last(), id);
        lemma_fns_stay(bps.drop_last(), id);
        assert(bps.drop_last().push(bps.last()) =~= bps);
    }
}

proof fn lemma_data_taken(bps: Seq<DataBpModel>, id: int, k: int)
    requires
        0 <= k < bps.len(),
        bps[k].id == id,
        datas_with(bps, id) <= 1,
    ensures
        datas_without(bps, id) == bps.remove(k),
    decreases bps.len(),
{
    let front = bps.drop_last();
    lemma_datas_nonneg(front, id);
    if k < front.len() {
        assert(front[k] == bps[k]);
        lemma_take_fewer_datas(front, id, k + 1);
        assert(front.take(k + 1).drop_last() =~= front.take(k));
        lemma_datas_nonneg(front.take(k), id);
        lemma_data_taken(front, id, k);
        assert(front.remove(k).push(bps.last()) =~= bps.remove(k));
    } else {
        lemma_datas_stay(front, id);
        assert(bps.remove(k) =~= front);
    }
}

proof fn lemma_datas_stay(bps: Seq<DataBpModel>, id: int)
    requires
        datas_with(bps, id) <= 0,
    ensures
        datas_without(bps, id) == bps,
    decreases bps.len(),
{
    if bps.len() > 0 {
        lemma_datas_nonneg(bps.drop_last(), id);
        lemma_datas_stay(bps.drop_last(), id);
        assert(bps.drop_last().push(bps.last()) =~= bps);
    }
}

/// All breakpoints of a list count.
proof fn lemma_all_lines(bps: Seq<LineBpModel>)
    ensures
        line_count(bps, false) == bps.len(),
    decreases bps.len(),
{
    if bps.len() > 0 {
        lemma_all_lines(bps.drop_last());
    }
}

proof fn lemma_all_fns(bps: Seq<FnBpModel>)
    ensures
        fn_count(bps, false) == bps.len(),
    decreases bps.len(),
{
    if bps.len() > 0 {
        lemma_all_fns(bps.drop_last());
    }
}

proof fn lemma_all_datas(bps: Seq<DataBpModel>)
    ensures
        data_count(bps, false) == bps.len(),
    decreases bps.len(),
{
    if bps.len() > 0 {
        lemma_all_datas(bps.drop_last());
    }
}

/// One file of many set.
proof fn lemma_file_counted(fs: Seq<FileModel>, i: int, f: FileModel)
    requires
        0 <= i < fs.len(),
    ensures
        lines_count(fs.update(i, f), false) == lines_count(fs, false) - fs[i].bps.len()
            + f.bps.len(),
    decreases fs.len(),
{
    let g = fs.update(i, f);
    lemma_all_lines(fs[i].bps);
    lemma_all_lines(f.bps);
    if i == fs.len() - 1 {
        assert(g.drop_last() =~= fs.drop_last());
    } else {
        assert(g.drop_last() =~= fs.drop_last().update(i, f));
        lemma_file_counted(fs.drop_last(), i, f);
        assert(g.last() == fs.last());
    }
}

// ---------------------------------------------------------------------------
// Laws
// ---------------------------------------------------------------------------

/// The breakpoints of a session that is new are told apart: it has none.
pub proof fn a_new_session_tells_its_breakpoints_apart(
    program: Seq<char>,
    cwd: Seq<char>,
    args: Seq<Seq<char>>,
    adapter: Seq<char>,
)
    ensures
        told_apart(new_session(program, cwd, args, adapter)),
{
}

/// A breakpoint on a line gets a number that no breakpoint has, and all others
/// keep theirs.
pub proof fn a_line_breakpoint_gets_a_number_of_its_own(
    m: SessionModel,
    path: Seq<char>,
    line: int,
    condition: Option<Seq<char>>,
    hit: Option<int>,
    log: Option<Seq<char>>,
)
    requires
        told_apart(m),
        m.bp_id < i64::MAX,
    ensures
        with_id(m, m.bp_id + 1) == 0,
        told_apart(m.with_line_bp(path, line, condition, hit, log)),
        forall|id: int|
            #[trigger] with_id(m.with_line_bp(path, line, condition, hit, log), id) == with_id(
                m,
                id,
            ) + if id == m.bp_id + 1 {
                1int
            } else {
                0
            },
{
    let n = m.bp_id + 1;
    let r = m.with_line_bp(path, line, condition, hit, log);
    let bps = bps_of(m.line_bps, path);
    let b = new_line_bp(n, line, condition, hit, log);
    lemma_file_index(m.line_bps, path, 0);
    assert(0 <= with_id(m, n) <= 1);
    assert forall|id: int| #[trigger] with_id(r, id) == with_id(m, id) + if id == n {
        1int
    } else {
        0
    } by {
        assert(bps.push(b).drop_last() =~= bps);
        assert(bps.push(b).last() == b);
        assert(lines_with(bps.push(b), id) == lines_with(bps, id) + if id == n {
            1int
        } else {
            0
        });
        match file_index(m.line_bps, path, 0) {
            Some(i) => {
                lemma_file_set(
                    m.line_bps,
                    i,
                    FileModel { path: m.line_bps[i].path, bps: bps.push(b) },
                    id,
                );
            },
            None => {
                let f = FileModel { path, bps: bps.push(b) };
                assert(m.line_bps.push(f).drop_last() =~= m.line_bps);
                assert(lines_with(bps, id) == 0);
                assert(r.line_bps == m.line_bps.push(f));
            },
        }
    }
    assert forall|id: int| 0 <= #[trigger] with_id(r, id) <= 1 && (with_id(r, id) > 0 ==> 1 <= id
        <= r.bp_id) by {
        assert(0 <= with_id(m, id) <= 1);
    }
}

/// A breakpoint on a function gets a number that no breakpoint has, and all
/// others keep theirs.
pub proof fn a_function_breakpoint_gets_a_number_of_its_own(m: SessionModel, name: Seq<char>)
    requires
        told_apart(m),
        m.bp_id < i64::MAX,
    ensures
        with_id(m, m.bp_id + 1) == 0,
        told_apart(m.with_fn_bp(name)),
        forall|id: int|
            #[trigger] with_id(m.with_fn_bp(name), id) == with_id(m, id) + if id == m.bp_id + 1 {
                1int
            } else {
                0
            },
{
    let n = m.bp_id + 1;
    let r = m.with_fn_bp(name);
    assert(0 <= with_id(m, n) <= 1);
    assert forall|id: int| #[trigger] with_id(r, id) == with_id(m, id) + if id == n {
        1int
    } else {
        0
    } by {
        assert(r.fn_bps.drop_last() =~= m.fn_bps);
    }
    assert forall|id: int| 0 <= #[trigger] with_id(r, id) <= 1 && (with_id(r, id) > 0 ==> 1 <= id
        <= r.bp_id) by {
        assert(0 <= with_id(m, id) <= 1);
    }
}

/// A breakpoint on data gets a number that no breakpoint has, and all others
/// keep theirs.
pub proof fn a_watchpoint_gets_a_number_of_its_own(
    m: SessionModel,
    name: Seq<char>,
    data_id: Seq<char>,
)
    requires
        told_apart(m),
        m.bp_id < i64::MAX,
    ensures
        with_id(m, m.bp_id + 1) == 0,
        told_apart(m.with_data_bp(name, data_id)),
        forall|id: int|
            #[trigger] with_id(m.with_data_bp(name, data_id), id) == with_id(m, id) + if id
                == m.bp_id + 1 {
                1int
            } else {
                0
            },
{
    let n = m.bp_id + 1;
    let r = m.with_data_bp(name, data_id);
    assert(0 <= with_id(m, n) <= 1);
    assert forall|id: int| #[trigger] with_id(r, id) == with_id(m, id) + if id == n {
        1int
    } else {
        0
    } by {
        assert(r.data_bps.drop_last() =~= m.data_bps);
    }
    assert forall|id: int| 0 <= #[trigger] with_id(r, id) <= 1 && (with_id(r, id) > 0 ==> 1 <= id
        <= r.bp_id) by {
        assert(0 <= with_id(m, id) <= 1);
    }
}

/// A breakpoint is removed exactly where the id is the number of one. That one
/// is gone then and no other: all others stay as they are and in their order,
/// there is one breakpoint less, and it cannot be removed again.
pub proof fn a_removed_breakpoint_is_gone(m: SessionModel, id: Seq<char>)
    requires
        numbers_differ(m),
        id != "panic"@,
    ensures
        removed(m, id) is Some <==> (i64_value(id) matches Some(n) && with_id(m, n) > 0),
        removed(m, id) matches Some((r, _)) ==> {
            &&& one_taken(m, r, i64_value(id)->0)
            &&& bp_count(r, false) == bp_count(m, false) - 1
            &&& removed(r, id) is None
            &&& forall|k: int|
                #[trigger] with_id(r, k) == if k == i64_value(id)->0 {
                    0
                } else {
                    with_id(m, k)
                }
            &&& numbers_differ(r)
            &&& told_apart(m) ==> told_apart(r)
        },
{
    if i64_value(id) is Some {
        let n = i64_value(id)->0;
        lemma_has_file(m.line_bps, n);
        lemma_has_fn(m.fn_bps, n);
        lemma_has_data(m.data_bps, n);
        lemma_with_id_nonneg(m, n);
        if removed(m, id) is Some {
            let r = (removed(m, id)->0).0;
            assert(with_id(m, n) <= 1);
            assert forall|k: int| #[trigger] with_id(r, k) == if k == n {
                0
            } else {
                with_id(m, k)
            } by {
                match file_with(m.line_bps, n, 0) {
                    Some(i) => {
                        lemma_file_set(
                            m.line_bps,
                            i,
                            FileModel {
                                path: m.line_bps[i].path,
                                bps: lines_without(m.line_bps[i].bps, n),
                            },
                            k,
                        );
                        lemma_lines_dropped(m.line_bps[i].bps, n, k);
                        if k == n {
                            lemma_one_file(m.line_bps, i, n);
                        }
                    },
                    None => {
                        lemma_fns_dropped(m.fn_bps, n, k);
                        lemma_datas_dropped(m.data_bps, n, k);
                    },
                }
            }
            lemma_one_taken(m, r, id, n);
            assert forall|k: int| #[trigger] with_id(r, k) <= 1 by {
                assert(with_id(m, k) <= 1);
            }
            assert(with_id(r, n) == 0);
            lemma_has_file(r.line_bps, n);
            lemma_has_fn(r.fn_bps, n);
            lemma_has_data(r.data_bps, n);
            lemma_with_id_nonneg(r, n);
            if told_apart(m) {
                assert forall|k: int| 0 <= #[trigger] with_id(r, k) <= 1 && (with_id(r, k) > 0
                    ==> 1 <= k <= r.bp_id) by {
                    assert(0 <= with_id(m, k) <= 1);
                }
            }
        }
    }
}

/// What removing a breakpoint takes out of the lists.
proof fn lemma_one_taken(m: SessionModel, r: SessionModel, id: Seq<char>, n: int)
    requires
        numbers_differ(m),
        id != "panic"@,
        i64_value(id) == Some(n),
        removed(m, id) matches Some((x, _)) && x == r,
    ensures
        one_taken(m, r, n),
        bp_count(r, false) == bp_count(m, false) - 1,
{
    lemma_has_file(m.line_bps, n);
    lemma_has_fn(m.fn_bps, n);
    lemma_has_data(m.data_bps, n);
    lemma_with_id_nonneg(m, n);
    assert(with_id(m, n) <= 1);
    match file_with(m.line_bps, n, 0) {
        Some(i) => {
            let bps = m.line_bps[i].bps;
            lemma_has_line(bps, n);
            lemma_one_file(m.line_bps, i, n);
            let k = line_place(bps, n, 0)->0;
            lemma_line_taken(bps, n, k);
            assert(r == line_taken(m, i, k));
            lemma_file_counted(
                m.line_bps,
                i,
                FileModel { path: m.line_bps[i].path, bps: bps.remove(k) },
            );
        },
        None => match fn_place(m.fn_bps, n, 0) {
            Some(k) => {
                lemma_fn_taken(m.fn_bps, n, k);
                assert(m.fn_bps[k].id == n);
                lemma_all_fns(m.fn_bps);
                lemma_all_fns(r.fn_bps);
            },
            None => {
                let k = data_place(m.data_bps, n, 0)->0;
                lemma_data_taken(m.data_bps, n, k);
                assert(m.data_bps[k].id == n);
                lemma_all_datas(m.data_bps);
                lemma_all_datas(r.data_bps);
            },
        },
    }
}

/// A file has no more breakpoints with a number than all files.
proof fn lemma_one_file(fs: Seq<FileModel>, i: int, id: int)
    requires
        0 <= i < fs.len(),
    ensures
        lines_with(fs[i].bps, id) <= files_with(fs, id),
    decreases fs.len(),
{
    lemma_files_nonneg(fs.drop_last(), id);
    lemma_lines_nonneg(fs.last().bps, id);
    if i < fs.len() - 1 {
        lemma_one_file(fs.drop_last(), i, id);
        assert(fs.drop_last()[i] == fs[i]);
    }
}

/// The breakpoint of a number is switched exactly where there is one, and all
/// keep their numbers.
pub proof fn a_switched_breakpoint_keeps_its_number(m: SessionModel, id: Seq<char>, on: bool)
    requires
        told_apart(m),
        id != "panic"@,
        i64_value(id) is Some,
    ensures
        switched(m, id, on) is Some <==> with_id(m, i64_value(id)->0) > 0,
        switched(m, id, on) matches Some((r, _)) ==> told_apart(r) && forall|k: int|
            #[trigger] with_id(r, k) == with_id(m, k),
{
    let n = i64_value(id)->0;
    let len = m.line_bps.len() as int;
    assert(m.line_bps.take(len) =~= m.line_bps);
    lemma_last_file(m.line_bps, n, len);
    lemma_has_fn(m.fn_bps, n);
    lemma_has_data(m.data_bps, n);
    lemma_with_id_nonneg(m, n);
    if switched(m, id, on) is Some {
        let r = (switched(m, id, on)->0).0;
        assert forall|k: int| #[trigger] with_id(r, k) == with_id(m, k) by {
            if last_file_with(m.line_bps, n, len) is Some {
                assert forall|j: int| 0 <= j < r.line_bps.len() implies lines_with(
                    (#[trigger] r.line_bps[j]).bps,
                    k,
                ) == lines_with(m.line_bps[j].bps, k) by {
                    lemma_has_line(m.line_bps[j].bps, n);
                    lemma_lines_alike(r.line_bps[j].bps, m.line_bps[j].bps, k);
                }
                lemma_files_alike(r.line_bps, m.line_bps, k);
            } else {
                lemma_fns_alike(r.fn_bps, m.fn_bps, k);
                lemma_datas_alike(r.data_bps, m.data_bps, k);
            }
        }
        assert forall|k: int| 0 <= #[trigger] with_id(r, k) <= 1 && (with_id(r, k) > 0 ==> 1 <= k
            <= r.bp_id) by {
            assert(0 <= with_id(m, k) <= 1);
        }
    }
}

proof fn lemma_hits_alike(m: SessionModel, stop: StopModel, id: int)
    ensures
        with_id(hit_counted(m, stop), id) == with_id(m, id),
{
    let r = hit_counted(m, stop);
    assert forall|j: int| 0 <= j < r.line_bps.len() implies lines_with(
        (#[trigger] r.line_bps[j]).bps,
        id,
    ) == lines_with(m.line_bps[j].bps, id) by {
        lemma_lines_alike(r.line_bps[j].bps, m.line_bps[j].bps, id);
    }
    lemma_files_alike(r.line_bps, m.line_bps, id);
    lemma_fns_alike(r.fn_bps, m.fn_bps, id);
}

proof fn lemma_replies_alike(m: SessionModel, reply: Doc, id: int)
    ensures
        with_id(fns_replied(m, reply), id) == with_id(m, id),
{
    lemma_fns_alike(fns_replied(m, reply).fn_bps, m.fn_bps, id);
}

/// However the program runs, its breakpoints on lines and functions stay as
/// they are told apart; a restart alone lets go of those on data.
pub proof fn running_keeps_breakpoints(t: TaskModel, m: SessionModel, input: InputModel, id: int)
    requires
        0 <= t.at,
    ensures
        ({
            let r = stepped(t, m, input).1;
            &&& r.bp_id == m.bp_id
            &&& r.panic == m.panic
            &&& files_with(r.line_bps, id) == files_with(m.line_bps, id)
            &&& fns_with(r.fn_bps, id) == fns_with(m.fn_bps, id)
            &&& r.data_bps == m.data_bps || (r.data_bps.len() == 0 && t.at < t.plan.len()
                && t.plan[t.at] == PhaseModel::Reset)
        }),
{
    let r = stepped(t, m, input).1;
    if t.at < t.plan.len() {
        match (t.plan[t.at], input) {
            (PhaseModel::Frames, InputModel::Reply(reply)) => {
                let stop = crate::run::stop_from(m, t.reason, crate::dap::soft_reply(reply));
                lemma_hits_alike(m, stop, id);
                let h = hit_counted(m, stop);
                assert forall|j: int| 0 <= j < h.line_bps.len() implies lines_with(
                    (#[trigger] h.line_bps[j]).bps,
                    id,
                ) == lines_with(m.line_bps[j].bps, id) by {
                    lemma_lines_alike(h.line_bps[j].bps, m.line_bps[j].bps, id);
                }
                lemma_files_alike(h.line_bps, m.line_bps, id);
                lemma_fns_alike(h.fn_bps, m.fn_bps, id);
            },
            (PhaseModel::SyncFns, InputModel::Reply(reply)) => {
                lemma_replies_alike(m, crate::dap::soft_reply(reply), id);
            },
            _ => {},
        }
    }
}

/// Switching a breakpoint on after it was switched off, or on, leaves all as
/// switching it on at once does.
pub proof fn switching_off_is_undone_by_switching_on(m: SessionModel, id: Seq<char>, on: bool)
    requires
        switched(m, id, on) is Some,
    ensures
        switched((switched(m, id, on)->0).0, id, true) == switched(m, id, true),
{
    if id != "panic"@ {
        let n = i64_value(id)->0;
        let r = (switched(m, id, on)->0).0;
        let len = m.line_bps.len() as int;
        let a = (switched(m, id, true)->0).0;
        if last_file_with(m.line_bps, n, len) is Some {
            assert forall|j: int| 0 <= j < len implies line_place(
                (#[trigger] r.line_bps[j]).bps,
                n,
                0,
            ) == line_place(m.line_bps[j].bps, n, 0) by {
                lemma_has_line(m.line_bps[j].bps, n);
                lemma_same_place(r.line_bps[j].bps, m.line_bps[j].bps, n, 0);
            }
            lemma_same_last_file(r.line_bps, m.line_bps, n, len);
            lemma_last_file(m.line_bps, n, len);
            let b = (switched(r, id, true)->0).0;
            assert forall|j: int| 0 <= j < len implies b.line_bps[j] == a.line_bps[j] by {
                lemma_has_line(m.line_bps[j].bps, n);
                assert(line_place(r.line_bps[j].bps, n, 0) == line_place(
                    m.line_bps[j].bps,
                    n,
                    0,
                ));
                assert(b.line_bps[j].bps =~= a.line_bps[j].bps);
            }
            assert(b.line_bps =~= a.line_bps);
        } else {
            lemma_has_fn(m.fn_bps, n);
            lemma_has_data(m.data_bps, n);
            if fn_place(m.fn_bps, n, 0) is Some {
                lemma_same_fn_place(r.fn_bps, m.fn_bps, n, 0);
                let b = (switched(r, id, true)->0).0;
                assert(b.fn_bps =~= a.fn_bps);
            } else {
                lemma_same_data_place(r.data_bps, m.data_bps, n, 0);
                let b = (switched(r, id, true)->0).0;
                assert(b.data_bps =~= a.data_bps);
            }
        }
    }
}

proof fn lemma_same_place(a: Seq<LineBpModel>, b: Seq<LineBpModel>, id: int, i: int)
    requires
        a.len() == b.len(),
        forall|k: int| 0 <= k < a.len() ==> (#[trigger] a[k]).id == b[k].id,
    ensures
        line_place(a, id, i) == line_place(b, id, i),
    decreases a.len() - i,
{
    if 0 <= i < a.len() {
        lemma_same_place(a, b, id, i + 1);
        assert(a[i].id == b[i].id);
    }
}

proof fn lemma_same_last_file(a: Seq<FileModel>, b: Seq<FileModel>, id: int, i: int)
    requires
        a.len() == b.len(),
        forall|k: int|
            0 <= k < a.len() ==> line_place((#[trigger] a[k]).bps, id, 0) == line_place(
                b[k].bps,
                id,
                0,
            ),
    ensures
        last_file_with(a, id, i) == last_file_with(b, id, i),
    decreases i,
{
    if 0 < i <= a.len() {
        lemma_same_last_file(a, b, id, i - 1);
        assert(line_place(a[i - 1].bps, id, 0) == line_place(b[i - 1].bps, id, 0));
    }
}

proof fn lemma_same_fn_place(a: Seq<FnBpModel>, b: Seq<FnBpModel>, id: int, i: int)
    requires
        a.len() == b.len(),
        forall|k: int| 0 <= k < a.len() ==> (#[trigger] a[k]).id == b[k].id,
    ensures
        fn_place(a, id, i) == fn_place(b, id, i),
    decreases a.len() - i,
{
    if 0 <= i < a.len() {
        lemma_same_fn_place(a, b, id, i + 1);
        assert(a[i].id == b[i].id);
    }
}

proof fn lemma_same_data_place(a: Seq<DataBpModel>, b: Seq<DataBpModel>, id: int, i: int)
    requires
        a.len() == b.len(),
        forall|k: int| 0 <= k < a.len() ==> (#[trigger] a[k]).id == b[k].id,
    ensures
        data_place(a, id, i) == data_place(b, id, i),
    decreases a.len() - i,
{
    if 0 <= i < a.len() {
        lemma_same_data_place(a, b, id, i + 1);
        assert(a[i].id == b[i].id);
    }
}

proof fn lemma_counted_line(bps: Seq<LineBpModel>, id: int, k: int)
    requires
        0 <= k < bps.len(),
        bps[k].id == id,
    ensures
        lines_with(bps, id) >= 1,
        lines_with(bps, id) <= 1 ==> line_place(bps, id, 0) == Some(k),
    decreases bps.len(),
{
    lemma_has_line(bps, id);
    lemma_lines_nonneg(bps.drop_last(), id);
    if k < bps.len() - 1 {
        lemma_counted_line(bps.drop_last(), id, k);
    }
    let j = line_place(bps, id, 0)->0;
    if j < k && k == bps.len() - 1 {
        lemma_counted_line(bps.drop_last(), id, j);
    } else if j != k {
        if j < bps.len() - 1 {
            lemma_place_stays(bps, id, 0, j);
        }
    }
}

proof fn lemma_place_stays(bps: Seq<LineBpModel>, id: int, i: int, j: int)
    requires
        0 <= i <= j < bps.len() - 1,
        line_place(bps, id, i) == Some(j),
    ensures
        line_place(bps.drop_last(), id, i) == Some(j),
    decreases j - i,
{
    if bps[i].id != id {
        lemma_found_behind(bps, id, i + 1);
        lemma_place_stays(bps, id, i + 1, j);
    }
}

proof fn lemma_found_behind(bps: Seq<LineBpModel>, id: int, i: int)
    requires
        0 <= i <= bps.len(),
    ensures
        line_place(bps, id, i) matches Some(k) ==> i <= k < bps.len() && bps[k].id == id,
    decreases bps.len() - i,
{
    if i < bps.len() && bps[i].id != id {
        lemma_found_behind(bps, id, i + 1);
    }
}

proof fn lemma_counted_fn(bps: Seq<FnBpModel>, id: int, j: int, k: int)
    requires
        0 <= j <= k < bps.len(),
        bps[j].id == id,
        bps[k].id == id,
    ensures
        fns_with(bps, id) >= 1,
        fns_with(bps, id) <= 1 ==> j == k,
    decreases bps.len(),
{
    lemma_fns_nonneg(bps.drop_last(), id);
    if k < bps.len() - 1 {
        lemma_counted_fn(bps.drop_last(), id, j, k);
    } else if j < k {
        lemma_counted_fn(bps.drop_last(), id, j, j);
    }
}

proof fn lemma_counted_data(bps: Seq<DataBpModel>, id: int, j: int, k: int)
    requires
        0 <= j <= k < bps.len(),
        bps[j].id == id,
        bps[k].id == id,
    ensures
        datas_with(bps, id) >= 1,
        datas_with(bps, id) <= 1 ==> j == k,
    decreases bps.len(),
{
    lemma_datas_nonneg(bps.drop_last(), id);
    if k < bps.len() - 1 {
        lemma_counted_data(bps.drop_last(), id, j, k);
    } else if j < k {
        lemma_counted_data(bps.drop_last(), id, j, j);
    }
}

proof fn lemma_last_file_has(fs: Seq<FileModel>, id: int, i: int, f: int)
    requires
        0 <= f < i <= fs.len(),
        line_place(fs[f].bps, id, 0) is Some,
        forall|g: int| 0 <= g < i && g != f ==> line_place((#[trigger] fs[g]).bps, id, 0) is None,
    ensures
        last_file_with(fs, id, i) == Some(f),
    decreases i,
{
    if f < i - 1 {
        assert(line_place(fs[i - 1].bps, id, 0) is None);
        lemma_last_file_has(fs, id, i - 1, f);
    }
}

proof fn lemma_two_files(fs: Seq<FileModel>, id: int, f: int, g: int)
    requires
        0 <= f < fs.len(),
        0 <= g < fs.len(),
        f != g,
        lines_with(fs[f].bps, id) >= 1,
        lines_with(fs[g].bps, id) >= 1,
    ensures
        files_with(fs, id) >= 2,
    decreases fs.len(),
{
    let rest = fs.drop_last();
    let n = fs.len() - 1;
    lemma_lines_nonneg(fs[n].bps, id);
    if f == n {
        lemma_one_file(rest, g, id);
    } else if g == n {
        lemma_one_file(rest, f, id);
    } else {
        lemma_two_files(rest, id, f, g);
    }
}

/// Switching a breakpoint sets whether that one is switched on and changes
/// nothing else, of it or of any other; and the adapter is to be told of the
/// list that it stands in, for a line that of its file.
pub proof fn switching_changes_the_one_breakpoint(
    m: SessionModel,
    id: Seq<char>,
    on: bool,
    f: int,
    k: int,
)
    requires
        numbers_differ(m),
        id != "panic"@,
        switched(m, id, on) is Some,
    ensures
        ({
            let n = i64_value(id)->0;
            let (r, what) = switched(m, id, on)->0;
            &&& r == (SessionModel {
                line_bps: r.line_bps,
                fn_bps: r.fn_bps,
                data_bps: r.data_bps,
                ..m
            })
            &&& r.line_bps.len() == m.line_bps.len() && r.fn_bps.len() == m.fn_bps.len()
                && r.data_bps.len() == m.data_bps.len()
            &&& 0 <= f < m.line_bps.len() && 0 <= k < m.line_bps[f].bps.len() ==> {
                let b = m.line_bps[f].bps[k];
                &&& r.line_bps[f].path == m.line_bps[f].path
                &&& r.line_bps[f].bps.len() == m.line_bps[f].bps.len()
                &&& r.line_bps[f].bps[k] == if b.id == n {
                    LineBpModel { enabled: on, ..b }
                } else {
                    b
                }
                &&& b.id == n ==> what == SyncModel::Line(m.line_bps[f].path)
            }
            &&& 0 <= k < m.fn_bps.len() ==> {
                let b = m.fn_bps[k];
                &&& r.fn_bps[k] == if b.id == n {
                    FnBpModel { enabled: on, ..b }
                } else {
                    b
                }
                &&& b.id == n ==> what == SyncModel::Fns
            }
            &&& 0 <= k < m.data_bps.len() ==> {
                let b = m.data_bps[k];
                &&& r.data_bps[k] == if b.id == n {
                    DataBpModel { enabled: on, ..b }
                } else {
                    b
                }
                &&& b.id == n ==> what == SyncModel::Data
            }
        }),
{
    let n = i64_value(id)->0;
    let len = m.line_bps.len() as int;
    assert(with_id(m, n) <= 1);
    lemma_with_id_nonneg(m, n);
    assert(m.line_bps.take(len) =~= m.line_bps);
    lemma_last_file(m.line_bps, n, len);
    lemma_has_fn(m.fn_bps, n);
    lemma_has_data(m.data_bps, n);
    if 0 <= f < len && 0 <= k < m.line_bps[f].bps.len() {
        lemma_one_file(m.line_bps, f, n);
        lemma_has_line(m.line_bps[f].bps, n);
        if m.line_bps[f].bps[k].id == n {
            lemma_counted_line(m.line_bps[f].bps, n, k);
            assert forall|g: int| 0 <= g < len && g != f implies line_place(
                (#[trigger] m.line_bps[g]).bps,
                n,
                0,
            ) is None by {
                lemma_has_line(m.line_bps[g].bps, n);
                if lines_with(m.line_bps[g].bps, n) >= 1 {
                    lemma_two_files(m.line_bps, n, f, g);
                }
            }
            lemma_last_file_has(m.line_bps, n, len, f);
        }
    }
    if 0 <= k < m.fn_bps.len() && m.fn_bps[k].id == n {
        lemma_counted_fn(m.fn_bps, n, k, k);
        let j = fn_place(m.fn_bps, n, 0)->0;
        if j < k {
            lemma_counted_fn(m.fn_bps, n, j, k);
        } else {
            lemma_counted_fn(m.fn_bps, n, k, j);
        }
    }
    if 0 <= k < m.data_bps.len() && m.data_bps[k].id == n {
        lemma_counted_data(m.data_bps, n, k, k);
        let j = data_place(m.data_bps, n, 0)->0;
        if j < k {
            lemma_counted_data(m.data_bps, n, j, k);
        } else {
            lemma_counted_data(m.data_bps, n, k, j);
        }
    }
}

/// A breakpoint that is removed is taken out of the list that it stands in,
/// and of that list the adapter is to be told.
pub proof fn the_adapter_is_told_where_a_breakpoint_went(
    m: SessionModel,
    id: Seq<char>,
    f: int,
    k: int,
)
    requires
        numbers_differ(m),
        id != "panic"@,
        removed(m, id) is Some,
    ensures
        ({
            let n = i64_value(id)->0;
            let what = (removed(m, id)->0).1;
            &&& 0 <= f < m.line_bps.len() && 0 <= k < m.line_bps[f].bps.len()
                && m.line_bps[f].bps[k].id == n ==> what == SyncModel::Line(m.line_bps[f].path)
            &&& 0 <= k < m.fn_bps.len() && m.fn_bps[k].id == n ==> what == SyncModel::Fns
            &&& 0 <= k < m.data_bps.len() && m.data_bps[k].id == n ==> what == SyncModel::Data
        }),
{
    let n = i64_value(id)->0;
    assert(with_id(m, n) <= 1);
    lemma_with_id_nonneg(m, n);
    lemma_has_file(m.line_bps, n);
    lemma_has_fn(m.fn_bps, n);
    lemma_has_data(m.data_bps, n);
    if 0 <= f < m.line_bps.len() && 0 <= k < m.line_bps[f].bps.len() && m.line_bps[f].bps[k].id
        == n {
        lemma_counted_line(m.line_bps[f].bps, n, k);
        lemma_one_file(m.line_bps, f, n);
        let g = file_with(m.line_bps, n, 0)->0;
        if f != g {
            lemma_two_files(m.line_bps, n, f, g);
        }
    }
    if 0 <= k < m.fn_bps.len() && m.fn_bps[k].id == n {
        lemma_counted_fn(m.fn_bps, n, k, k);
    }
    if 0 <= k < m.data_bps.len() && m.data_bps[k].id == n {
        lemma_counted_data(m.data_bps, n, k, k);
    }
}

/// The breakpoint that catches panics goes by its name: it is set, switched and
/// removed under it, and no other is touched.
pub proof fn panics_are_caught_under_their_name(m: SessionModel, on: bool)
    ensures
        switched(m, "panic"@, on) == Some((SessionModel { panic: on, ..m }, SyncModel::Fns)),
        removed(m, "panic"@) == Some((SessionModel { panic: false, ..m }, SyncModel::Fns)),
{
}

} // verus!
