//! What the dashboard's operations keep, and what one of them undoes.
use vstd::prelude::*;

use vstd::multiset::Multiset;

use crate::dashboard::{set_hosts, swap_adjacent, DashModel, NavDirection, RowModel};
use crate::grid_layout::{row_name, MAX_HOSTS_PER_ROW};

verus! {

broadcast use vstd::seq_lib::group_to_multiset_ensures;

// ---------------------------------------------------------------------------
// The cursor stays on a place that exists
// ---------------------------------------------------------------------------

proof fn lemma_navigation_keeps_cursor<H>(m: DashModel<H>)
    requires
        m.wf(),
    ensures
        m.moved_up().wf(),
        m.moved_down().wf(),
        m.moved_left().wf(),
        m.moved_right().wf(),
        m.toggled_hidden().wf(),
{
}

proof fn lemma_modes_keep_cursor<H>(m: DashModel<H>)
    requires
        m.wf(),
    ensures
        m.with_move_mode().wf(),
        m.with_rename_mode().wf(),
        m.renamed().wf(),
        m.rename_cancelled().wf(),
        m.focused_on_selection().wf(),
        m.unfocused().wf(),
        m.shake_ticked().wf(),
{
}

proof fn lemma_hiding_keeps_cursor<H>(m: DashModel<H>)
    requires
        m.wf(),
    ensures
        m.host_hidden().0.wf(),
{
}

proof fn lemma_moving_keeps_cursor<H>(m: DashModel<H>, dir: NavDirection)
    requires
        m.wf(),
        m.can_move_host(dir),
    ensures
        m.host_moved(dir).0.wf(),
{
}

proof fn lemma_cancelling_keeps_cursor<H>(m: DashModel<H>)
    requires
        m.wf(),
    ensures
        m.move_cancelled().wf(),
{
}

/// Every operation of the dashboard keeps the cursor on a place that
/// exists: a row of the grid and a host of it (or column 0 of an empty
/// row), or, in the hidden section while it is shown, a hidden host.
pub proof fn lemma_cursor_stays_valid<H>(m: DashModel<H>, dir: NavDirection)
    requires
        m.wf(),
    ensures
        m.moved_up().wf(),
        m.moved_down().wf(),
        m.moved_left().wf(),
        m.moved_right().wf(),
        m.toggled_hidden().wf(),
        m.with_move_mode().wf(),
        m.with_rename_mode().wf(),
        m.renamed().wf(),
        m.rename_cancelled().wf(),
        m.focused_on_selection().wf(),
        m.unfocused().wf(),
        m.shake_ticked().wf(),
        m.host_hidden().0.wf(),
        m.can_move_host(dir) ==> m.host_moved(dir).0.wf(),
        m.move_cancelled().wf(),
{
    lemma_navigation_keeps_cursor(m);
    lemma_modes_keep_cursor(m);
    lemma_hiding_keeps_cursor(m);
    if m.can_move_host(dir) {
        lemma_moving_keeps_cursor(m, dir);
    }
    lemma_cancelling_keeps_cursor(m);
}

// ---------------------------------------------------------------------------
// No host is lost or duplicated
// ---------------------------------------------------------------------------

/// The hosts of the rows `rows`, counted with multiplicity.
pub open spec fn hosts_in<H>(rows: Seq<RowModel<H>>) -> Multiset<H>
    decreases rows.len(),
{
    if rows.len() == 0 {
        Multiset::empty()
    } else {
        hosts_in(rows.drop_last()).add(rows.last().hosts.to_multiset())
    }
}

/// Every host a dashboard holds, in its rows or hidden, with multiplicity.
pub open spec fn held<H>(m: DashModel<H>) -> Multiset<H> {
    hosts_in(m.rows).add(m.hidden.to_multiset())
}

proof fn lemma_hosts_in_update<H>(rows: Seq<RowModel<H>>, i: int, x: RowModel<H>)
    requires
        0 <= i < rows.len(),
    ensures
        hosts_in(rows.update(i, x)).add(rows[i].hosts.to_multiset()) =~= hosts_in(rows).add(
            x.hosts.to_multiset(),
        ),
    decreases rows.len(),
{
    broadcast use vstd::multiset::group_multiset_axioms;

    let u = rows.update(i, x);
    let rd = rows.drop_last();
    if i == rows.len() - 1 {
        assert(u.drop_last() =~= rd);
        assert(u.last() == x);
        assert(hosts_in(u) == hosts_in(rd).add(x.hosts.to_multiset()));
        assert(hosts_in(rows) == hosts_in(rd).add(rows[i].hosts.to_multiset()));
    } else {
        assert(u.drop_last() =~= rd.update(i, x));
        assert(u.last() == rows.last());
        assert(rd[i] == rows[i]);
        lemma_hosts_in_update(rd, i, x);
        assert(hosts_in(u) == hosts_in(rd.update(i, x)).add(rows.last().hosts.to_multiset()));
        assert(hosts_in(rows) == hosts_in(rd).add(rows.last().hosts.to_multiset()));
    }
    let lhs = hosts_in(u).add(rows[i].hosts.to_multiset());
    let rhs = hosts_in(rows).add(x.hosts.to_multiset());
    assert forall|v: H| #[trigger] lhs.count(v) == rhs.count(v) by {
        if i < rows.len() - 1 {
            let a = hosts_in(rd.update(i, x));
            assert(a.add(rows[i].hosts.to_multiset()).count(v) == hosts_in(rd).add(
                x.hosts.to_multiset(),
            ).count(v));
            assert(hosts_in(u).count(v) == a.count(v) + rows.last().hosts.to_multiset().count(v));
            assert(hosts_in(rows).count(v) == hosts_in(rd).count(v) + rows.last().hosts.to_multiset().count(
                v,
            ));
        } else {
            assert(hosts_in(u).count(v) == hosts_in(rd).count(v) + x.hosts.to_multiset().count(v));
            assert(hosts_in(rows).count(v) == hosts_in(rd).count(v) + rows[i].hosts.to_multiset().count(v));
        }
    }
    assert(lhs =~= rhs);
}

proof fn lemma_hosts_in_push<H>(rows: Seq<RowModel<H>>, x: RowModel<H>)
    ensures
        hosts_in(rows.push(x)) =~= hosts_in(rows).add(x.hosts.to_multiset()),
{
    assert(rows.push(x).drop_last() =~= rows);
}

proof fn lemma_hosts_in_remove<H>(rows: Seq<RowModel<H>>, i: int)
    requires
        0 <= i < rows.len(),
    ensures
        hosts_in(rows.remove(i)).add(rows[i].hosts.to_multiset()) =~= hosts_in(rows),
    decreases rows.len(),
{
    broadcast use vstd::multiset::group_multiset_axioms;

    if i == rows.len() - 1 {
        assert(rows.remove(i) =~= rows.drop_last());
    } else {
        assert(rows.remove(i).drop_last() =~= rows.drop_last().remove(i));
        assert(rows.remove(i).last() == rows.last());
        lemma_hosts_in_remove(rows.drop_last(), i);
    }
}

proof fn lemma_hosts_in_insert<H>(rows: Seq<RowModel<H>>, i: int, x: RowModel<H>)
    requires
        0 <= i <= rows.len(),
    ensures
        hosts_in(rows.insert(i, x)) =~= hosts_in(rows).add(x.hosts.to_multiset()),
    decreases rows.len(),
{
    broadcast use vstd::multiset::group_multiset_axioms;

    if i == rows.len() {
        assert(rows.insert(i, x) =~= rows.push(x));
        lemma_hosts_in_push(rows, x);
    } else {
        assert(rows.insert(i, x).drop_last() =~= rows.drop_last().insert(i, x));
        assert(rows.insert(i, x).last() == rows.last());
        lemma_hosts_in_insert(rows.drop_last(), i, x);
    }
}

proof fn lemma_swap_adjacent_multiset<A>(s: Seq<A>, i: int)
    requires
        0 <= i < i + 1 < s.len(),
    ensures
        swap_adjacent(s, i).to_multiset() =~= s.to_multiset(),
{
    broadcast use vstd::multiset::group_multiset_axioms;

    let s1 = s.update(i, s[i + 1]);
    assert(s1.to_multiset() == s.to_multiset().insert(s[i + 1]).remove(s[i]));
    assert(s1[i + 1] == s[i + 1]);
    assert(s1.update(i + 1, s[i]).to_multiset() == s1.to_multiset().insert(s[i]).remove(s1[i + 1]));
}

/// Taking the host at `c` out of row `r` removes one occurrence of it.
proof fn lemma_take_put<H>(rows: Seq<RowModel<H>>, r: int, c: int)
    requires
        0 <= r < rows.len(),
        0 <= c < rows[r].hosts.len(),
    ensures
        hosts_in(set_hosts(rows, r, rows[r].hosts.remove(c))).insert(rows[r].hosts[c]) =~= hosts_in(rows),
{
    broadcast use vstd::multiset::group_multiset_axioms;

    let h = rows[r].hosts[c];
    let src = rows[r].hosts.remove(c);
    let u = set_hosts(rows, r, src);
    lemma_hosts_in_update(rows, r, RowModel { name: rows[r].name, hosts: src });
    assert(src.to_multiset() == rows[r].hosts.to_multiset().remove(h));
    assert(rows[r].hosts.to_multiset().count(h) > 0) by {
        assert(rows[r].hosts.contains(h));
    }
    assert forall|v: H| #[trigger] hosts_in(u).insert(h).count(v) == hosts_in(rows).count(v) by {
        assert(hosts_in(u).add(rows[r].hosts.to_multiset()).count(v) == hosts_in(rows).add(
            src.to_multiset(),
        ).count(v));
    }
}

/// Putting `h` into row `t` (its hosts becoming `hosts`) adds one occurrence.
proof fn lemma_put<H>(rows: Seq<RowModel<H>>, t: int, hosts: Seq<H>, h: H)
    requires
        0 <= t < rows.len(),
        hosts.to_multiset() =~= rows[t].hosts.to_multiset().insert(h),
    ensures
        hosts_in(set_hosts(rows, t, hosts)) =~= hosts_in(rows).insert(h),
{
    broadcast use vstd::multiset::group_multiset_axioms;

    let u = set_hosts(rows, t, hosts);
    lemma_hosts_in_update(rows, t, RowModel { name: rows[t].name, hosts });
    assert forall|v: H| #[trigger] hosts_in(u).count(v) == hosts_in(rows).insert(h).count(v) by {
        assert(hosts_in(u).add(rows[t].hosts.to_multiset()).count(v) == hosts_in(rows).add(
            hosts.to_multiset(),
        ).count(v));
    }
}

/// Replacing the hosts of a row by the same hosts in another order keeps
/// the hosts of the rows.
proof fn lemma_hosts_in_reorder<H>(rows: Seq<RowModel<H>>, i: int, hosts: Seq<H>)
    requires
        0 <= i < rows.len(),
        hosts.to_multiset() =~= rows[i].hosts.to_multiset(),
    ensures
        hosts_in(set_hosts(rows, i, hosts)) =~= hosts_in(rows),
{
    broadcast use vstd::multiset::group_multiset_axioms;

    let u = set_hosts(rows, i, hosts);
    lemma_hosts_in_update(rows, i, RowModel { name: rows[i].name, hosts });
    assert forall|v: H| #[trigger] hosts_in(u).count(v) == hosts_in(rows).count(v) by {
        assert(hosts_in(u).add(rows[i].hosts.to_multiset()).count(v) == hosts_in(rows).add(
            hosts.to_multiset(),
        ).count(v));
    }
}

/// Removing a row without hosts keeps the hosts of the rows.
proof fn lemma_hosts_in_remove_empty<H>(rows: Seq<RowModel<H>>, i: int)
    requires
        0 <= i < rows.len(),
        rows[i].hosts.len() == 0,
    ensures
        hosts_in(rows.remove(i)) =~= hosts_in(rows),
{
    broadcast use vstd::multiset::group_multiset_axioms;

    lemma_hosts_in_remove(rows, i);
    assert(rows[i].hosts.to_multiset() =~= Multiset::empty());
    assert forall|v: H| #[trigger] hosts_in(rows.remove(i)).count(v) == hosts_in(rows).count(v) by {
        assert(hosts_in(rows.remove(i)).add(rows[i].hosts.to_multiset()).count(v) == hosts_in(
            rows,
        ).count(v));
    }
}

proof fn lemma_moving_sideways_conserves<H>(m: DashModel<H>, dir: NavDirection)
    requires
        m.wf(),
        m.can_move_host(dir),
        m.move_mode,
        dir == NavDirection::Left || dir == NavDirection::Right,
    ensures
        held(m.host_moved(dir).0) == held(m),
{
    let r = m.selected_row as int;
    let c = m.selected_col as int;
    if dir == NavDirection::Right && c + 1 < m.rows[r].hosts.len() {
        lemma_swap_adjacent_multiset(m.rows[r].hosts, c);
        lemma_hosts_in_reorder(m.rows, r, swap_adjacent(m.rows[r].hosts, c));
    } else if dir == NavDirection::Left && c != 0 {
        lemma_swap_adjacent_multiset(m.rows[r].hosts, c - 1);
        lemma_hosts_in_reorder(m.rows, r, swap_adjacent(m.rows[r].hosts, c - 1));
    }
}

proof fn lemma_moving_down_conserves<H>(m: DashModel<H>)
    requires
        m.wf(),
        m.can_move_host(NavDirection::Down),
        m.move_mode,
    ensures
        held(m.host_moved(NavDirection::Down).0) == held(m),
{
    let r = m.selected_row as int;
    let c = m.selected_col as int;
    let n = r + 1;
    if !(n < m.rows.len() && m.rows[n].hosts.len() >= MAX_HOSTS_PER_ROW) {
        let host = m.rows[r].hosts[c];
        let src = m.rows[r].hosts.remove(c);
        let rows0 = set_hosts(m.rows, r, src);
        lemma_take_put(m.rows, r, c);
        if n < m.rows.len() {
            let rows1 = set_hosts(rows0, n, m.rows[n].hosts.insert(0, host));
            lemma_put(rows0, n, m.rows[n].hosts.insert(0, host), host);
            assert(hosts_in(rows1) == hosts_in(m.rows));
            if src.len() == 0 {
                lemma_hosts_in_remove_empty(rows1, r);
            }
        } else {
            let new_row = RowModel { name: row_name(m.rows.len() + 1), hosts: seq![host] };
            let rows1 = rows0.push(new_row);
            lemma_hosts_in_push(rows0, new_row);
            assert(seq![host] =~= Seq::<H>::empty().push(host));
            assert(hosts_in(rows1) =~= hosts_in(m.rows));
            if src.len() == 0 {
                lemma_hosts_in_remove_empty(rows1, r);
            }
        }
    }
}

proof fn lemma_moving_up_conserves<H>(m: DashModel<H>)
    requires
        m.wf(),
        m.can_move_host(NavDirection::Up),
        m.move_mode,
    ensures
        held(m.host_moved(NavDirection::Up).0) == held(m),
{
    let r = m.selected_row as int;
    let c = m.selected_col as int;
    if r != 0 && m.rows[r - 1].hosts.len() < MAX_HOSTS_PER_ROW {
        let p = r - 1;
        let host = m.rows[r].hosts[c];
        let src = m.rows[r].hosts.remove(c);
        let rows0 = set_hosts(m.rows, r, src);
        lemma_take_put(m.rows, r, c);
        let rows1 = set_hosts(rows0, p, m.rows[p].hosts.push(host));
        lemma_put(rows0, p, m.rows[p].hosts.push(host), host);
        assert(hosts_in(rows1) == hosts_in(m.rows));
        if src.len() == 0 {
            lemma_hosts_in_remove_empty(rows1, r);
        }
    }
}

proof fn lemma_moving_conserves<H>(m: DashModel<H>, dir: NavDirection)
    requires
        m.wf(),
        m.can_move_host(dir),
    ensures
        held(m.host_moved(dir).0) == held(m),
{
    if m.move_mode {
        match dir {
            NavDirection::Down => lemma_moving_down_conserves(m),
            NavDirection::Up => lemma_moving_up_conserves(m),
            _ => lemma_moving_sideways_conserves(m, dir),
        }
    }
}

proof fn lemma_hiding_conserves<H>(m: DashModel<H>)
    requires
        m.wf(),
    ensures
        held(m.host_hidden().0) == held(m),
{
    broadcast use vstd::multiset::group_multiset_axioms;

    let m2 = m.host_hidden().0;
    if m.in_hidden_section {
        let i = m.hidden_selected as int;
        if i < m.hidden.len() {
            let host = m.hidden[i];
            assert(m.hidden.remove(i).to_multiset() == m.hidden.to_multiset().remove(host));
            assert(m.hidden.to_multiset().count(host) > 0) by {
                assert(m.hidden.contains(host));
            }
            assert(seq![host] =~= Seq::<H>::empty().push(host));
            // the grid gains the host
            if m.rows.len() == 0 {
                let row = RowModel { name: row_name(1), hosts: seq![host] };
                lemma_hosts_in_push(m.rows, row);
                assert(m.rows.push(row) =~= seq![row]);
            } else {
                let last = m.rows.len() - 1;
                if m.rows[last].hosts.len() >= MAX_HOSTS_PER_ROW {
                    lemma_hosts_in_push(
                        m.rows,
                        RowModel { name: row_name(m.rows.len() + 1), hosts: seq![host] },
                    );
                } else {
                    lemma_put(m.rows, last, m.rows[last].hosts.push(host), host);
                }
            }
            assert(hosts_in(m2.rows) =~= hosts_in(m.rows).insert(host));
            assert forall|v: H| #[trigger] held(m2).count(v) == held(m).count(v) by {}
            assert(held(m2) =~= held(m));
        }
    } else {
        let r = m.selected_row as int;
        let c = m.selected_col as int;
        if r < m.rows.len() && c < m.rows[r].hosts.len() {
            let host = m.rows[r].hosts[c];
            let src = m.rows[r].hosts.remove(c);
            lemma_take_put(m.rows, r, c);
            if src.len() == 0 {
                lemma_hosts_in_remove_empty(set_hosts(m.rows, r, src), r);
                assert(set_hosts(m.rows, r, src).remove(r) =~= m.rows.remove(r));
            }
            assert(hosts_in(m2.rows).insert(host) =~= hosts_in(m.rows));
            assert forall|v: H| #[trigger] held(m2).count(v) == held(m).count(v) by {}
            assert(held(m2) =~= held(m));
        }
    }
}

proof fn lemma_restoring_conserves<H>(m: DashModel<H>, orig_row: usize, orig_col: usize)
    requires
        m.wf(),
    ensures
        held(m.restored(orig_row, orig_col)) == held(m),
{
    broadcast use vstd::multiset::group_multiset_axioms;

    let r = m.selected_row as int;
    let c = m.selected_col as int;
    if r < m.rows.len() && c < m.rows[r].hosts.len() {
        let host = m.rows[r].hosts[c];
        let src = m.rows[r].hosts.remove(c);
        let rows1 = set_hosts(m.rows, r, src);
        lemma_take_put(m.rows, r, c);
        assert(seq![host] =~= Seq::<H>::empty().push(host));
        let row_of = |k: nat| RowModel { name: row_name(k), hosts: seq![host] };
        let rows2 = if src.len() == 0 {
            rows1.remove(r)
        } else {
            rows1
        };
        if src.len() == 0 {
            lemma_hosts_in_remove_empty(rows1, r);
        }
        assert(hosts_in(rows2) == hosts_in(rows1));
        if src.len() == 0 && r == orig_row {
            let at = crate::dashboard::min(orig_row, rows2.len() as usize) as int;
            lemma_hosts_in_insert(rows2, at, row_of((orig_row + 1) as nat));
        } else {
            let target = if src.len() == 0 && orig_row > r {
                orig_row - 1
            } else {
                orig_row as int
            };
            if target < rows2.len() {
                let col = crate::dashboard::min(orig_col, rows2[target].hosts.len() as usize) as int;
                lemma_put(rows2, target, rows2[target].hosts.insert(col, host), host);
            } else {
                lemma_hosts_in_push(rows2, row_of((target + 1) as nat));
            }
        }
        assert(hosts_in(m.restored(orig_row, orig_col).rows) =~= hosts_in(m.rows));
    }
}

/// No operation of the dashboard loses or duplicates a host: the hosts it
/// holds, in its rows and hidden, stay the same (with multiplicity) when
/// the cursor moves, when a host is moved in move mode, hidden or shown
/// again, and when a move is cancelled.
pub proof fn lemma_hosts_conserved<H>(m: DashModel<H>, dir: NavDirection)
    requires
        m.wf(),
    ensures
        held(m.moved_up()) == held(m),
        held(m.moved_down()) == held(m),
        held(m.moved_left()) == held(m),
        held(m.moved_right()) == held(m),
        m.can_move_host(dir) ==> held(m.host_moved(dir).0) == held(m),
        held(m.host_hidden().0) == held(m),
        held(m.move_cancelled()) == held(m),
{
    if m.can_move_host(dir) {
        lemma_moving_conserves(m, dir);
    }
    lemma_hiding_conserves(m);
    match m.move_origin {
        Some((orig_row, orig_col)) => {
            let base = DashModel { move_origin: None, move_mode: false, ..m };
            lemma_restoring_conserves(base, orig_row, orig_col);
        },
        None => {},
    }
}

// ---------------------------------------------------------------------------
// What one move undoes
// ---------------------------------------------------------------------------

proof fn lemma_swap_twice<A>(s: Seq<A>, i: int)
    requires
        0 <= i < i + 1 < s.len(),
    ensures
        swap_adjacent(swap_adjacent(s, i), i) =~= s,
{
}

/// In move mode, a move to the right that succeeds is undone by a move to
/// the left, and a move to the left that succeeds by a move to the right:
/// the rows and the cursor are as they were.
pub proof fn lemma_sideways_moves_undo<H>(m: DashModel<H>)
    requires
        m.wf(),
        m.move_mode,
        m.selected_row < m.rows.len(),
        m.selected_col < usize::MAX,
    ensures
        m.host_moved(NavDirection::Right).1 ==> m.host_moved(NavDirection::Right).0.host_moved(
            NavDirection::Left,
        ) == (m, true),
        m.host_moved(NavDirection::Left).1 ==> m.host_moved(NavDirection::Left).0.host_moved(
            NavDirection::Right,
        ) == (m, true),
{
    let r = m.selected_row as int;
    let c = m.selected_col as int;
    if m.host_moved(NavDirection::Right).1 {
        let m1 = m.host_moved(NavDirection::Right).0;
        lemma_swap_twice(m.rows[r].hosts, c);
        assert(m1.rows[r].hosts =~= swap_adjacent(m.rows[r].hosts, c));
        assert(m1.host_moved(NavDirection::Left).0.rows =~= m.rows);
    }
    if m.host_moved(NavDirection::Left).1 {
        let m1 = m.host_moved(NavDirection::Left).0;
        lemma_swap_twice(m.rows[r].hosts, c - 1);
        assert(m1.rows[r].hosts =~= swap_adjacent(m.rows[r].hosts, c - 1));
        assert(m1.host_moved(NavDirection::Right).0.rows =~= m.rows);
    }
}

/// The rows of `m` could be held by a dashboard: their numbers fit in `usize`.
pub open spec fn fits<H>(m: DashModel<H>) -> bool {
    &&& m.rows.len() < usize::MAX
    &&& forall|i: int| 0 <= i < m.rows.len() ==> #[trigger] m.rows[i].hosts.len() < usize::MAX
}

/// `m` and `m2` have the same rows and cursor.
pub open spec fn same_arrangement<H>(m: DashModel<H>, m2: DashModel<H>) -> bool {
    &&& m2.rows == m.rows
    &&& m2.selected_row == m.selected_row
    &&& m2.selected_col == m.selected_col
}

/// `restored` when the host under the cursor is not alone in its row and
/// goes back to an existing row.
proof fn lemma_restored_keeping_row<H>(m: DashModel<H>, orig_row: usize, orig_col: usize)
    requires
        m.selected_row < m.rows.len(),
        m.selected_col < m.rows[m.selected_row as int].hosts.len(),
        m.rows[m.selected_row as int].hosts.len() >= 2,
        orig_row < m.rows.len(),
    ensures
        ({
            let r = m.selected_row as int;
            let host = m.rows[r].hosts[m.selected_col as int];
            let rows1 = set_hosts(m.rows, r, m.rows[r].hosts.remove(m.selected_col as int));
            let col = crate::dashboard::min(orig_col, rows1[orig_row as int].hosts.len() as usize);
            m.restored(orig_row, orig_col) == DashModel {
                rows: set_hosts(rows1, orig_row as int, rows1[orig_row as int].hosts.insert(col as int, host)),
                selected_row: orig_row,
                selected_col: col,
                ..m
            }
        }),
{
}

/// `restored` when the host under the cursor is alone in its row, which is
/// not the origin row and comes after it.
proof fn lemma_restored_dropping_row<H>(m: DashModel<H>, orig_row: usize, orig_col: usize)
    requires
        orig_row < m.selected_row < m.rows.len(),
        m.selected_col == 0,
        m.rows[m.selected_row as int].hosts.len() == 1,
    ensures
        ({
            let r = m.selected_row as int;
            let host = m.rows[r].hosts[0];
            let rows2 = m.rows.remove(r);
            let col = crate::dashboard::min(orig_col, rows2[orig_row as int].hosts.len() as usize);
            m.restored(orig_row, orig_col) == DashModel {
                rows: set_hosts(rows2, orig_row as int, rows2[orig_row as int].hosts.insert(col as int, host)),
                selected_row: orig_row,
                selected_col: col,
                ..m
            }
        }),
{
    let r = m.selected_row as int;
    let src = m.rows[r].hosts.remove(0);
    assert(set_hosts(m.rows, r, src).remove(r) =~= m.rows.remove(r));
}

/// Putting a row's host back where it was taken from gives the row back.
proof fn lemma_put_back_same<H>(rows: Seq<RowModel<H>>, r: int, hs: Seq<H>, c: int)
    requires
        0 <= r < rows.len(),
        0 <= c < rows[r].hosts.len(),
        hs =~= rows[r].hosts.remove(c),
    ensures
        set_hosts(set_hosts(rows, r, hs), r, hs.insert(c, rows[r].hosts[c])) =~= rows,
{
    assert(hs.insert(c, rows[r].hosts[c]) =~= rows[r].hosts);
}

/// What a cancelled move restores: the cursor on a host in a row that holds
/// another one, outside the hidden section, and no row without hosts; the
/// numbers of rows and hosts fit in `usize`, with room for one more row.
pub open spec fn pickable<H>(m: DashModel<H>) -> bool {
    &&& !m.in_hidden_section
    &&& m.selected_row < m.rows.len()
    &&& m.selected_col < m.rows[m.selected_row as int].hosts.len()
    &&& m.rows[m.selected_row as int].hosts.len() >= 2
    &&& forall|i: int| 0 <= i < m.rows.len() ==> #[trigger] m.rows[i].hosts.len() > 0
    &&& fits(m)
    &&& m.rows.len() + 1 < usize::MAX
}

/// The dashboard after the moves `dirs` of the picked host, in order.
pub open spec fn moves<H>(m: DashModel<H>, dirs: Seq<NavDirection>) -> DashModel<H>
    decreases dirs.len(),
{
    if dirs.len() == 0 {
        m
    } else {
        moves(m.host_moved(dirs[0]).0, dirs.drop_first())
    }
}

/// Each of the moves `dirs`, made in order from `m`, meets what
/// `move_host` requires.
pub open spec fn movable<H>(m: DashModel<H>, dirs: Seq<NavDirection>) -> bool
    decreases dirs.len(),
{
    dirs.len() == 0 || (m.can_move_host(dirs[0]) && m.rows.len() < usize::MAX && movable(
        m.host_moved(dirs[0]).0,
        dirs.drop_first(),
    ))
}

/// The rows of `m0` without the host under its cursor.
spec fn rest<H>(m0: DashModel<H>) -> Seq<RowModel<H>> {
    let r = m0.selected_row as int;
    set_hosts(m0.rows, r, m0.rows[r].hosts.remove(m0.selected_col as int))
}

/// The host under the cursor of `m0`.
spec fn picked<H>(m0: DashModel<H>) -> H {
    m0.rows[m0.selected_row as int].hosts[m0.selected_col as int]
}

/// `m` is `m0` in move mode with the host picked up in `m0` carried
/// somewhere: under the cursor in one of the other rows, or alone in a row
/// after them.
spec fn carrying<H>(m0: DashModel<H>, m: DashModel<H>) -> bool {
    let rs = rest(m0);
    let h = picked(m0);
    let k = m.selected_row as int;
    let j = m.selected_col as int;
    &&& m.move_mode
    &&& m.move_origin == Some((m0.selected_row, m0.selected_col))
    &&& !m.in_hidden_section
    &&& {
        ||| k < rs.len() && j <= rs[k].hosts.len() && m.rows == set_hosts(
            rs,
            k,
            rs[k].hosts.insert(j, h),
        )
        ||| k == rs.len() && j == 0 && m.rows.len() == rs.len() + 1 && m.rows.drop_last() == rs
            && m.rows.last().hosts == seq![h]
    }
}

proof fn lemma_rest<H>(m0: DashModel<H>)
    requires
        pickable(m0),
    ensures
        rest(m0).len() == m0.rows.len(),
        forall|i: int| 0 <= i < m0.rows.len() ==> #[trigger] rest(m0)[i].hosts.len() > 0,
        forall|i: int|
            0 <= i < m0.rows.len() ==> #[trigger] rest(m0)[i].hosts.len() <= m0.rows[i].hosts.len(),
        forall|i: int|
            0 <= i < m0.rows.len() && i != m0.selected_row ==> #[trigger] rest(m0)[i] == m0.rows[i],
{
    let r = m0.selected_row as int;
    assert forall|i: int| 0 <= i < m0.rows.len() implies #[trigger] rest(m0)[i].hosts.len() > 0 by {
        if i != r {
            assert(m0.rows[i].hosts.len() > 0);
        }
    }
    assert forall|i: int| 0 <= i < m0.rows.len() implies #[trigger] rest(m0)[i].hosts.len()
        <= m0.rows[i].hosts.len() by {}
}

/// Putting the host back into the row it sits in, where it sits, gives
/// that row's hosts again.
proof fn lemma_lift_back<H>(rs: Seq<RowModel<H>>, k: int, hs: Seq<H>)
    requires
        0 <= k < rs.len(),
        hs == rs[k].hosts,
    ensures
        set_hosts(rs, k, hs) == rs,
{
    assert(set_hosts(rs, k, hs) =~= rs);
}

/// One move, done or refused, keeps the picked host carried (state in one
/// of the other rows).
proof fn lemma_step_in_row<H>(m0: DashModel<H>, m: DashModel<H>, dir: NavDirection)
    requires
        pickable(m0),
        carrying(m0, m),
        m.selected_row < rest(m0).len(),
    ensures
        m.can_move_host(dir),
        m.rows.len() < usize::MAX,
        carrying(m0, m.host_moved(dir).0),
{
    lemma_rest(m0);
    let rs = rest(m0);
    let h = picked(m0);
    let k = m.selected_row as int;
    let j = m.selected_col as int;
    let ins = rs[k].hosts.insert(j, h);
    let m1 = m.host_moved(dir).0;
    assert(m.rows[k].hosts == ins);
    assert(rs[k].hosts.len() <= m0.rows[k].hosts.len());
    match dir {
        NavDirection::Right => {
            if j + 1 < ins.len() {
                assert(swap_adjacent(ins, j) =~= rs[k].hosts.insert(j + 1, h));
                assert(m1.rows =~= set_hosts(rs, k, rs[k].hosts.insert(j + 1, h)));
            }
        },
        NavDirection::Left => {
            if j != 0 {
                assert(swap_adjacent(ins, j - 1) =~= rs[k].hosts.insert(j - 1, h));
                assert(m1.rows =~= set_hosts(rs, k, rs[k].hosts.insert(j - 1, h)));
            }
        },
        NavDirection::Down => {
            let n = k + 1;
            let src = ins.remove(j);
            assert(src =~= rs[k].hosts);
            assert(m.rows[k].hosts[j] == h);
            lemma_lift_back(rs, k, src);
            assert(set_hosts(set_hosts(rs, k, ins), k, src) =~= rs);
            if n < m.rows.len() {
                assert(m.rows[n] == rs[n]);
                if m.rows[n].hosts.len() < MAX_HOSTS_PER_ROW {
                    assert(m1.rows =~= set_hosts(rs, n, rs[n].hosts.insert(0, h)));
                }
            } else {
                let new_row = RowModel { name: row_name(m.rows.len() + 1), hosts: seq![h] };
                assert(m1.rows =~= rs.push(new_row));
                assert(m1.rows.drop_last() =~= rs);
            }
        },
        NavDirection::Up => {
            if k != 0 {
                let p = k - 1;
                assert(m.rows[p] == rs[p]);
                if m.rows[p].hosts.len() < MAX_HOSTS_PER_ROW {
                    let src = ins.remove(j);
                    assert(src =~= rs[k].hosts);
                    assert(m.rows[k].hosts[j] == h);
                    assert(set_hosts(set_hosts(rs, k, ins), k, src) =~= rs);
                    assert(rs[p].hosts.push(h) =~= rs[p].hosts.insert(rs[p].hosts.len() as int, h));
                    assert(m1.rows =~= set_hosts(
                        rs,
                        p,
                        rs[p].hosts.insert(rs[p].hosts.len() as int, h),
                    ));
                }
            }
        },
    }
}

/// One move, done or refused, keeps the picked host carried (state alone in
/// a row after the others).
proof fn lemma_step_alone<H>(m0: DashModel<H>, m: DashModel<H>, dir: NavDirection)
    requires
        pickable(m0),
        carrying(m0, m),
        m.selected_row == rest(m0).len(),
    ensures
        m.can_move_host(dir),
        m.rows.len() < usize::MAX,
        carrying(m0, m.host_moved(dir).0),
{
    lemma_rest(m0);
    let rs = rest(m0);
    let h = picked(m0);
    let k = m.selected_row as int;
    let m1 = m.host_moved(dir).0;
    assert(m.rows[k].hosts == seq![h]);
    assert forall|i: int| 0 <= i < rs.len() implies #[trigger] m.rows[i] == rs[i] by {
        assert(m.rows.drop_last()[i] == m.rows[i]);
    }
    match dir {
        NavDirection::Down => {
            let src = seq![h].remove(0);
            assert(src =~= Seq::<H>::empty());
            let new_row = RowModel { name: row_name(m.rows.len() + 1), hosts: seq![h] };
            let rows1 = set_hosts(m.rows, k, src).push(new_row);
            assert(rows1.remove(k) =~= rs.push(new_row));
            assert(m1.rows =~= rs.push(new_row));
            assert(m1.rows.drop_last() =~= rs);
        },
        NavDirection::Up => {
            let p = k - 1;
            if m.rows[p].hosts.len() < MAX_HOSTS_PER_ROW {
                let src = seq![h].remove(0);
                assert(src =~= Seq::<H>::empty());
                let rows1 = set_hosts(set_hosts(m.rows, k, src), p, rs[p].hosts.push(h));
                assert(rows1.remove(k) =~= set_hosts(rs, p, rs[p].hosts.push(h)));
                assert(rs[p].hosts.push(h) =~= rs[p].hosts.insert(rs[p].hosts.len() as int, h));
                assert(m1.rows =~= set_hosts(
                    rs,
                    p,
                    rs[p].hosts.insert(rs[p].hosts.len() as int, h),
                ));
            }
        },
        _ => {},
    }
}

proof fn lemma_moves_carry<H>(m0: DashModel<H>, m: DashModel<H>, dirs: Seq<NavDirection>)
    requires
        pickable(m0),
        carrying(m0, m),
    ensures
        movable(m, dirs),
        carrying(m0, moves(m, dirs)),
    decreases dirs.len(),
{
    if dirs.len() > 0 {
        if m.selected_row < rest(m0).len() {
            lemma_step_in_row(m0, m, dirs[0]);
        } else {
            lemma_step_alone(m0, m, dirs[0]);
        }
        lemma_moves_carry(m0, m.host_moved(dirs[0]).0, dirs.drop_first());
    }
}

/// Cancelling while the picked host is carried puts it back.
proof fn lemma_cancel_puts_back<H>(m0: DashModel<H>, m: DashModel<H>)
    requires
        pickable(m0),
        carrying(m0, m),
    ensures
        same_arrangement(m0, m.move_cancelled()),
{
    lemma_rest(m0);
    let rs = rest(m0);
    let h = picked(m0);
    let r0 = m0.selected_row;
    let c0 = m0.selected_col;
    let k = m.selected_row as int;
    let j = m.selected_col as int;
    let base = DashModel { move_origin: None, move_mode: false, ..m };
    assert(m.move_cancelled() == base.restored(r0, c0));
    lemma_put_back_same(m0.rows, r0 as int, rs[r0 as int].hosts, c0 as int);
    assert(set_hosts(m0.rows, r0 as int, rs[r0 as int].hosts) == rs);
    if k < rs.len() {
        let ins = rs[k].hosts.insert(j, h);
        assert(m.rows[k].hosts == ins);
        lemma_restored_keeping_row(base, r0, c0);
        assert(ins.remove(j) =~= rs[k].hosts);
        lemma_lift_back(rs, k, ins.remove(j));
        assert(set_hosts(m.rows, k, ins.remove(j)) =~= rs);
        assert(base.restored(r0, c0).rows =~= m0.rows);
    } else {
        assert(m.rows.remove(k) =~= rs);
        lemma_restored_dropping_row(base, r0, c0);
        assert(base.restored(r0, c0).rows =~= m0.rows);
    }
}

/// Cancelling a move puts everything back, however many moves, in whatever
/// directions and whether done or refused, were made since the host was
/// picked up: the rows and the cursor are as before, and move mode is
/// over. Every one of those moves meets what `move_host` requires. This
/// needs the rows to hold hosts and the picked host's row to hold another
/// one; otherwise a row emptied by picking the host up is gone for good,
/// or is recreated under a default name.
pub proof fn lemma_cancel_undoes_moves<H>(m: DashModel<H>, dirs: Seq<NavDirection>)
    requires
        pickable(m),
    ensures
        movable(m.with_move_mode(), dirs),
        same_arrangement(m, moves(m.with_move_mode(), dirs).move_cancelled()),
        !moves(m.with_move_mode(), dirs).move_cancelled().move_mode,
        moves(m.with_move_mode(), dirs).move_cancelled().move_origin is None,
{
    lemma_rest(m);
    let m1 = m.with_move_mode();
    let r = m.selected_row as int;
    let c = m.selected_col as int;
    lemma_put_back_same(m.rows, r, rest(m)[r].hosts, c);
    assert(set_hosts(m.rows, r, rest(m)[r].hosts) == rest(m));
    assert(carrying(m, m1));
    lemma_moves_carry(m, m1, dirs);
    lemma_cancel_puts_back(m, moves(m1, dirs));
}

// ---------------------------------------------------------------------------
// Animation and toggles
// ---------------------------------------------------------------------------

/// The dashboard after `n` ticks of the shake animation.
pub open spec fn ticked<H>(m: DashModel<H>, n: nat) -> DashModel<H>
    decreases n,
{
    if n == 0 {
        m
    } else {
        ticked(m, (n - 1) as nat).shake_ticked()
    }
}

/// The shake animation counts down once per tick and is over after one
/// tick more than its counter: started with counter `k`, it shows `k - n`
/// after `n <= k` ticks and nothing after `k + 1`.
pub proof fn lemma_shake_runs_out<H>(m: DashModel<H>, row: usize, k: u8, n: nat)
    requires
        m.shake_frame == Some((row, k)),
    ensures
        n <= k ==> ticked(m, n).shake_frame == Some((row, (k - n) as u8)),
        ticked(m, k as nat + 1).shake_frame is None,
    decreases n,
{
    if n > 0 {
        lemma_shake_runs_out(m, row, k, (n - 1) as nat);
    }
    lemma_shake_counts_down(m, row, k, k as nat);
}

proof fn lemma_shake_counts_down<H>(m: DashModel<H>, row: usize, k: u8, n: nat)
    requires
        m.shake_frame == Some((row, k)),
        n <= k,
    ensures
        ticked(m, n).shake_frame == Some((row, (k - n) as u8)),
    decreases n,
{
    if n > 0 {
        lemma_shake_counts_down(m, row, k, (n - 1) as nat);
    }
}

/// Showing and hiding the hidden section again, from the grid, leaves the
/// dashboard as it was.
pub proof fn lemma_toggle_hidden_twice<H>(m: DashModel<H>)
    requires
        !m.in_hidden_section,
    ensures
        m.toggled_hidden().toggled_hidden() == m,
{
}

// ---------------------------------------------------------------------------
// Row capacity
// ---------------------------------------------------------------------------

/// No row holds more than `MAX_HOSTS_PER_ROW` hosts.
pub open spec fn within_capacity<H>(rows: Seq<RowModel<H>>) -> bool {
    forall|i: int| 0 <= i < rows.len() ==> #[trigger] rows[i].hosts.len() <= MAX_HOSTS_PER_ROW
}

proof fn lemma_capacity_set<H>(rows: Seq<RowModel<H>>, r: int, hosts: Seq<H>)
    requires
        within_capacity(rows),
        0 <= r < rows.len(),
        hosts.len() <= MAX_HOSTS_PER_ROW,
    ensures
        within_capacity(set_hosts(rows, r, hosts)),
{
    assert forall|i: int| 0 <= i < rows.len() implies #[trigger] set_hosts(rows, r, hosts)[i].hosts.len()
        <= MAX_HOSTS_PER_ROW by {
        if i != r {
            assert(set_hosts(rows, r, hosts)[i] == rows[i]);
        }
    }
}

proof fn lemma_capacity_remove<H>(rows: Seq<RowModel<H>>, r: int)
    requires
        within_capacity(rows),
        0 <= r < rows.len(),
    ensures
        within_capacity(rows.remove(r)),
{
    assert forall|i: int| 0 <= i < rows.len() - 1 implies #[trigger] rows.remove(r)[i].hosts.len()
        <= MAX_HOSTS_PER_ROW by {
        if i < r {
            assert(rows.remove(r)[i] == rows[i]);
        } else {
            assert(rows.remove(r)[i] == rows[i + 1]);
        }
    }
}

proof fn lemma_capacity_push<H>(rows: Seq<RowModel<H>>, x: RowModel<H>)
    requires
        within_capacity(rows),
        x.hosts.len() <= MAX_HOSTS_PER_ROW,
    ensures
        within_capacity(rows.push(x)),
{
    assert forall|i: int| 0 <= i < rows.len() + 1 implies #[trigger] rows.push(x)[i].hosts.len()
        <= MAX_HOSTS_PER_ROW by {
        if i < rows.len() {
            assert(rows.push(x)[i] == rows[i]);
        }
    }
}

/// Moving a host and hiding or showing one never fill a row beyond
/// `MAX_HOSTS_PER_ROW` hosts: a move into a full row is refused, and a host
/// shown again goes to a new row when the last one is full.
pub proof fn lemma_rows_stay_within_capacity<H>(m: DashModel<H>, dir: NavDirection)
    requires
        m.wf(),
        within_capacity(m.rows),
    ensures
        m.can_move_host(dir) ==> within_capacity(m.host_moved(dir).0.rows),
        within_capacity(m.host_hidden().0.rows),
{
    let r = m.selected_row as int;
    let c = m.selected_col as int;
    if m.can_move_host(dir) && m.move_mode {
        match dir {
            NavDirection::Right => {
                if c + 1 < m.rows[r].hosts.len() {
                    lemma_capacity_set(m.rows, r, swap_adjacent(m.rows[r].hosts, c));
                }
            },
            NavDirection::Left => {
                if c != 0 {
                    lemma_capacity_set(m.rows, r, swap_adjacent(m.rows[r].hosts, c - 1));
                }
            },
            NavDirection::Down => {
                let n = r + 1;
                if !(n < m.rows.len() && m.rows[n].hosts.len() >= MAX_HOSTS_PER_ROW) {
                    let host = m.rows[r].hosts[c];
                    let src = m.rows[r].hosts.remove(c);
                    let rows0 = set_hosts(m.rows, r, src);
                    lemma_capacity_set(m.rows, r, src);
                    if n < m.rows.len() {
                        let rows1 = set_hosts(rows0, n, m.rows[n].hosts.insert(0, host));
                        lemma_capacity_set(rows0, n, m.rows[n].hosts.insert(0, host));
                        if src.len() == 0 {
                            lemma_capacity_remove(rows1, r);
                        }
                    } else {
                        let rows1 = rows0.push(
                            RowModel { name: row_name(m.rows.len() + 1), hosts: seq![host] },
                        );
                        lemma_capacity_push(
                            rows0,
                            RowModel { name: row_name(m.rows.len() + 1), hosts: seq![host] },
                        );
                        if src.len() == 0 {
                            lemma_capacity_remove(rows1, r);
                        }
                    }
                }
            },
            NavDirection::Up => {
                if r != 0 && m.rows[r - 1].hosts.len() < MAX_HOSTS_PER_ROW {
                    let p = r - 1;
                    let host = m.rows[r].hosts[c];
                    let src = m.rows[r].hosts.remove(c);
                    let rows0 = set_hosts(m.rows, r, src);
                    lemma_capacity_set(m.rows, r, src);
                    let rows1 = set_hosts(rows0, p, m.rows[p].hosts.push(host));
                    lemma_capacity_set(rows0, p, m.rows[p].hosts.push(host));
                    if src.len() == 0 {
                        lemma_capacity_remove(rows1, r);
                    }
                }
            },
        }
    }
    // hiding and showing
    if m.in_hidden_section {
        let i = m.hidden_selected as int;
        if i < m.hidden.len() {
            let host = m.hidden[i];
            if m.rows.len() == 0 {
                assert(within_capacity(seq![RowModel { name: row_name(1), hosts: seq![host] }]));
            } else {
                let last = m.rows.len() - 1;
                if m.rows[last].hosts.len() >= MAX_HOSTS_PER_ROW {
                    lemma_capacity_push(
                        m.rows,
                        RowModel { name: row_name(m.rows.len() + 1), hosts: seq![host] },
                    );
                } else {
                    lemma_capacity_set(m.rows, last, m.rows[last].hosts.push(host));
                }
            }
        }
    } else if r < m.rows.len() && c < m.rows[r].hosts.len() {
        let src = m.rows[r].hosts.remove(c);
        lemma_capacity_set(m.rows, r, src);
        if src.len() == 0 {
            lemma_capacity_remove(m.rows, r);
        }
    }
}


/// Every row holds at least one host and at most `MAX_HOSTS_PER_ROW`.
pub open spec fn rows_filled<H>(rows: Seq<RowModel<H>>) -> bool {
    forall|i: int|
        0 <= i < rows.len() ==> 0 < #[trigger] rows[i].hosts.len() <= MAX_HOSTS_PER_ROW
}

/// The cursor is on a host of the grid.
pub open spec fn on_host<H>(m: DashModel<H>) -> bool {
    &&& m.selected_row < m.rows.len()
    &&& m.selected_col < m.rows[m.selected_row as int].hosts.len()
}

proof fn lemma_filled_set<H>(rows: Seq<RowModel<H>>, r: int, hosts: Seq<H>)
    requires
        rows_filled(rows),
        0 <= r < rows.len(),
        0 < hosts.len() <= MAX_HOSTS_PER_ROW,
    ensures
        rows_filled(set_hosts(rows, r, hosts)),
{
    assert forall|i: int| 0 <= i < rows.len() implies 0 < #[trigger] set_hosts(
        rows,
        r,
        hosts,
    )[i].hosts.len() <= MAX_HOSTS_PER_ROW by {
        if i != r {
            assert(set_hosts(rows, r, hosts)[i] == rows[i]);
        }
    }
}

/// Removing row `r` leaves the rows filled when every other row is.
proof fn lemma_filled_drop<H>(rows: Seq<RowModel<H>>, r: int)
    requires
        0 <= r < rows.len(),
        forall|i: int|
            0 <= i < rows.len() && i != r ==> 0 < #[trigger] rows[i].hosts.len() <= MAX_HOSTS_PER_ROW,
    ensures
        rows_filled(rows.remove(r)),
{
    assert forall|i: int| 0 <= i < rows.len() - 1 implies 0 < #[trigger] rows.remove(r)[i].hosts.len()
        <= MAX_HOSTS_PER_ROW by {
        if i < r {
            assert(rows.remove(r)[i] == rows[i]);
        } else {
            assert(rows.remove(r)[i] == rows[i + 1]);
        }
    }
}

/// In move mode, with the cursor on a host and every row holding between
/// one and `MAX_HOSTS_PER_ROW` hosts, a move in any direction, done or
/// refused, meets what `move_host` requires of the cursor and keeps both:
/// no row is left empty (a row the host leaves empty is removed) or grows
/// past the limit, and the cursor stays on a host.
pub proof fn lemma_move_keeps_rows_filled<H>(m: DashModel<H>, dir: NavDirection)
    requires
        m.move_mode,
        on_host(m),
        rows_filled(m.rows),
    ensures
        m.can_move_host(dir),
        rows_filled(m.host_moved(dir).0.rows),
        on_host(m.host_moved(dir).0),
{
    let r = m.selected_row as int;
    let c = m.selected_col as int;
    let m1 = m.host_moved(dir).0;
    assert(0 < m.rows[r].hosts.len() <= MAX_HOSTS_PER_ROW);
    match dir {
        NavDirection::Right => {
            if c + 1 < m.rows[r].hosts.len() {
                lemma_filled_set(m.rows, r, swap_adjacent(m.rows[r].hosts, c));
            }
        },
        NavDirection::Left => {
            if c != 0 {
                lemma_filled_set(m.rows, r, swap_adjacent(m.rows[r].hosts, c - 1));
            }
        },
        NavDirection::Down => {
            let n = r + 1;
            if !(n < m.rows.len() && m.rows[n].hosts.len() >= MAX_HOSTS_PER_ROW) {
                let host = m.rows[r].hosts[c];
                let src = m.rows[r].hosts.remove(c);
                let rows0 = set_hosts(m.rows, r, src);
                if n < m.rows.len() {
                    let next = m.rows[n].hosts.insert(0, host);
                    assert(0 < m.rows[n].hosts.len());
                    let rows1 = set_hosts(rows0, n, next);
                    if src.len() == 0 {
                        assert(forall|i: int| 0 <= i < rows1.len() && i != r ==> #[trigger] rows1[i]
                            == (if i == n {
                            RowModel { name: m.rows[n].name, hosts: next }
                        } else {
                            m.rows[i]
                        }));
                        lemma_filled_drop(rows1, r);
                        assert(m1.rows == rows1.remove(r));
                        assert(m1.rows[r] == rows1[n]);
                    } else {
                        lemma_filled_set(m.rows, r, src);
                        lemma_filled_set(rows0, n, next);
                    }
                } else {
                    let new_row = RowModel { name: row_name(m.rows.len() + 1), hosts: seq![host] };
                    let rows1 = rows0.push(new_row);
                    if src.len() == 0 {
                        assert(forall|i: int| 0 <= i < rows1.len() && i != r ==> #[trigger] rows1[i]
                            == (if i == m.rows.len() {
                            new_row
                        } else {
                            m.rows[i]
                        }));
                        lemma_filled_drop(rows1, r);
                        assert(m1.rows == rows1.remove(r));
                        assert(m1.rows[m1.rows.len() - 1] == new_row);
                    } else {
                        lemma_filled_set(m.rows, r, src);
                        assert forall|i: int| 0 <= i < rows1.len() implies 0
                            < #[trigger] rows1[i].hosts.len() <= MAX_HOSTS_PER_ROW by {
                            if i < rows0.len() {
                                assert(rows1[i] == rows0[i]);
                            }
                        }
                    }
                }
            }
        },
        NavDirection::Up => {
            if r != 0 && m.rows[r - 1].hosts.len() < MAX_HOSTS_PER_ROW {
                let p = r - 1;
                let host = m.rows[r].hosts[c];
                let src = m.rows[r].hosts.remove(c);
                let rows0 = set_hosts(m.rows, r, src);
                let prev = m.rows[p].hosts.push(host);
                let rows1 = set_hosts(rows0, p, prev);
                if src.len() == 0 {
                    assert(forall|i: int| 0 <= i < rows1.len() && i != r ==> #[trigger] rows1[i] == (
                    if i == p {
                        RowModel { name: m.rows[p].name, hosts: prev }
                    } else {
                        m.rows[i]
                    }));
                    lemma_filled_drop(rows1, r);
                    assert(m1.rows == rows1.remove(r));
                    assert(m1.rows[p] == rows1[p]);
                } else {
                    lemma_filled_set(m.rows, r, src);
                    lemma_filled_set(rows0, p, prev);
                }
            }
        },
    }
}

// ---------------------------------------------------------------------------
// Grid navigation
// ---------------------------------------------------------------------------

/// In the grid, moving down or up goes to the row below or above and keeps
/// the cursor's column when that row has a tile there (the tile straight
/// below or above), else goes to that row's last tile; moving right or left
/// goes to the next or previous tile of the row. Down from the last row
/// enters the hidden section at its first host when it is shown and not
/// empty, and otherwise, like up from the first row, changes nothing. The
/// rows and the hosts do not change.
pub proof fn lemma_grid_moves<H>(m: DashModel<H>)
    requires
        !m.in_hidden_section,
        m.selected_row < m.rows.len(),
        fits(m),
    ensures
        ({
            let r = m.selected_row as int;
            let c = m.selected_col as int;
            let d = m.moved_down();
            r + 1 < m.rows.len() ==> {
                &&& d.selected_row == r + 1
                &&& !d.in_hidden_section
                &&& d.rows == m.rows
                &&& c < m.rows[r + 1].hosts.len() ==> d.selected_col == c
                &&& c >= m.rows[r + 1].hosts.len() > 0 ==> d.selected_col == m.rows[r + 1].hosts.len() - 1
            }
        }),
        ({
            let r = m.selected_row as int;
            let c = m.selected_col as int;
            let u = m.moved_up();
            r > 0 ==> {
                &&& u.selected_row == r - 1
                &&& !u.in_hidden_section
                &&& u.rows == m.rows
                &&& c < m.rows[r - 1].hosts.len() ==> u.selected_col == c
                &&& c >= m.rows[r - 1].hosts.len() > 0 ==> u.selected_col == m.rows[r - 1].hosts.len() - 1
            }
        }),
        ({
            let r = m.selected_row as int;
            let c = m.selected_col as int;
            c + 1 < m.rows[r].hosts.len() ==> m.moved_right().selected_col == c + 1
                && m.moved_right().selected_row == r && m.moved_right().rows == m.rows
        }),
        ({
            let r = m.selected_row as int;
            let c = m.selected_col as int;
            c > 0 ==> m.moved_left().selected_col == c - 1 && m.moved_left().selected_row == r
                && m.moved_left().rows == m.rows
        }),
        m.selected_row + 1 == m.rows.len() ==> if m.show_hidden && m.hidden.len() > 0 {
            m.moved_down().in_hidden_section && m.moved_down().hidden_selected == 0
                && m.moved_down().rows == m.rows
        } else {
            m.moved_down() == m
        },
        m.selected_row == 0 ==> m.moved_up() == m,
{
}

} // verus!
