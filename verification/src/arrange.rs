//! Placing the configured hosts into the rows of a saved layout, which is how
//! a dashboard starts.
use vstd::prelude::*;

use crate::dashboard::{
    models, row_model, DashModel, Dashboard, DashboardRow, FocusPanel, FocusState, RowModel,
};
use crate::grid_layout::{row_name, row_name_string, strs, GridLayout, GridLayoutView, GridRow, GridRowView};
use crate::dashboard_laws::{held, hosts_in};
use crate::metrics::MetricType;
use crate::ssh_config::SshHost;
use vstd::multiset::Multiset;

verus! {

/// Whether `hs[i]` is the last host of its name: a later host of the same
/// name replaces an earlier one.
pub open spec fn last_of_its_name(hs: Seq<SshHost>, i: int) -> bool {
    forall|j: int| i < j < hs.len() ==> #[trigger] hs[j].name@ != hs[i].name@
}

/// The hosts available for placement, in configuration order: each host, or
/// `None` where a later host has the same name.
pub open spec fn initial_slots(hs: Seq<SshHost>) -> Seq<Option<SshHost>> {
    Seq::new(hs.len(), |i: int| if last_of_its_name(hs, i) { Some(hs[i]) } else { None })
}

/// Whether `slot` holds a host named `name`.
pub open spec fn holds_named(slot: Option<SshHost>, name: Seq<char>) -> bool {
    match slot {
        Some(h) => h.name@ == name,
        None => false,
    }
}

/// The first slot from `k` on that holds a host named `name`.
pub open spec fn find_from(slots: Seq<Option<SshHost>>, name: Seq<char>, k: int) -> Option<int>
    decreases slots.len() - k,
{
    if k < 0 || k >= slots.len() {
        None
    } else if holds_named(slots[k], name) {
        Some(k)
    } else {
        find_from(slots, name, k + 1)
    }
}

/// The host in `slot` (meaningful where there is one).
pub open spec fn host_in(slot: Option<SshHost>) -> SshHost {
    match slot {
        Some(h) => h,
        None => arbitrary(),
    }
}

/// Taking the hosts named `names` out of `slots`, in order; a name for which
/// no host is left is skipped. Gives the slots left and the hosts taken.
pub open spec fn place(slots: Seq<Option<SshHost>>, names: Seq<Seq<char>>) -> (
    Seq<Option<SshHost>>,
    Seq<SshHost>,
)
    decreases names.len(),
{
    if names.len() == 0 {
        (slots, seq![])
    } else {
        let (s1, got) = place(slots, names.drop_last());
        match find_from(s1, names.last(), 0) {
            Some(i) => (s1.update(i, None), got.push(host_in(s1[i]))),
            None => (s1, got),
        }
    }
}

/// Filling the layout rows `rows` in order from `slots`: each keeps its
/// name and gets the hosts its names take.
pub open spec fn place_rows(slots: Seq<Option<SshHost>>, rows: Seq<GridRowView>) -> (
    Seq<Option<SshHost>>,
    Seq<RowModel<SshHost>>,
)
    decreases rows.len(),
{
    if rows.len() == 0 {
        (slots, seq![])
    } else {
        let (s1, placed) = place_rows(slots, rows.drop_last());
        let (s2, got) = place(s1, rows.last().hosts);
        (s2, placed.push(RowModel { name: rows.last().name, hosts: got }))
    }
}

/// The hosts still in `slots`, in order.
pub open spec fn leftover(slots: Seq<Option<SshHost>>) -> Seq<SshHost>
    decreases slots.len(),
{
    if slots.len() == 0 {
        seq![]
    } else {
        let rest = leftover(slots.drop_last());
        match slots.last() {
            Some(h) => rest.push(h),
            None => rest,
        }
    }
}

/// The rows of `rows` that hold at least one host.
pub open spec fn nonempty_rows<H>(rows: Seq<RowModel<H>>) -> Seq<RowModel<H>>
    decreases rows.len(),
{
    if rows.len() == 0 {
        seq![]
    } else {
        let rest = nonempty_rows(rows.drop_last());
        if rows.last().hosts.len() > 0 {
            rest.push(rows.last())
        } else {
            rest
        }
    }
}

/// The rows and hidden hosts of a dashboard that starts from `hosts` and
/// `layout`: the layout's rows take their hosts by name, then the hidden
/// list does; the hosts no name took form one more row, `Row n+1` after the
/// layout's n rows; rows left without hosts are dropped, and when none is
/// left there is a single empty `Row 1`.
pub open spec fn arranged(hosts: Seq<SshHost>, layout: GridLayoutView) -> (
    Seq<RowModel<SshHost>>,
    Seq<SshHost>,
) {
    let (s1, placed) = place_rows(initial_slots(hosts), layout.rows);
    let (s2, hidden) = place(s1, layout.hidden);
    let extra = leftover(s2);
    let all = if extra.len() > 0 {
        placed.push(RowModel { name: row_name(placed.len() + 1), hosts: extra })
    } else {
        placed
    };
    let kept = nonempty_rows(all);
    if kept.len() == 0 {
        (seq![RowModel { name: row_name(1), hosts: seq![] }], hidden)
    } else {
        (kept, hidden)
    }
}

/// A dashboard just started from `hosts` and `layout`: the arrangement
/// above, the cursor on the first tile, and no mode active.
pub open spec fn initial_model(
    hosts: Seq<SshHost>,
    layout: GridLayoutView,
    term_cols: u16,
    term_rows: u16,
) -> DashModel<SshHost> {
    DashModel {
        rows: arranged(hosts, layout).0,
        hidden: arranged(hosts, layout).1,
        show_hidden: false,
        selected_row: 0,
        selected_col: 0,
        focused: None,
        password_input: seq![],
        entering_password: false,
        term_cols,
        term_rows,
        active_metric: MetricType::Cpu,
        focus_panel: FocusPanel::Terminal,
        focus_state: FocusState::PanelSelect,
        move_mode: false,
        move_origin: None,
        rename_mode: false,
        rename_input: seq![],
        shake_frame: None,
        in_hidden_section: false,
        hidden_selected: 0,
    }
}

proof fn lemma_find_from(slots: Seq<Option<SshHost>>, name: Seq<char>, k: int)
    requires
        0 <= k,
    ensures
        find_from(slots, name, k) matches Some(i) ==> k <= i < slots.len() && holds_named(
            slots[i],
            name,
        ),
    decreases slots.len() - k,
{
    if k < slots.len() && !holds_named(slots[k], name) {
        lemma_find_from(slots, name, k + 1);
    }
}

/// Whether one of `hs` is named `name`.
fn has_host_named(hs: &Vec<SshHost>, name: &String) -> (b: bool)
    ensures
        b == exists|j: int| 0 <= j < hs@.len() && #[trigger] hs@[j].name@ == name@,
{
    let mut j: usize = 0;
    while j < hs.len()
        invariant
            j <= hs@.len(),
            forall|k: int| 0 <= k < j ==> #[trigger] hs@[k].name@ != name@,
        decreases hs@.len() - j,
    {
        if hs[j].name == *name {
            return true;
        }
        j = j + 1;
    }
    false
}

/// The slots of `hosts` (see `initial_slots`).
fn slots_of(hosts: Vec<SshHost>) -> (slots: Vec<Option<SshHost>>)
    ensures
        slots@ == initial_slots(hosts@),
{
    let ghost all = hosts@;
    let mut hs = hosts;
    let mut slots: Vec<Option<SshHost>> = Vec::new();
    while hs.len() > 0
        invariant
            slots@.len() + hs@.len() == all.len(),
            hs@ == all.skip(slots@.len() as int),
            forall|j: int| 0 <= j < slots@.len() ==> #[trigger] slots@[j] == initial_slots(all)[j],
        decreases hs@.len(),
    {
        let ghost i = slots@.len() as int;
        let h = hs.remove(0);
        assert(hs@ =~= all.skip(i + 1));
        let later = has_host_named(&hs, &h.name);
        assert(last_of_its_name(all, i) == !later) by {
            if later {
                let j = choose|j: int| 0 <= j < hs@.len() && #[trigger] hs@[j].name@ == h.name@;
                assert(all[i + 1 + j] == hs@[j]);
            } else {
                assert forall|j: int| i < j < all.len() implies #[trigger] all[j].name@ != all[i].name@ by {
                    assert(hs@[j - i - 1] == all[j]);
                }
            }
        }
        if later {
            slots.push(None);
        } else {
            slots.push(Some(h));
        }
    }
    assert(slots@ =~= initial_slots(all));
    slots
}

/// The first slot holding a host named `name`.
fn find_slot(slots: &Vec<Option<SshHost>>, name: &String) -> (r: Option<usize>)
    ensures
        (match r {
            Some(i) => Some(i as int),
            None => None,
        }) == find_from(slots@, name@, 0),
{
    let mut k: usize = 0;
    while k < slots.len()
        invariant
            k <= slots@.len(),
            find_from(slots@, name@, 0) == find_from(slots@, name@, k as int),
        decreases slots@.len() - k,
    {
        match &slots[k] {
            Some(h) => {
                if h.name == *name {
                    return Some(k);
                }
            },
            None => {},
        }
        k = k + 1;
    }
    None
}

/// Takes the hosts named `names` out of `slots` (see `place`).
fn take_named(slots: &mut Vec<Option<SshHost>>, names: &Vec<String>) -> (got: Vec<SshHost>)
    ensures
        final(slots)@ == place(old(slots)@, strs(names@)).0,
        got@ == place(old(slots)@, strs(names@)).1,
{
    let ghost s0 = slots@;
    let ghost ns = strs(names@);
    let mut got: Vec<SshHost> = Vec::new();
    let mut k: usize = 0;
    while k < names.len()
        invariant
            k <= names@.len(),
            ns == strs(names@),
            slots@ == place(s0, ns.take(k as int)).0,
            got@ == place(s0, ns.take(k as int)).1,
        decreases names@.len() - k,
    {
        assert(ns.take(k + 1).drop_last() =~= ns.take(k as int));
        assert(ns.take(k + 1).last() == names@[k as int]@);
        match find_slot(slots, &names[k]) {
            Some(i) => {
                proof {
                    lemma_find_from(slots@, names@[k as int]@, 0);
                }
                let x = slots.remove(i);
                slots.insert(i, None);
                match x {
                    Some(h) => {
                        got.push(h);
                    },
                    None => {},
                }
            },
            None => {},
        }
        k = k + 1;
    }
    assert(ns.take(names@.len() as int) =~= ns);
    got
}

/// Fills the layout rows `rows` from `slots` (see `place_rows`).
fn fill_rows(slots: &mut Vec<Option<SshHost>>, rows: &Vec<GridRow>) -> (placed: Vec<DashboardRow<SshHost>>)
    ensures
        final(slots)@ == place_rows(old(slots)@, rows@.map_values(|r: GridRow| r@)).0,
        models(placed@) == place_rows(old(slots)@, rows@.map_values(|r: GridRow| r@)).1,
        placed@.len() == rows@.len(),
{
    let ghost s0 = slots@;
    let ghost rs = rows@.map_values(|r: GridRow| r@);
    let mut placed: Vec<DashboardRow<SshHost>> = Vec::new();
    let mut k: usize = 0;
    while k < rows.len()
        invariant
            k <= rows@.len(),
            rs == rows@.map_values(|r: GridRow| r@),
            slots@ == place_rows(s0, rs.take(k as int)).0,
            models(placed@) == place_rows(s0, rs.take(k as int)).1,
            placed@.len() == k,
        decreases rows@.len() - k,
    {
        assert(rs.take(k + 1).drop_last() =~= rs.take(k as int));
        assert(rs.take(k + 1).last() == rows@[k as int]@);
        let got = take_named(slots, &rows[k].hosts);
        let ghost before = models(placed@);
        let row = DashboardRow { name: rows[k].name.clone(), hosts: got };
        placed.push(row);
        assert(models(placed@) =~= before.push(row_model(row)));
        k = k + 1;
    }
    assert(rs.take(rows@.len() as int) =~= rs);
    placed
}

/// The hosts still in `slots` (see `leftover`).
fn leftover_hosts(slots: Vec<Option<SshHost>>) -> (r: Vec<SshHost>)
    ensures
        r@ == leftover(slots@),
{
    let ghost all = slots@;
    let mut rest = slots;
    let mut r: Vec<SshHost> = Vec::new();
    let ghost mut k: int = 0;
    while rest.len() > 0
        invariant
            0 <= k <= all.len(),
            rest@ == all.skip(k),
            r@ == leftover(all.take(k)),
        decreases rest@.len(),
    {
        let x = rest.remove(0);
        assert(all.take(k + 1).drop_last() =~= all.take(k));
        assert(all.take(k + 1).last() == x);
        match x {
            Some(h) => {
                r.push(h);
            },
            None => {},
        }
        proof {
            k = k + 1;
        }
        assert(rest@ =~= all.skip(k));
    }
    assert(all.take(k) =~= all);
    r
}

/// The rows of `rows` that hold at least one host (see `nonempty_rows`).
fn keep_nonempty(rows: Vec<DashboardRow<SshHost>>) -> (r: Vec<DashboardRow<SshHost>>)
    ensures
        models(r@) == nonempty_rows(models(rows@)),
{
    let ghost all = models(rows@);
    let mut rest = rows;
    let mut r: Vec<DashboardRow<SshHost>> = Vec::new();
    let ghost mut k: int = 0;
    while rest.len() > 0
        invariant
            0 <= k <= all.len(),
            rest@.len() + k == all.len(),
            models(rest@) == all.skip(k),
            models(r@) == nonempty_rows(all.take(k)),
        decreases rest@.len(),
    {
        let ghost rest0 = rest@;
        let row = rest.remove(0);
        assert(models(rest0)[0] == row_model(row));
        assert(models(rest@) =~= models(rest0).subrange(1, rest0.len() as int));
        assert(all.take(k + 1).drop_last() =~= all.take(k));
        assert(all.take(k + 1).last() == row_model(row));
        if row.hosts.len() > 0 {
            let ghost before = models(r@);
            r.push(row);
            assert(models(r@) =~= before.push(row_model(row)));
        }
        proof {
            k = k + 1;
        }
        assert(models(rest@) =~= all.skip(k));
    }
    assert(all.take(k) =~= all);
    r
}

impl Dashboard<SshHost> {
    /// A dashboard of `hosts` arranged by `layout` (see `arranged`), with
    /// the cursor on the first tile and no mode active.
    pub fn new(hosts: Vec<SshHost>, layout: &GridLayout, term_cols: u16, term_rows: u16) -> (d: Self)
        requires
            layout@.rows.len() < usize::MAX,
        ensures
            d@ == initial_model(hosts@, layout@, term_cols, term_rows),
            d@.wf(),
    {
        let ghost want = arranged(hosts@, layout@);
        let mut slots = slots_of(hosts);
        let mut rows = fill_rows(&mut slots, &layout.rows);
        let hidden = take_named(&mut slots, &layout.hidden);
        let extra = leftover_hosts(slots);
        // Any hosts in the configuration but not in the layout go into a new row
        if extra.len() > 0 {
            let k = rows.len() + 1;
            let ghost before = models(rows@);
            let row = DashboardRow { name: row_name_string(k as u64), hosts: extra };
            rows.push(row);
            assert(models(rows@) =~= before.push(row_model(row)));
        }
        let mut rows = keep_nonempty(rows);
        // Ensure at least one row
        if rows.len() == 0 {
            let row = DashboardRow { name: row_name_string(1), hosts: Vec::new() };
            rows.push(row);
            assert(models(rows@) =~= seq![row_model(row)]);
            assert(row_model(row).hosts =~= Seq::<SshHost>::empty());
        }
        assert(models(rows@) == want.0);
        Dashboard {
            rows,
            hidden_hosts: hidden,
            show_hidden: false,
            selected_row: 0,
            selected_col: 0,
            focused: None,
            password_input: String::new(),
            entering_password: false,
            term_cols,
            term_rows,
            active_metric: MetricType::Cpu,
            focus_panel: FocusPanel::Terminal,
            focus_state: FocusState::PanelSelect,
            move_mode: false,
            move_origin: None,
            rename_mode: false,
            rename_input: String::new(),
            shake_frame: None,
            in_hidden_section: false,
            hidden_selected: 0,
        }
    }
}

// ---------------------------------------------------------------------------
// Every configured host is on the dashboard once
// ---------------------------------------------------------------------------

proof fn lemma_leftover_take(slots: Seq<Option<SshHost>>, i: int)
    requires
        0 <= i < slots.len(),
        slots[i] is Some,
    ensures
        leftover(slots.update(i, None)).to_multiset().insert(host_in(slots[i])) =~= leftover(
            slots,
        ).to_multiset(),
    decreases slots.len(),
{
    broadcast use vstd::multiset::group_multiset_axioms;
    broadcast use vstd::seq_lib::group_to_multiset_ensures;

    let u = slots.update(i, None);
    if i == slots.len() - 1 {
        assert(u.drop_last() =~= slots.drop_last());
    } else {
        assert(u.drop_last() =~= slots.drop_last().update(i, None));
        lemma_leftover_take(slots.drop_last(), i);
        let a = leftover(slots.drop_last().update(i, None)).to_multiset();
        let b = leftover(slots.drop_last()).to_multiset();
        assert(a.insert(host_in(slots[i])) =~= b);
        match slots.last() {
            Some(h) => {
                assert(leftover(u).to_multiset() =~= a.insert(h));
                assert(leftover(slots).to_multiset() =~= b.insert(h));
            },
            None => {},
        }
    }
}

proof fn lemma_place_keeps(slots: Seq<Option<SshHost>>, names: Seq<Seq<char>>)
    ensures
        leftover(place(slots, names).0).to_multiset().add(place(slots, names).1.to_multiset())
            =~= leftover(slots).to_multiset(),
    decreases names.len(),
{
    broadcast use vstd::multiset::group_multiset_axioms;
    broadcast use vstd::seq_lib::group_to_multiset_ensures;

    if names.len() > 0 {
        lemma_place_keeps(slots, names.drop_last());
        let (s1, got) = place(slots, names.drop_last());
        match find_from(s1, names.last(), 0) {
            Some(i) => {
                lemma_find_from(s1, names.last(), 0);
                lemma_leftover_take(s1, i);
                let h = host_in(s1[i]);
                let a = leftover(s1.update(i, None)).to_multiset();
                assert(got.push(h).to_multiset() =~= got.to_multiset().insert(h));
                assert forall|v: SshHost| #[trigger] a.add(got.push(h).to_multiset()).count(v)
                    == leftover(slots).to_multiset().count(v) by {
                    assert(a.insert(h).count(v) == leftover(s1).to_multiset().count(v));
                    assert(leftover(s1).to_multiset().add(got.to_multiset()).count(v) == leftover(
                        slots,
                    ).to_multiset().count(v));
                }
            },
            None => {},
        }
    }
}

proof fn lemma_place_rows_keeps(slots: Seq<Option<SshHost>>, rows: Seq<GridRowView>)
    ensures
        leftover(place_rows(slots, rows).0).to_multiset().add(hosts_in(place_rows(slots, rows).1))
            =~= leftover(slots).to_multiset(),
    decreases rows.len(),
{
    broadcast use vstd::multiset::group_multiset_axioms;

    if rows.len() > 0 {
        lemma_place_rows_keeps(slots, rows.drop_last());
        let (s1, placed) = place_rows(slots, rows.drop_last());
        lemma_place_keeps(s1, rows.last().hosts);
        let (s2, got) = place(s1, rows.last().hosts);
        let placed2 = placed.push(RowModel { name: rows.last().name, hosts: got });
        assert(placed2.drop_last() =~= placed);
        assert forall|v: SshHost| #[trigger] leftover(s2).to_multiset().add(hosts_in(placed2)).count(v)
            == leftover(slots).to_multiset().count(v) by {
            assert(leftover(s2).to_multiset().add(got.to_multiset()).count(v) == leftover(
                s1,
            ).to_multiset().count(v));
            assert(leftover(s1).to_multiset().add(hosts_in(placed)).count(v) == leftover(
                slots,
            ).to_multiset().count(v));
        }
    }
}

proof fn lemma_nonempty_rows_keeps<H>(rows: Seq<RowModel<H>>)
    ensures
        hosts_in(nonempty_rows(rows)) =~= hosts_in(rows),
    decreases rows.len(),
{
    broadcast use vstd::multiset::group_multiset_axioms;
    broadcast use vstd::seq_lib::group_to_multiset_ensures;

    if rows.len() > 0 {
        lemma_nonempty_rows_keeps(rows.drop_last());
        let rest = nonempty_rows(rows.drop_last());
        if rows.last().hosts.len() > 0 {
            assert(rest.push(rows.last()).drop_last() =~= rest);
        } else {
            assert(rows.last().hosts.to_multiset() =~= Multiset::empty());
        }
    }
}

/// A dashboard started from `hosts` holds each configured host exactly once,
/// in a row or hidden, with one exception: of hosts with the same name,
/// only the last one is kept.
pub proof fn lemma_every_host_placed(
    hosts: Seq<SshHost>,
    layout: GridLayoutView,
    term_cols: u16,
    term_rows: u16,
)
    ensures
        held(initial_model(hosts, layout, term_cols, term_rows)) =~= leftover(
            initial_slots(hosts),
        ).to_multiset(),
{
    broadcast use vstd::multiset::group_multiset_axioms;
    broadcast use vstd::seq_lib::group_to_multiset_ensures;

    let s0 = initial_slots(hosts);
    let (s1, placed) = place_rows(s0, layout.rows);
    let (s2, hidden) = place(s1, layout.hidden);
    let extra = leftover(s2);
    lemma_place_rows_keeps(s0, layout.rows);
    lemma_place_keeps(s1, layout.hidden);
    let all = if extra.len() > 0 {
        placed.push(RowModel { name: row_name(placed.len() + 1), hosts: extra })
    } else {
        placed
    };
    if extra.len() > 0 {
        assert(all.drop_last() =~= placed);
    } else {
        assert(extra.to_multiset() =~= Multiset::empty());
    }
    assert(hosts_in(all) =~= hosts_in(placed).add(extra.to_multiset()));
    lemma_nonempty_rows_keeps(all);
    let kept = nonempty_rows(all);
    if kept.len() == 0 {
        let one = seq![RowModel { name: row_name(1), hosts: Seq::<SshHost>::empty() }];
        assert(one.drop_last() =~= Seq::<RowModel<SshHost>>::empty());
        assert(Seq::<SshHost>::empty().to_multiset() =~= Multiset::empty());
        assert(hosts_in(Seq::<RowModel<SshHost>>::empty()) == Multiset::<SshHost>::empty());
        assert(one.last().hosts.to_multiset() =~= Multiset::<SshHost>::empty());
        assert(hosts_in(one) =~= Multiset::empty());
        assert(hosts_in(kept) =~= Multiset::empty());
    }
    let m = initial_model(hosts, layout, term_cols, term_rows);
    assert(hosts_in(m.rows) =~= hosts_in(kept));
    assert forall|v: SshHost| #[trigger] held(m).count(v) == leftover(s0).to_multiset().count(v) by {
        assert(leftover(s2).to_multiset().add(hidden.to_multiset()).count(v) == leftover(
            s1,
        ).to_multiset().count(v));
        assert(leftover(s1).to_multiset().add(hosts_in(placed)).count(v) == leftover(
            s0,
        ).to_multiset().count(v));
    }
}

// ---------------------------------------------------------------------------
// Starting again from a saved layout
// ---------------------------------------------------------------------------

/// The hosts `hs` have pairwise different names.
pub open spec fn distinct_names(hs: Seq<SshHost>) -> bool {
    forall|i: int, j: int| 0 <= i < j < hs.len() ==> hs[i].name@ != hs[j].name@
}

/// The names of the hosts `hs`.
pub open spec fn names_of(hs: Seq<SshHost>) -> Seq<Seq<char>> {
    hs.map_values(|h: SshHost| h.name@)
}

/// The layout rows `rows` are saved as: their names and host names.
pub open spec fn saved_rows(rows: Seq<RowModel<SshHost>>) -> Seq<GridRowView> {
    rows.map_values(|r: RowModel<SshHost>| GridRowView { name: r.name, hosts: names_of(r.hosts) })
}

/// The layout a dashboard is saved as.
pub open spec fn saved_layout(m: DashModel<SshHost>) -> GridLayoutView {
    GridLayoutView { rows: saved_rows(m.rows), hidden: names_of(m.hidden) }
}

/// The hosts of the rows `rows`, in order.
pub open spec fn flat(rows: Seq<RowModel<SshHost>>) -> Seq<SshHost> {
    rows.map_values(|r: RowModel<SshHost>| r.hosts).flatten()
}

/// The slots of `hosts` once the hosts in `taken` are taken out.
pub open spec fn slots_without(hosts: Seq<SshHost>, taken: Set<SshHost>) -> Seq<Option<SshHost>> {
    Seq::new(
        hosts.len(),
        |j: int|
            if taken.contains(hosts[j]) {
                None
            } else {
                Some(hosts[j])
            },
    )
}

proof fn lemma_find_unique(s: Seq<Option<SshHost>>, name: Seq<char>, j: int, k: int)
    requires
        0 <= k <= j < s.len(),
        holds_named(s[j], name),
        forall|i: int| k <= i < j ==> !holds_named(#[trigger] s[i], name),
    ensures
        find_from(s, name, k) == Some(j),
    decreases j - k,
{
    if k < j {
        lemma_find_unique(s, name, j, k + 1);
    }
}

proof fn lemma_place_exact(hosts: Seq<SshHost>, taken: Set<SshHost>, f: Seq<SshHost>)
    requires
        distinct_names(hosts),
        f.no_duplicates(),
        forall|i: int| 0 <= i < f.len() ==> hosts.contains(#[trigger] f[i]) && !taken.contains(f[i]),
    ensures
        place(slots_without(hosts, taken), names_of(f)) == (
            slots_without(hosts, taken.union(f.to_set())),
            f,
        ),
    decreases f.len(),
{
    if f.len() == 0 {
        assert(taken.union(f.to_set()) =~= taken);
        assert(names_of(f) =~= Seq::<Seq<char>>::empty());
    } else {
        let fd = f.drop_last();
        let h = f.last();
        assert forall|i: int| 0 <= i < fd.len() implies hosts.contains(#[trigger] fd[i])
            && !taken.contains(fd[i]) by {
            assert(fd[i] == f[i]);
        }
        lemma_place_exact(hosts, taken, fd);
        assert(names_of(f).drop_last() =~= names_of(fd));
        assert(names_of(f).last() == h.name@);
        let t1 = taken.union(fd.to_set());
        let s1 = slots_without(hosts, t1);
        assert(hosts.contains(f[f.len() - 1]));
        let j = choose|j: int| 0 <= j < hosts.len() && hosts[j] == h;
        assert(!fd.to_set().contains(h)) by {
            if fd.contains(h) {
                let i = choose|i: int| 0 <= i < fd.len() && fd[i] == h;
                assert(f[i] == f[f.len() - 1]);
            }
        }
        assert(!t1.contains(h));
        assert(s1[j] == Some(h));
        assert forall|i: int| 0 <= i < j implies !holds_named(#[trigger] s1[i], h.name@) by {
            if holds_named(s1[i], h.name@) {
                assert(hosts[i].name@ == hosts[j].name@);
            }
        }
        lemma_find_unique(s1, h.name@, j, 0);
        let t2 = taken.union(f.to_set());
        assert(t2 =~= t1.insert(h)) by {
            assert forall|x: SshHost| f.to_set().contains(x) <==> (fd.to_set().contains(x) || x == h) by {
                if f.contains(x) {
                    let i = choose|i: int| 0 <= i < f.len() && f[i] == x;
                    if i < f.len() - 1 {
                        assert(fd[i] == x);
                    }
                }
                if fd.contains(x) {
                    let i = choose|i: int| 0 <= i < fd.len() && fd[i] == x;
                    assert(f[i] == x);
                }
                if x == h {
                    assert(f[f.len() - 1] == x);
                }
            }
        }
        assert(s1.update(j, None) =~= slots_without(hosts, t2)) by {
            assert forall|i: int| 0 <= i < hosts.len() implies #[trigger] s1.update(j, None)[i]
                == slots_without(hosts, t2)[i] by {
                if i != j && hosts[i] == h {
                    if i < j {
                        assert(hosts[i].name@ != hosts[j].name@);
                    } else {
                        assert(hosts[j].name@ != hosts[i].name@);
                    }
                }
            }
        }
        assert(fd.push(h) =~= f);
    }
}

proof fn lemma_flat_push(rows: Seq<RowModel<SshHost>>, r: RowModel<SshHost>)
    ensures
        flat(rows.push(r)) =~= flat(rows) + r.hosts,
{
    let hs = rows.map_values(|x: RowModel<SshHost>| x.hosts);
    assert(rows.push(r).map_values(|x: RowModel<SshHost>| x.hosts) =~= hs.push(r.hosts));
    hs.lemma_flatten_push(r.hosts);
}

proof fn lemma_place_rows_exact(hosts: Seq<SshHost>, taken: Set<SshHost>, rows: Seq<RowModel<SshHost>>)
    requires
        distinct_names(hosts),
        flat(rows).no_duplicates(),
        forall|i: int|
            0 <= i < flat(rows).len() ==> hosts.contains(#[trigger] flat(rows)[i]) && !taken.contains(
                flat(rows)[i],
            ),
    ensures
        place_rows(slots_without(hosts, taken), saved_rows(rows)) == (
            slots_without(hosts, taken.union(flat(rows).to_set())),
            rows,
        ),
    decreases rows.len(),
{
    if rows.len() == 0 {
        assert(rows.map_values(|x: RowModel<SshHost>| x.hosts) =~= Seq::<Seq<SshHost>>::empty());
        assert(flat(rows) =~= Seq::<SshHost>::empty());
        assert(taken.union(flat(rows).to_set()) =~= taken);
        assert(saved_rows(rows) =~= Seq::<GridRowView>::empty());
        assert(rows =~= Seq::<RowModel<SshHost>>::empty());
    } else {
        let rd = rows.drop_last();
        let last = rows.last();
        assert(rd.push(last) =~= rows);
        lemma_flat_push(rd, last);
        let fr = flat(rd);
        let fl = last.hosts;
        assert(flat(rows) =~= fr + fl);
        assert(fr.no_duplicates()) by {
            assert forall|i: int, j: int| 0 <= i < fr.len() && 0 <= j < fr.len() && i != j implies fr[i]
                != fr[j] by {
                assert(flat(rows)[i] == fr[i] && flat(rows)[j] == fr[j]);
            }
        }
        assert(fl.no_duplicates()) by {
            assert forall|i: int, j: int| 0 <= i < fl.len() && 0 <= j < fl.len() && i != j implies fl[i]
                != fl[j] by {
                assert(flat(rows)[fr.len() + i] == fl[i] && flat(rows)[fr.len() + j] == fl[j]);
            }
        }
        assert forall|i: int| 0 <= i < fr.len() implies hosts.contains(#[trigger] fr[i]) && !taken.contains(
            fr[i],
        ) by {
            assert(flat(rows)[i] == fr[i]);
        }
        lemma_place_rows_exact(hosts, taken, rd);
        let t1 = taken.union(fr.to_set());
        assert forall|i: int| 0 <= i < fl.len() implies hosts.contains(#[trigger] fl[i]) && !t1.contains(
            fl[i],
        ) by {
            assert(flat(rows)[fr.len() + i] == fl[i]);
            if fr.contains(fl[i]) {
                let k = choose|k: int| 0 <= k < fr.len() && fr[k] == fl[i];
                assert(flat(rows)[k] == fr[k]);
            }
        }
        lemma_place_exact(hosts, t1, fl);
        assert(saved_rows(rows).drop_last() =~= saved_rows(rd));
        assert(saved_rows(rows).last() == GridRowView { name: last.name, hosts: names_of(fl) });
        assert(t1.union(fl.to_set()) =~= taken.union(flat(rows).to_set())) by {
            assert forall|x: SshHost| flat(rows).to_set().contains(x) <==> (fr.to_set().contains(x)
                || fl.to_set().contains(x)) by {
                if flat(rows).contains(x) {
                    let i = choose|i: int| 0 <= i < flat(rows).len() && flat(rows)[i] == x;
                    if i < fr.len() {
                        assert(fr[i] == x);
                    } else {
                        assert(fl[i - fr.len()] == x);
                    }
                }
                if fr.contains(x) {
                    let i = choose|i: int| 0 <= i < fr.len() && fr[i] == x;
                    assert(flat(rows)[i] == x);
                }
                if fl.contains(x) {
                    let i = choose|i: int| 0 <= i < fl.len() && fl[i] == x;
                    assert(flat(rows)[fr.len() + i] == x);
                }
            }
        }
        assert(RowModel { name: last.name, hosts: fl } == last);
    }
}

proof fn lemma_leftover_empty(s: Seq<Option<SshHost>>)
    requires
        forall|i: int| 0 <= i < s.len() ==> #[trigger] s[i] is None,
    ensures
        leftover(s) =~= Seq::<SshHost>::empty(),
    decreases s.len(),
{
    if s.len() > 0 {
        lemma_leftover_empty(s.drop_last());
        assert(s[s.len() - 1] is None);
    }
}

proof fn lemma_nonempty_rows_all<H>(rows: Seq<RowModel<H>>)
    requires
        forall|i: int| 0 <= i < rows.len() ==> #[trigger] rows[i].hosts.len() > 0,
    ensures
        nonempty_rows(rows) =~= rows,
    decreases rows.len(),
{
    if rows.len() > 0 {
        lemma_nonempty_rows_all(rows.drop_last());
        assert(rows[rows.len() - 1].hosts.len() > 0);
        assert(rows.drop_last().push(rows.last()) =~= rows);
    }
}

proof fn lemma_hosts_in_flat(rows: Seq<RowModel<SshHost>>)
    ensures
        hosts_in(rows) =~= flat(rows).to_multiset(),
    decreases rows.len(),
{
    broadcast use vstd::multiset::group_multiset_axioms;

    if rows.len() == 0 {
        assert(rows.map_values(|x: RowModel<SshHost>| x.hosts) =~= Seq::<Seq<SshHost>>::empty());
        assert(flat(rows) =~= Seq::<SshHost>::empty());
        assert forall|v: SshHost| #[trigger] flat(rows).to_multiset().count(v) == 0 by {
            broadcast use vstd::seq_lib::group_to_multiset_ensures;

            assert(!flat(rows).contains(v));
        }
        assert(flat(rows).to_multiset() =~= Multiset::empty());
    } else {
        let rd = rows.drop_last();
        lemma_hosts_in_flat(rd);
        assert(rd.push(rows.last()) =~= rows);
        lemma_flat_push(rd, rows.last());
        vstd::seq_lib::lemma_multiset_commutative(flat(rd), rows.last().hosts);
    }
}

/// A dashboard saved as a layout (its rows' names and host names, and its
/// hidden host names) and started again from that layout, with the same
/// hosts in any order, gets back its rows, their order and names, and its
/// hidden hosts. This holds when the hosts' names differ and every row
/// holds a host: a row without hosts is dropped on start.
pub proof fn lemma_restart_from_saved_layout(
    m: DashModel<SshHost>,
    hosts: Seq<SshHost>,
    term_cols: u16,
    term_rows: u16,
)
    requires
        distinct_names(hosts),
        hosts.to_multiset() =~= held(m),
        m.rows.len() > 0,
        forall|i: int| 0 <= i < m.rows.len() ==> #[trigger] m.rows[i].hosts.len() > 0,
    ensures
        initial_model(hosts, saved_layout(m), term_cols, term_rows).rows == m.rows,
        initial_model(hosts, saved_layout(m), term_cols, term_rows).hidden == m.hidden,
{
    broadcast use vstd::multiset::group_multiset_axioms;
    broadcast use vstd::seq_lib::group_to_multiset_ensures;

    let fr = flat(m.rows);
    let all = fr + m.hidden;
    lemma_hosts_in_flat(m.rows);
    vstd::seq_lib::lemma_multiset_commutative(fr, m.hidden);
    assert(all.to_multiset() =~= hosts.to_multiset());
    // the hosts, and so the dashboard's hosts, have no duplicates
    assert(hosts.no_duplicates()) by {
        assert forall|i: int, j: int| 0 <= i < hosts.len() && 0 <= j < hosts.len() && i != j implies hosts[i]
            != hosts[j] by {
            if i < j {
                assert(hosts[i].name@ != hosts[j].name@);
            } else {
                assert(hosts[j].name@ != hosts[i].name@);
            }
        }
    }
    hosts.lemma_multiset_has_no_duplicates();
    all.lemma_multiset_has_no_duplicates_conv();
    assert forall|i: int| 0 <= i < all.len() implies hosts.contains(#[trigger] all[i]) by {
        assert(all.to_multiset().count(all[i]) > 0);
    }
    // the rows, then the hidden hosts
    assert(fr.no_duplicates()) by {
        assert forall|i: int, j: int| 0 <= i < fr.len() && 0 <= j < fr.len() && i != j implies fr[i]
            != fr[j] by {
            assert(all[i] == fr[i] && all[j] == fr[j]);
        }
    }
    assert forall|i: int| 0 <= i < fr.len() implies hosts.contains(#[trigger] fr[i]) && !Set::<
        SshHost,
    >::empty().contains(fr[i]) by {
        assert(all[i] == fr[i]);
    }
    let s0 = slots_without(hosts, Set::empty());
    assert(initial_slots(hosts) =~= s0) by {
        assert forall|j: int| 0 <= j < hosts.len() implies last_of_its_name(hosts, j) by {}
    }
    lemma_place_rows_exact(hosts, Set::empty(), m.rows);
    let t1 = Set::<SshHost>::empty().union(fr.to_set());
    assert(m.hidden.no_duplicates()) by {
        assert forall|i: int, j: int| 0 <= i < m.hidden.len() && 0 <= j < m.hidden.len() && i != j implies m.hidden[i]
            != m.hidden[j] by {
            assert(all[fr.len() + i] == m.hidden[i] && all[fr.len() + j] == m.hidden[j]);
        }
    }
    assert forall|i: int| 0 <= i < m.hidden.len() implies hosts.contains(#[trigger] m.hidden[i])
        && !t1.contains(m.hidden[i]) by {
        assert(all[fr.len() + i] == m.hidden[i]);
        if fr.contains(m.hidden[i]) {
            let k = choose|k: int| 0 <= k < fr.len() && fr[k] == m.hidden[i];
            assert(all[k] == fr[k]);
        }
    }
    lemma_place_exact(hosts, t1, m.hidden);
    let t2 = t1.union(m.hidden.to_set());
    let s2 = slots_without(hosts, t2);
    assert forall|j: int| 0 <= j < s2.len() implies #[trigger] s2[j] is None by {
        assert(hosts.to_multiset().count(hosts[j]) > 0);
        assert(all.contains(hosts[j]));
        let i = choose|i: int| 0 <= i < all.len() && all[i] == hosts[j];
        if i < fr.len() {
            assert(fr[i] == hosts[j]);
            assert(fr.to_set().contains(hosts[j]));
        } else {
            assert(m.hidden[i - fr.len()] == hosts[j]);
            assert(m.hidden.to_set().contains(hosts[j]));
        }
    }
    lemma_leftover_empty(s2);
    lemma_nonempty_rows_all(m.rows);
    assert(saved_layout(m).rows == saved_rows(m.rows));
}

} // verus!
