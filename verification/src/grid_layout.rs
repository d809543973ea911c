//! The arrangement of hosts into named rows, as saved between runs.
use vstd::prelude::*;

use crate::text::{decimal, decimal_chars, push_chars, string_of};

verus! {

pub const MAX_HOSTS_PER_ROW: usize = 10;

/// A row in the grid layout.
#[derive(Debug, Clone)]
pub struct GridRow {
    pub name: String,
    pub hosts: Vec<String>,
}

/// Full grid layout: the named rows of host names, and the hidden host names.
#[derive(Debug, Clone)]
pub struct GridLayout {
    pub rows: Vec<GridRow>,
    pub hidden: Vec<String>,
}

pub struct GridRowView {
    pub name: Seq<char>,
    pub hosts: Seq<Seq<char>>,
}

pub struct GridLayoutView {
    pub rows: Seq<GridRowView>,
    pub hidden: Seq<Seq<char>>,
}

/// The strings `v`, each taken by its view.
pub open spec fn strs(v: Seq<String>) -> Seq<Seq<char>> {
    v.map_values(|s: String| s@)
}

impl View for GridRow {
    type V = GridRowView;

    open spec fn view(&self) -> GridRowView {
        GridRowView { name: self.name@, hosts: strs(self.hosts@) }
    }
}

impl View for GridLayout {
    type V = GridLayoutView;

    open spec fn view(&self) -> GridLayoutView {
        GridLayoutView {
            rows: self.rows@.map_values(|r: GridRow| r@),
            hidden: strs(self.hidden@),
        }
    }
}

/// The name given to the `k`-th row (counting from 1): `"Row k"`.
pub open spec fn row_name(k: nat) -> Seq<char> {
    seq!['R', 'o', 'w', ' '] + decimal(k)
}

/// The number of rows `from_hosts` makes for `n` hosts.
pub open spec fn row_count(n: nat) -> nat {
    if n == 0 {
        1
    } else {
        ((n + 9) / 10) as nat
    }
}

/// Hosts `names[10r ..]`, at most ten of them.
pub open spec fn chunk(names: Seq<Seq<char>>, r: int) -> Seq<Seq<char>> {
    let lo = 10 * r;
    let hi = if lo + 10 <= names.len() {
        lo + 10
    } else {
        names.len() as int
    };
    names.subrange(lo, hi)
}

/// The default layout for `names`: consecutive runs of ten names per row,
/// named `Row 1`, `Row 2`, ...; a single empty `Row 1` when there are none.
pub open spec fn default_layout(names: Seq<Seq<char>>) -> GridLayoutView {
    GridLayoutView {
        rows: Seq::new(
            row_count(names.len()),
            |r: int| GridRowView { name: row_name((r + 1) as nat), hosts: chunk(names, r) },
        ),
        hidden: seq![],
    }
}

/// The name of the `k`-th row.
pub fn row_name_string(k: u64) -> (s: String)
    ensures
        s@ == row_name(k as nat),
{
    let mut v: Vec<char> = vec!['R', 'o', 'w', ' '];
    let d = decimal_chars(k);
    push_chars(&mut v, &d);
    string_of(&v)
}

/// Copies of the strings `v[from..to]`.
pub fn copy_strings(v: &[String], from: usize, to: usize) -> (r: Vec<String>)
    requires
        from <= to <= v@.len(),
    ensures
        strs(r@) == strs(v@).subrange(from as int, to as int),
{
    let mut r: Vec<String> = Vec::new();
    let mut i = from;
    while i < to
        invariant
            from <= i <= to <= v@.len(),
            strs(r@) == strs(v@).subrange(from as int, i as int),
        decreases to - i,
    {
        let ghost prev = strs(r@);
        r.push(v[i].clone());
        assert(strs(r@) =~= prev.push(v@[i as int]@));
        assert(strs(v@).subrange(from as int, i + 1) =~= strs(v@).subrange(from as int, i as int).push(
            v@[i as int]@,
        ));
        i = i + 1;
    }
    r
}

impl GridLayout {
    /// Create a default layout from a list of host names.
    /// Distributes hosts into rows of up to MAX_HOSTS_PER_ROW.
    pub fn from_hosts(host_names: &[String]) -> (layout: Self)
        ensures
            layout@ == default_layout(strs(host_names@)),
    {
        let n = host_names.len();
        let ghost names = strs(host_names@);
        let ghost want = default_layout(names);
        let mut rows: Vec<GridRow> = Vec::new();
        let mut start: usize = 0;
        let mut k: u64 = 0;
        while start < n
            invariant
                n == host_names@.len() == names.len(),
                names == strs(host_names@),
                want == default_layout(names),
                start <= n,
                start == 10 * k || start == n,
                k as int == (start + 9) / 10,
                k as int == rows@.len(),
                forall|r: int| 0 <= r < k ==> #[trigger] rows@[r]@ == want.rows[r],
            decreases n - start,
        {
            let end = if n - start >= MAX_HOSTS_PER_ROW {
                start + MAX_HOSTS_PER_ROW
            } else {
                n
            };
            let row = GridRow { name: row_name_string(k + 1), hosts: copy_strings(host_names, start, end) };
            assert(row@ == want.rows[k as int]);
            rows.push(row);
            k = k + 1;
            start = end;
        }
        assert(n > 0 ==> rows@.len() == row_count(n as nat));
        if rows.len() == 0 {
            rows.push(GridRow { name: row_name_string(1), hosts: Vec::new() });
            assert(rows@[0]@.hosts =~= want.rows[0].hosts);
        }
        let layout = GridLayout { rows, hidden: Vec::new() };
        assert(layout@.rows =~= want.rows);
        assert(layout@.hidden =~= want.hidden);
        layout
    }

    /// Build a layout from the rows and hidden hosts of a dashboard (for saving).
    pub fn from_dashboard_rows(rows: &[(String, Vec<String>)], hidden: &[String]) -> (layout: Self)
        ensures
            layout@.rows.len() == rows@.len(),
            forall|i: int|
                0 <= i < rows@.len() ==> #[trigger] layout@.rows[i] == (GridRowView {
                    name: rows@[i].0@,
                    hosts: strs(rows@[i].1@),
                }),
            layout@.hidden == strs(hidden@),
    {
        let mut out: Vec<GridRow> = Vec::new();
        let mut i: usize = 0;
        while i < rows.len()
            invariant
                i <= rows@.len(),
                out@.len() == i,
                forall|j: int|
                    0 <= j < i ==> #[trigger] out@[j]@ == (GridRowView {
                        name: rows@[j].0@,
                        hosts: strs(rows@[j].1@),
                    }),
            decreases rows@.len() - i,
        {
            let (name, hosts) = &rows[i];
            let row = GridRow {
                name: name.clone(),
                hosts: copy_strings(hosts.as_slice(), 0, hosts.len()),
            };
            assert(strs(hosts@).subrange(0, hosts@.len() as int) =~= strs(hosts@));
            out.push(row);
            i = i + 1;
        }
        let hid = copy_strings(hidden, 0, hidden.len());
        assert(strs(hidden@).subrange(0, hidden@.len() as int) =~= strs(hidden@));
        GridLayout { rows: out, hidden: hid }
    }
}

/// The host lists of the rows `rows`.
pub open spec fn row_hosts(rows: Seq<GridRowView>) -> Seq<Seq<Seq<char>>> {
    rows.map_values(|r: GridRowView| r.hosts)
}

proof fn lemma_chunks_concatenate(names: Seq<Seq<char>>, k: int)
    requires
        0 <= k <= row_count(names.len()),
    ensures
        row_hosts(default_layout(names).rows).take(k).flatten() =~= names.take(
            if 10 * k <= names.len() {
                10 * k
            } else {
                names.len() as int
            },
        ),
    decreases k,
{
    let hs = row_hosts(default_layout(names).rows);
    if k == 0 {
        assert(hs.take(0) =~= Seq::<Seq<Seq<char>>>::empty());
    } else {
        lemma_chunks_concatenate(names, k - 1);
        assert(hs.take(k) =~= hs.take(k - 1).push(hs[k - 1]));
        hs.take(k - 1).lemma_flatten_push(hs[k - 1]);
        assert(hs[k - 1] == chunk(names, k - 1));
        let lo = if 10 * (k - 1) <= names.len() {
            10 * (k - 1)
        } else {
            names.len() as int
        };
        assert(10 * (k - 1) <= names.len() || names.len() == 0);
        assert(names.take(lo) + chunk(names, k - 1) =~= names.take(
            if 10 * k <= names.len() {
                10 * k
            } else {
                names.len() as int
            },
        ));
    }
}

/// `from_hosts` puts the names, in their order, into rows of at most
/// `MAX_HOSTS_PER_ROW` hosts, every row but the last one full.
pub proof fn lemma_default_layout_distributes(names: Seq<Seq<char>>)
    ensures
        forall|r: int|
            0 <= r < default_layout(names).rows.len() ==> #[trigger] default_layout(
                names,
            ).rows[r].hosts.len() <= MAX_HOSTS_PER_ROW,
        forall|r: int|
            0 <= r < default_layout(names).rows.len() - 1 ==> #[trigger] default_layout(
                names,
            ).rows[r].hosts.len() == MAX_HOSTS_PER_ROW,
        row_hosts(default_layout(names).rows).flatten() == names,
        default_layout(names).hidden.len() == 0,
{
    let n = row_count(names.len());
    lemma_chunks_concatenate(names, n as int);
    assert(row_hosts(default_layout(names).rows).take(n as int) =~= row_hosts(
        default_layout(names).rows,
    ));
    assert(names.take(names.len() as int) =~= names);
}

} // verus!
