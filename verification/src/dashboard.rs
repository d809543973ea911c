//! The dashboard: hosts arranged in named rows of tiles, a hidden section,
//! a cursor, and the modes (move, rename, focus) that act on them.
//!
//! The dashboard is generic in the host handle `H` it arranges: its logic
//! never looks inside a host.
use vstd::prelude::*;

use crate::grid_layout::{row_name, row_name_string, MAX_HOSTS_PER_ROW};
use crate::metrics::{next_metric, MetricType};

verus! {

/// Which panel is selected/focused in the focus view.
#[derive(Debug, Clone, Copy, PartialEq, Eq, Structural)]
pub enum FocusPanel {
    Sidebar,
    Disk,
    SysInfo,
    Main,
    Terminal,
}

/// State within focus mode.
#[derive(Debug, Clone, Copy, PartialEq, Eq, Structural)]
pub enum FocusState {
    /// Arrow keys move between panels.
    PanelSelect,
    /// Selected panel receives input.
    PanelFocused,
}

/// Cardinal direction for panel navigation.
#[derive(Debug, Clone, Copy, PartialEq, Eq, Structural)]
pub enum NavDirection {
    Up,
    Down,
    Left,
    Right,
}

/// The panel that `dir` leads to from `p` in the focus view:
/// ```text
///  Sidebar | Disk | SysInfo
///          |    Main
///        Terminal
/// ```
pub open spec fn panel_after(p: FocusPanel, dir: NavDirection) -> FocusPanel {
    match (p, dir) {
        (FocusPanel::Sidebar, NavDirection::Right) => FocusPanel::Disk,
        (FocusPanel::Sidebar, NavDirection::Down) => FocusPanel::Terminal,
        (FocusPanel::Disk, NavDirection::Left) => FocusPanel::Sidebar,
        (FocusPanel::Disk, NavDirection::Right) => FocusPanel::SysInfo,
        (FocusPanel::Disk, NavDirection::Down) => FocusPanel::Main,
        (FocusPanel::SysInfo, NavDirection::Left) => FocusPanel::Disk,
        (FocusPanel::SysInfo, NavDirection::Down) => FocusPanel::Main,
        (FocusPanel::Main, NavDirection::Left) => FocusPanel::Sidebar,
        (FocusPanel::Main, NavDirection::Up) => FocusPanel::Disk,
        (FocusPanel::Main, NavDirection::Down) => FocusPanel::Terminal,
        (FocusPanel::Terminal, NavDirection::Up) => FocusPanel::Main,
        (current, _) => current,
    }
}

/// The panel that `dir` leads to from `p` in the focus view.
pub fn next_panel(p: FocusPanel, dir: NavDirection) -> (r: FocusPanel)
    ensures
        r == panel_after(p, dir),
{
    match (p, dir) {
        (FocusPanel::Sidebar, NavDirection::Right) => FocusPanel::Disk,
        (FocusPanel::Sidebar, NavDirection::Down) => FocusPanel::Terminal,
        (FocusPanel::Disk, NavDirection::Left) => FocusPanel::Sidebar,
        (FocusPanel::Disk, NavDirection::Right) => FocusPanel::SysInfo,
        (FocusPanel::Disk, NavDirection::Down) => FocusPanel::Main,
        (FocusPanel::SysInfo, NavDirection::Left) => FocusPanel::Disk,
        (FocusPanel::SysInfo, NavDirection::Down) => FocusPanel::Main,
        (FocusPanel::Main, NavDirection::Left) => FocusPanel::Sidebar,
        (FocusPanel::Main, NavDirection::Up) => FocusPanel::Disk,
        (FocusPanel::Main, NavDirection::Down) => FocusPanel::Terminal,
        (FocusPanel::Terminal, NavDirection::Up) => FocusPanel::Main,
        (current, _) => current,
    }
}

/// A row of hosts in the dashboard grid.
pub struct DashboardRow<H> {
    pub name: String,
    pub hosts: Vec<H>,
}

/// Dashboard manages multiple hosts in a row-based grid layout.
pub struct Dashboard<H> {
    pub rows: Vec<DashboardRow<H>>,
    /// Hosts that are hidden from the grid.
    pub hidden_hosts: Vec<H>,
    /// Whether the hidden section is visible.
    pub show_hidden: bool,
    /// Currently selected row index.
    pub selected_row: usize,
    /// Currently selected column index within the row.
    pub selected_col: usize,
    /// Currently focused session (row, col) — None = grid view.
    pub focused: Option<(usize, usize)>,
    /// Password input buffer.
    pub password_input: String,
    /// Whether we're in password input mode.
    pub entering_password: bool,
    /// Full terminal dimensions.
    pub term_cols: u16,
    pub term_rows: u16,
    /// Which metric to display in tile sparklines.
    pub active_metric: MetricType,
    /// Which panel is highlighted in focus mode.
    pub focus_panel: FocusPanel,
    /// Whether we are selecting a panel or focused into one.
    pub focus_state: FocusState,
    pub move_mode: bool,
    pub move_origin: Option<(usize, usize)>,
    pub rename_mode: bool,
    pub rename_input: String,
    /// (target_row_index, frame_counter) — active when move is blocked by a full row.
    pub shake_frame: Option<(usize, u8)>,
    /// Whether the cursor is currently in the hidden section.
    pub in_hidden_section: bool,
    /// Selected index within the hidden section.
    pub hidden_selected: usize,
}

// ---------------------------------------------------------------------------
// Model
// ---------------------------------------------------------------------------

pub struct RowModel<H> {
    pub name: Seq<char>,
    pub hosts: Seq<H>,
}

/// The value of a dashboard: its fields, with rows, hosts and texts by their views.
pub struct DashModel<H> {
    pub rows: Seq<RowModel<H>>,
    pub hidden: Seq<H>,
    pub show_hidden: bool,
    pub selected_row: usize,
    pub selected_col: usize,
    pub focused: Option<(usize, usize)>,
    pub password_input: Seq<char>,
    pub entering_password: bool,
    pub term_cols: u16,
    pub term_rows: u16,
    pub active_metric: MetricType,
    pub focus_panel: FocusPanel,
    pub focus_state: FocusState,
    pub move_mode: bool,
    pub move_origin: Option<(usize, usize)>,
    pub rename_mode: bool,
    pub rename_input: Seq<char>,
    pub shake_frame: Option<(usize, u8)>,
    pub in_hidden_section: bool,
    pub hidden_selected: usize,
}

pub open spec fn row_model<H>(r: DashboardRow<H>) -> RowModel<H> {
    RowModel { name: r.name@, hosts: r.hosts@ }
}

/// The rows `rows`, each taken by its model.
pub open spec fn models<H>(rows: Seq<DashboardRow<H>>) -> Seq<RowModel<H>> {
    rows.map_values(|r: DashboardRow<H>| row_model(r))
}

/// `rows` with the hosts of row `r` replaced by `hosts`.
pub open spec fn set_hosts<H>(rows: Seq<RowModel<H>>, r: int, hosts: Seq<H>) -> Seq<RowModel<H>> {
    rows.update(r, RowModel { name: rows[r].name, hosts })
}

/// `s` with the elements at `i` and `i + 1` exchanged.
pub open spec fn swap_adjacent<A>(s: Seq<A>, i: int) -> Seq<A> {
    s.update(i, s[i + 1]).update(i + 1, s[i])
}

impl<H> View for Dashboard<H> {
    type V = DashModel<H>;

    open spec fn view(&self) -> DashModel<H> {
        DashModel {
            rows: models(self.rows@),
            hidden: self.hidden_hosts@,
            show_hidden: self.show_hidden,
            selected_row: self.selected_row,
            selected_col: self.selected_col,
            focused: self.focused,
            password_input: self.password_input@,
            entering_password: self.entering_password,
            term_cols: self.term_cols,
            term_rows: self.term_rows,
            active_metric: self.active_metric,
            focus_panel: self.focus_panel,
            focus_state: self.focus_state,
            move_mode: self.move_mode,
            move_origin: self.move_origin,
            rename_mode: self.rename_mode,
            rename_input: self.rename_input@,
            shake_frame: self.shake_frame,
            in_hidden_section: self.in_hidden_section,
            hidden_selected: self.hidden_selected,
        }
    }
}

pub open spec fn min(a: usize, b: usize) -> usize {
    if a <= b {
        a
    } else {
        b
    }
}

/// `n - 1`, or 0 for 0 (`saturating_sub(1)`).
pub open spec fn dec(n: nat) -> usize {
    if n > 0 {
        (n - 1) as usize
    } else {
        0
    }
}

impl<H> DashModel<H> {
    /// The cursor designates a place that exists: a row (when there is one),
    /// a column of it (or column 0 of an empty row), and in the hidden section
    /// only while that is shown, a hidden host.
    pub open spec fn wf(self) -> bool {
        &&& self.rows.len() == 0 ==> self.selected_row == 0 && self.selected_col == 0
        &&& self.rows.len() > 0 ==> self.selected_row < self.rows.len() && (self.selected_col
            < self.rows[self.selected_row as int].hosts.len() || self.selected_col == 0)
        &&& self.in_hidden_section ==> self.show_hidden && self.hidden_selected
            < self.hidden.len()
    }

    /// The host at (row, col), if any.
    pub open spec fn host_at(self, row: int, col: int) -> Option<H> {
        if 0 <= row < self.rows.len() && 0 <= col < self.rows[row].hosts.len() {
            Some(self.rows[row].hosts[col])
        } else {
            None
        }
    }

    /// The host under the cursor, if any.
    pub open spec fn selected(self) -> Option<H> {
        if self.in_hidden_section {
            if self.hidden_selected < self.hidden.len() {
                Some(self.hidden[self.hidden_selected as int])
            } else {
                None
            }
        } else {
            self.host_at(self.selected_row as int, self.selected_col as int)
        }
    }

    // --- Grid navigation ---

    pub open spec fn moved_up(self) -> Self {
        if self.in_hidden_section {
            if self.rows.len() > 0 {
                let r = (self.rows.len() - 1) as usize;
                DashModel {
                    in_hidden_section: false,
                    selected_row: r,
                    selected_col: min(self.selected_col, dec(self.rows[r as int].hosts.len())),
                    ..self
                }
            } else {
                DashModel { in_hidden_section: false, ..self }
            }
        } else if self.selected_row > 0 {
            let r = (self.selected_row - 1) as usize;
            DashModel {
                selected_row: r,
                selected_col: min(self.selected_col, dec(self.rows[r as int].hosts.len())),
                ..self
            }
        } else {
            self
        }
    }

    pub open spec fn moved_down(self) -> Self {
        if self.in_hidden_section {
            self
        } else if self.selected_row + 1 < self.rows.len() {
            let r = (self.selected_row + 1) as usize;
            DashModel {
                selected_row: r,
                selected_col: min(self.selected_col, dec(self.rows[r as int].hosts.len())),
                ..self
            }
        } else if self.show_hidden && self.hidden.len() > 0 {
            DashModel { in_hidden_section: true, hidden_selected: 0, ..self }
        } else {
            self
        }
    }

    pub open spec fn moved_left(self) -> Self {
        if self.in_hidden_section {
            if self.hidden_selected > 0 {
                DashModel { hidden_selected: (self.hidden_selected - 1) as usize, ..self }
            } else {
                self
            }
        } else if self.selected_col > 0 {
            DashModel { selected_col: (self.selected_col - 1) as usize, ..self }
        } else {
            self
        }
    }

    pub open spec fn moved_right(self) -> Self {
        if self.in_hidden_section {
            if self.hidden_selected + 1 < self.hidden.len() {
                DashModel { hidden_selected: (self.hidden_selected + 1) as usize, ..self }
            } else {
                self
            }
        } else if self.selected_row < self.rows.len() && self.selected_col + 1 < self.rows[
            self.selected_row as int].hosts.len() {
            DashModel { selected_col: (self.selected_col + 1) as usize, ..self }
        } else {
            self
        }
    }

    // --- Modes ---

    pub open spec fn with_move_mode(self) -> Self {
        if self.in_hidden_section || self.rows.len() == 0 || (self.selected_row < self.rows.len()
            && self.rows[self.selected_row as int].hosts.len() == 0) {
            self
        } else {
            DashModel {
                move_mode: true,
                move_origin: Some((self.selected_row, self.selected_col)),
                ..self
            }
        }
    }

    pub open spec fn toggled_hidden(self) -> Self {
        let shown = !self.show_hidden;
        if !shown && self.in_hidden_section {
            if self.rows.len() > 0 {
                DashModel {
                    show_hidden: shown,
                    in_hidden_section: false,
                    selected_row: (self.rows.len() - 1) as usize,
                    selected_col: 0,
                    ..self
                }
            } else {
                DashModel { show_hidden: shown, in_hidden_section: false, ..self }
            }
        } else {
            DashModel { show_hidden: shown, ..self }
        }
    }

    pub open spec fn with_rename_mode(self) -> Self {
        if self.in_hidden_section || self.rows.len() == 0 {
            self
        } else {
            DashModel {
                rename_mode: true,
                rename_input: self.rows[self.selected_row as int].name,
                ..self
            }
        }
    }

    pub open spec fn renamed(self) -> Self {
        let base = DashModel { rename_mode: false, rename_input: seq![], ..self };
        if self.selected_row < self.rows.len() {
            let r = self.selected_row as int;
            DashModel {
                rows: self.rows.update(r, RowModel { name: self.rename_input, hosts: self.rows[r].hosts }),
                ..base
            }
        } else {
            base
        }
    }

    pub open spec fn rename_cancelled(self) -> Self {
        DashModel { rename_mode: false, rename_input: seq![], ..self }
    }

    // --- Focus ---

    pub open spec fn focused_on_selection(self) -> Self {
        if self.in_hidden_section || self.host_at(self.selected_row as int, self.selected_col as int) is None {
            self
        } else {
            DashModel {
                focused: Some((self.selected_row, self.selected_col)),
                focus_panel: FocusPanel::Terminal,
                focus_state: FocusState::PanelSelect,
                ..self
            }
        }
    }

    pub open spec fn unfocused(self) -> Self {
        DashModel {
            focused: None,
            entering_password: false,
            password_input: seq![],
            focus_panel: FocusPanel::Terminal,
            focus_state: FocusState::PanelSelect,
            ..self
        }
    }

    /// The focused host, if any.
    pub open spec fn focused_host(self) -> Option<H> {
        match self.focused {
            Some((r, c)) => self.host_at(r as int, c as int),
            None => None,
        }
    }


    /// Moving the host under the cursor (in move mode) one step in `dir`:
    /// left/right exchanges it with its neighbour in the row; down puts it
    /// first in the next row (a new row below the last one); up puts it last
    /// in the previous row. A full target row (MAX_HOSTS_PER_ROW hosts)
    /// refuses and starts the shake animation on it; a row left empty is
    /// removed. The cursor follows the host. The flag tells whether it moved.
    pub open spec fn host_moved(self, dir: NavDirection) -> (Self, bool) {
        let r = self.selected_row as int;
        let c = self.selected_col as int;
        if !self.move_mode {
            (self, false)
        } else {
            match dir {
                NavDirection::Right => if c + 1 < self.rows[r].hosts.len() {
                    (
                        DashModel {
                            rows: set_hosts(self.rows, r, swap_adjacent(self.rows[r].hosts, c)),
                            selected_col: (c + 1) as usize,
                            ..self
                        },
                        true,
                    )
                } else {
                    (self, false)
                },
                NavDirection::Left => if c == 0 {
                    (self, false)
                } else {
                    (
                        DashModel {
                            rows: set_hosts(self.rows, r, swap_adjacent(self.rows[r].hosts, c - 1)),
                            selected_col: (c - 1) as usize,
                            ..self
                        },
                        true,
                    )
                },
                NavDirection::Down => {
                    let host = self.rows[r].hosts[c];
                    let src = self.rows[r].hosts.remove(c);
                    let n = r + 1;
                    if n < self.rows.len() {
                        if self.rows[n].hosts.len() >= MAX_HOSTS_PER_ROW {
                            (DashModel { shake_frame: Some((n as usize, 6)), ..self }, false)
                        } else {
                            let rows1 = set_hosts(
                                set_hosts(self.rows, r, src),
                                n,
                                self.rows[n].hosts.insert(0, host),
                            );
                            if src.len() == 0 {
                                (
                                    DashModel {
                                        rows: rows1.remove(r),
                                        selected_row: r as usize,
                                        selected_col: 0,
                                        ..self
                                    },
                                    true,
                                )
                            } else {
                                (
                                    DashModel {
                                        rows: rows1,
                                        selected_row: n as usize,
                                        selected_col: 0,
                                        ..self
                                    },
                                    true,
                                )
                            }
                        }
                    } else {
                        let rows1 = set_hosts(self.rows, r, src).push(
                            RowModel { name: row_name(self.rows.len() + 1), hosts: seq![host] },
                        );
                        let rows2 = if src.len() == 0 {
                            rows1.remove(r)
                        } else {
                            rows1
                        };
                        (
                            DashModel {
                                rows: rows2,
                                selected_row: (rows2.len() - 1) as usize,
                                selected_col: 0,
                                ..self
                            },
                            true,
                        )
                    }
                },
                NavDirection::Up => if r == 0 {
                    (self, false)
                } else {
                    let p = r - 1;
                    if self.rows[p].hosts.len() >= MAX_HOSTS_PER_ROW {
                        (DashModel { shake_frame: Some((p as usize, 6)), ..self }, false)
                    } else {
                        let host = self.rows[r].hosts[c];
                        let src = self.rows[r].hosts.remove(c);
                        let rows1 = set_hosts(
                            set_hosts(self.rows, r, src),
                            p,
                            self.rows[p].hosts.push(host),
                        );
                        (
                            DashModel {
                                rows: if src.len() == 0 {
                                    rows1.remove(r)
                                } else {
                                    rows1
                                },
                                selected_row: p as usize,
                                selected_col: self.rows[p].hosts.len() as usize,
                                ..self
                            },
                            true,
                        )
                    }
                },
            }
        }
    }

    /// What `move_host` needs to stay within the rows: in move mode, the
    /// cursor's row exists, and its column does wherever a host is taken out.
    pub open spec fn can_move_host(self, dir: NavDirection) -> bool {
        let r = self.selected_row as int;
        let c = self.selected_col as int;
        self.move_mode ==> r < self.rows.len() && match dir {
            NavDirection::Right => c < usize::MAX,
            NavDirection::Left => c == 0 || c < self.rows[r].hosts.len(),
            NavDirection::Down => (r + 1 < self.rows.len() && self.rows[r + 1].hosts.len()
                >= MAX_HOSTS_PER_ROW) || c < self.rows[r].hosts.len(),
            NavDirection::Up => r == 0 || self.rows[r - 1].hosts.len() >= MAX_HOSTS_PER_ROW || c
                < self.rows[r].hosts.len(),
        }
    }

    /// Hiding the host under the cursor (in the grid), or showing it again
    /// (in the hidden section). A hidden host goes to the end of the hidden
    /// list; a row left empty is removed. A shown host goes to the end of the
    /// last row, or to a new row when that one is full (or when there is no
    /// row). The flag tells whether a host moved.
    pub open spec fn host_hidden(self) -> (Self, bool) {
        if self.in_hidden_section {
            let i = self.hidden_selected as int;
            if i < self.hidden.len() {
                let host = self.hidden[i];
                let hidden2 = self.hidden.remove(i);
                let rows2 = if self.rows.len() == 0 {
                    seq![RowModel { name: row_name(1), hosts: seq![host] }]
                } else {
                    let last = self.rows.len() - 1;
                    if self.rows[last].hosts.len() >= MAX_HOSTS_PER_ROW {
                        self.rows.push(
                            RowModel { name: row_name(self.rows.len() + 1), hosts: seq![host] },
                        )
                    } else {
                        set_hosts(self.rows, last, self.rows[last].hosts.push(host))
                    }
                };
                if hidden2.len() > 0 {
                    (
                        DashModel {
                            rows: rows2,
                            hidden: hidden2,
                            hidden_selected: min(self.hidden_selected, (hidden2.len() - 1) as usize),
                            ..self
                        },
                        true,
                    )
                } else {
                    (
                        DashModel {
                            rows: rows2,
                            hidden: hidden2,
                            in_hidden_section: false,
                            ..self
                        },
                        true,
                    )
                }
            } else {
                (self, false)
            }
        } else {
            let r = self.selected_row as int;
            let c = self.selected_col as int;
            if r < self.rows.len() && c < self.rows[r].hosts.len() {
                let host = self.rows[r].hosts[c];
                let src = self.rows[r].hosts.remove(c);
                let hidden2 = self.hidden.push(host);
                if src.len() == 0 {
                    let rows2 = self.rows.remove(r);
                    if rows2.len() > 0 {
                        (
                            DashModel {
                                rows: rows2,
                                hidden: hidden2,
                                selected_row: min(self.selected_row, (rows2.len() - 1) as usize),
                                selected_col: 0,
                                ..self
                            },
                            true,
                        )
                    } else {
                        (DashModel { rows: rows2, hidden: hidden2, ..self }, true)
                    }
                } else {
                    (
                        DashModel {
                            rows: set_hosts(self.rows, r, src),
                            hidden: hidden2,
                            selected_col: min(self.selected_col, dec(src.len())),
                            ..self
                        },
                        true,
                    )
                }
            } else {
                (self, false)
            }
        }
    }

    /// Cancelling move mode: the host under the cursor goes back to where the
    /// move started, and move mode ends.
    pub open spec fn move_cancelled(self) -> Self {
        match self.move_origin {
            None => DashModel { move_mode: false, ..self },
            Some((orig_row, orig_col)) => DashModel {
                move_origin: None,
                move_mode: false,
                ..self
            }.restored(orig_row, orig_col),
        }
    }

    /// The host under the cursor put back at (`orig_row`, `orig_col`): into
    /// that row at the column it was picked up from (or the row's end), a row emptied by
    /// taking it out being removed; when the origin row itself was emptied,
    /// it is recreated at its place; when the target row is gone, a new row
    /// is appended. The cursor follows the host.
    pub open spec fn restored(self, orig_row: usize, orig_col: usize) -> Self {
        let r = self.selected_row as int;
        let c = self.selected_col as int;
        if r < self.rows.len() && c < self.rows[r].hosts.len() {
            let host = self.rows[r].hosts[c];
            let src = self.rows[r].hosts.remove(c);
            let rows1 = set_hosts(self.rows, r, src);
            if src.len() == 0 && r == orig_row {
                let rows2 = rows1.remove(r);
                let at = min(orig_row, rows2.len() as usize) as int;
                let rows3 = rows2.insert(
                    at,
                    RowModel { name: row_name((orig_row + 1) as nat), hosts: seq![host] },
                );
                DashModel {
                    rows: rows3,
                    selected_row: min(orig_row, (rows3.len() - 1) as usize),
                    selected_col: 0,
                    ..self
                }
            } else {
                let rows2 = if src.len() == 0 {
                    rows1.remove(r)
                } else {
                    rows1
                };
                let target = if src.len() == 0 && orig_row > r {
                    orig_row - 1
                } else {
                    orig_row as int
                };
                if target < rows2.len() {
                    let col = min(orig_col, rows2[target].hosts.len() as usize) as int;
                    DashModel {
                        rows: set_hosts(rows2, target, rows2[target].hosts.insert(col, host)),
                        selected_row: target as usize,
                        selected_col: col as usize,
                        ..self
                    }
                } else {
                    let rows3 = rows2.push(
                        RowModel { name: row_name((target + 1) as nat), hosts: seq![host] },
                    );
                    DashModel {
                        rows: rows3,
                        selected_row: (rows3.len() - 1) as usize,
                        selected_col: 0,
                        ..self
                    }
                }
            }
        } else {
            self
        }
    }

    pub open spec fn shake_ticked(self) -> Self {
        match self.shake_frame {
            Some((row, counter)) => if counter > 0 {
                DashModel { shake_frame: Some((row, (counter - 1) as u8)), ..self }
            } else {
                DashModel { shake_frame: None, ..self }
            },
            None => self,
        }
    }
}

// ---------------------------------------------------------------------------
// Executable operations
// ---------------------------------------------------------------------------

fn min_usize(a: usize, b: usize) -> (r: usize)
    ensures
        r == min(a, b),
{
    if a <= b {
        a
    } else {
        b
    }
}


/// Takes the host at column `c` out of row `r`.
fn take_host<H>(rows: &mut Vec<DashboardRow<H>>, r: usize, c: usize) -> (h: H)
    requires
        r < old(rows)@.len(),
        c < old(rows)@[r as int].hosts@.len(),
    ensures
        h == models(old(rows)@)[r as int].hosts[c as int],
        final(rows)@.len() == old(rows)@.len(),
        forall|i: int| 0 <= i < final(rows)@.len() ==> #[trigger] models(final(rows)@)[i] == row_model(final(rows)@[i]),
        models(final(rows)@) == set_hosts(
            models(old(rows)@),
            r as int,
            models(old(rows)@)[r as int].hosts.remove(c as int),
        ),
{
    let ghost before = models(rows@);
    let mut row = rows.remove(r);
    let h = row.hosts.remove(c);
    rows.insert(r, row);
    assert(models(rows@) =~= set_hosts(before, r as int, before[r as int].hosts.remove(c as int)));
    h
}

/// Puts `h` at column `c` of row `r`.
fn put_host<H>(rows: &mut Vec<DashboardRow<H>>, r: usize, c: usize, h: H)
    requires
        r < old(rows)@.len(),
        c <= old(rows)@[r as int].hosts@.len(),
    ensures
        final(rows)@.len() == old(rows)@.len(),
        forall|i: int| 0 <= i < final(rows)@.len() ==> #[trigger] models(final(rows)@)[i] == row_model(final(rows)@[i]),
        models(final(rows)@) == set_hosts(
            models(old(rows)@),
            r as int,
            models(old(rows)@)[r as int].hosts.insert(c as int, h),
        ),
{
    let ghost before = models(rows@);
    let mut row = rows.remove(r);
    row.hosts.insert(c, h);
    rows.insert(r, row);
    assert(models(rows@) =~= set_hosts(before, r as int, before[r as int].hosts.insert(c as int, h)));
}

/// Exchanges the hosts at columns `c` and `c + 1` of row `r`.
fn swap_hosts<H>(rows: &mut Vec<DashboardRow<H>>, r: usize, c: usize)
    requires
        r < old(rows)@.len(),
        c + 1 < old(rows)@[r as int].hosts@.len(),
    ensures
        final(rows)@.len() == old(rows)@.len(),
        models(final(rows)@) == set_hosts(
            models(old(rows)@),
            r as int,
            swap_adjacent(models(old(rows)@)[r as int].hosts, c as int),
        ),
{
    let ghost before = models(rows@);
    let mut row = rows.remove(r);
    let ghost hs = row.hosts@;
    let len = row.hosts.len();
    assert(c + 1 < len);
    let x = row.hosts.remove(c + 1);
    row.hosts.insert(c, x);
    assert(row.hosts@ =~= swap_adjacent(hs, c as int));
    rows.insert(r, row);
    assert(models(rows@) =~= set_hosts(before, r as int, swap_adjacent(hs, c as int)));
}

/// Removes row `r`.
fn drop_row<H>(rows: &mut Vec<DashboardRow<H>>, r: usize)
    requires
        r < old(rows)@.len(),
    ensures
        final(rows)@.len() == old(rows)@.len() - 1,
        forall|i: int| 0 <= i < final(rows)@.len() ==> #[trigger] models(final(rows)@)[i] == row_model(final(rows)@[i]),
        models(final(rows)@) == models(old(rows)@).remove(r as int),
{
    let ghost before = models(rows@);
    rows.remove(r);
    assert(models(rows@) =~= before.remove(r as int));
}

/// Appends a row named `Row k` holding only `h`.
fn push_row<H>(rows: &mut Vec<DashboardRow<H>>, k: usize, h: H)
    ensures
        final(rows)@.len() == old(rows)@.len() + 1,
        forall|i: int| 0 <= i < final(rows)@.len() ==> #[trigger] models(final(rows)@)[i] == row_model(final(rows)@[i]),
        models(final(rows)@) == models(old(rows)@).push(
            RowModel { name: row_name(k as nat), hosts: seq![h] },
        ),
{
    let ghost before = models(rows@);
    let mut hosts: Vec<H> = Vec::new();
    hosts.push(h);
    rows.push(DashboardRow { name: row_name_string(k as u64), hosts });
    assert(models(rows@) =~= before.push(RowModel { name: row_name(k as nat), hosts: seq![h] }));
}

impl<H> Dashboard<H> {
    /// Get the session at (row, col).
    pub fn session_at(&self, row: usize, col: usize) -> (r: Option<&H>)
        ensures
            match self@.host_at(row as int, col as int) {
                Some(h) => r == Some(&h),
                None => r is None,
            },
    {
        if row < self.rows.len() && col < self.rows[row].hosts.len() {
            Some(&self.rows[row].hosts[col])
        } else {
            None
        }
    }

    /// Get the currently selected session.
    pub fn selected_session(&self) -> (r: Option<&H>)
        ensures
            match self@.selected() {
                Some(h) => r == Some(&h),
                None => r is None,
            },
    {
        if self.in_hidden_section {
            if self.hidden_selected < self.hidden_hosts.len() {
                Some(&self.hidden_hosts[self.hidden_selected])
            } else {
                None
            }
        } else {
            self.session_at(self.selected_row, self.selected_col)
        }
    }

    /// Total number of visible hosts.
    pub fn total_visible(&self) -> (n: usize)
        requires
            self@.rows.map_values(|r: RowModel<H>| r.hosts).flatten().len() <= usize::MAX,
        ensures
            n == self@.rows.map_values(|r: RowModel<H>| r.hosts).flatten().len(),
    {
        let ghost all = self@.rows.map_values(|r: RowModel<H>| r.hosts);
        let mut n: usize = 0;
        let mut i: usize = 0;
        while i < self.rows.len()
            invariant
                i <= self.rows@.len(),
                all == self@.rows.map_values(|r: RowModel<H>| r.hosts),
                all.flatten().len() <= usize::MAX,
                n == all.take(i as int).flatten().len(),
            decreases self.rows@.len() - i,
        {
            proof {
                assert(all.take(i + 1) =~= all.take(i as int).push(all[i as int]));
                all.take(i as int).lemma_flatten_push(all[i as int]);
                lemma_flatten_prefix_len(all, i + 1);
            }
            n = n + self.rows[i].hosts.len();
            i = i + 1;
        }
        assert(all.take(i as int) =~= all);
        n
    }

    // --- Grid navigation ---

    pub fn move_up(&mut self)
        requires
            old(self).in_hidden_section || old(self).selected_row <= old(self).rows@.len(),
        ensures
            final(self)@ == old(self)@.moved_up(),
    {
        if self.in_hidden_section {
            // Move out of hidden section to last grid row
            self.in_hidden_section = false;
            if self.rows.len() > 0 {
                self.selected_row = self.rows.len() - 1;
                let len = self.rows[self.selected_row].hosts.len();
                let max_col = if len > 0 {
                    len - 1
                } else {
                    0
                };
                self.selected_col = min_usize(self.selected_col, max_col);
            }
            return;
        }
        if self.selected_row > 0 {
            self.selected_row = self.selected_row - 1;
            // Clamp col to new row's length
            let len = self.rows[self.selected_row].hosts.len();
            let max_col = if len > 0 {
                len - 1
            } else {
                0
            };
            self.selected_col = min_usize(self.selected_col, max_col);
        }
    }

    pub fn move_down(&mut self)
        ensures
            final(self)@ == old(self)@.moved_down(),
    {
        if self.in_hidden_section {
            return;  // Already at bottom
        }
        let n = self.rows.len();
        if n > 0 && self.selected_row < n - 1 {
            self.selected_row = self.selected_row + 1;
            let len = self.rows[self.selected_row].hosts.len();
            let max_col = if len > 0 {
                len - 1
            } else {
                0
            };
            self.selected_col = min_usize(self.selected_col, max_col);
        } else if self.show_hidden && self.hidden_hosts.len() > 0 {
            // Move into hidden section
            self.in_hidden_section = true;
            self.hidden_selected = 0;
        }
    }

    pub fn move_left(&mut self)
        ensures
            final(self)@ == old(self)@.moved_left(),
    {
        if self.in_hidden_section {
            if self.hidden_selected > 0 {
                self.hidden_selected = self.hidden_selected - 1;
            }
            return;
        }
        if self.selected_col > 0 {
            self.selected_col = self.selected_col - 1;
        }
    }

    pub fn move_right(&mut self)
        ensures
            final(self)@ == old(self)@.moved_right(),
    {
        if self.in_hidden_section {
            let n = self.hidden_hosts.len();
            if n > 0 && self.hidden_selected < n - 1 {
                self.hidden_selected = self.hidden_selected + 1;
            }
            return;
        }
        if self.selected_row < self.rows.len() {
            let len = self.rows[self.selected_row].hosts.len();
            if len > 0 && self.selected_col < len - 1 {
                self.selected_col = self.selected_col + 1;
            }
        }
    }

    // --- Move mode ---

    pub fn enter_move_mode(&mut self)
        ensures
            final(self)@ == old(self)@.with_move_mode(),
    {
        if self.in_hidden_section || self.rows.len() == 0 {
            return;
        }
        if self.selected_row < self.rows.len() {
            if self.rows[self.selected_row].hosts.len() == 0 {
                return;
            }
        }
        self.move_mode = true;
        self.move_origin = Some((self.selected_row, self.selected_col));
    }

    /// Leaves move mode, keeping the host where it was moved to. The new
    /// arrangement is the one to save.
    pub fn confirm_move(&mut self)
        ensures
            final(self)@ == (DashModel { move_mode: false, move_origin: None, ..old(self)@ }),
    {
        self.move_mode = false;
        self.move_origin = None;
    }

    // --- Rename mode ---

    pub fn enter_rename_mode(&mut self)
        requires
            old(self).in_hidden_section || old(self).rows@.len() == 0 || old(self).selected_row
                < old(self).rows@.len(),
        ensures
            final(self)@ == old(self)@.with_rename_mode(),
    {
        if self.in_hidden_section || self.rows.len() == 0 {
            return;
        }
        self.rename_mode = true;
        self.rename_input = self.rows[self.selected_row].name.clone();
    }

    /// Gives the selected row the name typed, and leaves rename mode.
    /// Returns whether a row was renamed (the arrangement to save changed).
    pub fn confirm_rename(&mut self) -> (changed: bool)
        ensures
            final(self)@ == old(self)@.renamed(),
            changed == (old(self).selected_row < old(self).rows@.len()),
    {
        let changed = self.selected_row < self.rows.len();
        if changed {
            let ghost before = self@.rows;
            let i = self.selected_row;
            let mut row = self.rows.remove(i);
            row.name = self.rename_input.clone();
            self.rows.insert(i, row);
            assert(self@.rows =~= before.update(
                i as int,
                RowModel { name: self.rename_input@, hosts: before[i as int].hosts },
            ));
        }
        self.rename_mode = false;
        self.rename_input = String::new();
        changed
    }

    pub fn cancel_rename(&mut self)
        ensures
            final(self)@ == old(self)@.rename_cancelled(),
    {
        self.rename_mode = false;
        self.rename_input = String::new();
    }

    pub fn toggle_hidden(&mut self)
        ensures
            final(self)@ == old(self)@.toggled_hidden(),
    {
        self.show_hidden = !self.show_hidden;
        if !self.show_hidden && self.in_hidden_section {
            self.in_hidden_section = false;
            if self.rows.len() > 0 {
                self.selected_row = self.rows.len() - 1;
                self.selected_col = 0;
            }
        }
    }

    // --- Focus mode ---

    /// Enter focus mode on the currently selected tile. Returns whether focus
    /// was entered (the focused host may then need reconnecting).
    pub fn focus(&mut self) -> (entered: bool)
        ensures
            final(self)@ == old(self)@.focused_on_selection(),
            entered == (!old(self).in_hidden_section && old(self)@.host_at(
                old(self).selected_row as int,
                old(self).selected_col as int,
            ) is Some),
    {
        if self.in_hidden_section {
            return false;  // Can't focus hidden hosts
        }
        let row = self.selected_row;
        let col = self.selected_col;
        if self.session_at(row, col).is_none() {
            return false;
        }
        self.focused = Some((row, col));
        self.focus_panel = FocusPanel::Terminal;
        self.focus_state = FocusState::PanelSelect;
        true
    }

    /// Get the focused session.
    pub fn focused_session(&self) -> (r: Option<&H>)
        ensures
            match self@.focused_host() {
                Some(h) => r == Some(&h),
                None => r is None,
            },
    {
        match self.focused {
            Some((row, col)) => self.session_at(row, col),
            None => None,
        }
    }

    /// Exit focus mode, return to grid.
    pub fn unfocus(&mut self)
        ensures
            final(self)@ == old(self)@.unfocused(),
    {
        self.focused = None;
        self.entering_password = false;
        self.password_input = String::new();
        self.focus_panel = FocusPanel::Terminal;
        self.focus_state = FocusState::PanelSelect;
    }

    /// Move the panel selection highlight in the given direction.
    pub fn move_focus(&mut self, dir: NavDirection)
        ensures
            final(self)@ == (DashModel {
                focus_panel: panel_after(old(self).focus_panel, dir),
                ..old(self)@
            }),
    {
        self.focus_panel = next_panel(self.focus_panel, dir);
    }

    /// Submit the password typed: returns the line to send to the focused
    /// session (the password and a newline) when there is one, and clears the
    /// password input either way.
    pub fn submit_password(&mut self) -> (line: Option<String>)
        ensures
            final(self)@ == (DashModel {
                password_input: seq![],
                entering_password: false,
                ..old(self)@
            }),
            match old(self)@.focused_host() {
                Some(_) => line matches Some(l) && l@ == old(self).password_input@.push('\n'),
                None => line is None,
            },
    {
        let line = if self.focused_session().is_some() {
            let mut cs = crate::text::chars_of(self.password_input.as_str());
            cs.push('\n');
            Some(crate::text::string_of(&cs))
        } else {
            None
        };
        self.password_input = String::new();
        self.entering_password = false;
        line
    }


    /// Attempt to move the picked host in the given direction.
    /// Returns true if the move was successful.
    pub fn move_host(&mut self, dir: NavDirection) -> (moved: bool)
        requires
            old(self)@.can_move_host(dir),
            old(self)@.rows.len() < usize::MAX,
        ensures
            (final(self)@, moved) == old(self)@.host_moved(dir),
    {
        if !self.move_mode {
            return false;
        }
        match dir {
            NavDirection::Right => self.move_host_right(),
            NavDirection::Left => self.move_host_left(),
            NavDirection::Down => self.move_host_down(),
            NavDirection::Up => self.move_host_up(),
        }
    }

    fn move_host_right(&mut self) -> (moved: bool)
        requires
            old(self).move_mode,
            old(self)@.can_move_host(NavDirection::Right),
        ensures
            (final(self)@, moved) == old(self)@.host_moved(NavDirection::Right),
    {
        let ghost m = self@;
        let cur_row = self.selected_row;
        let cur_col = self.selected_col;
        // Exchange with the next host in the row, if there is one
        if cur_col + 1 < self.rows[cur_row].hosts.len() {
            swap_hosts(&mut self.rows, cur_row, cur_col);
            self.selected_col = cur_col + 1;
            return true;
        }
        false
    }

    fn move_host_left(&mut self) -> (moved: bool)
        requires
            old(self).move_mode,
            old(self)@.can_move_host(NavDirection::Left),
        ensures
            (final(self)@, moved) == old(self)@.host_moved(NavDirection::Left),
    {
        let cur_row = self.selected_row;
        let cur_col = self.selected_col;
        if cur_col == 0 {
            return false;
        }
        swap_hosts(&mut self.rows, cur_row, cur_col - 1);
        self.selected_col = cur_col - 1;
        true
    }

    fn move_host_down(&mut self) -> (moved: bool)
        requires
            old(self).move_mode,
            old(self)@.can_move_host(NavDirection::Down),
            old(self)@.rows.len() < usize::MAX,
        ensures
            (final(self)@, moved) == old(self)@.host_moved(NavDirection::Down),
    {
        let ghost m = self@;
        assert(forall|i: int| 0 <= i < self.rows@.len() ==> #[trigger] m.rows[i] == row_model(self.rows@[i]));
        let cur_row = self.selected_row;
        let cur_col = self.selected_col;
        let next_row = cur_row + 1;
        if next_row < self.rows.len() {
            // Check if target row is full
            if self.rows[next_row].hosts.len() >= MAX_HOSTS_PER_ROW {
                self.shake_frame = Some((next_row, 6));
                return false;
            }
            // Remove from current row, insert at beginning of next row
            let host = take_host(&mut self.rows, cur_row, cur_col);
            let ghost src = m.rows[cur_row as int].hosts.remove(cur_col as int);
            assert(models(self.rows@)[next_row as int] == m.rows[next_row as int]);
            put_host(&mut self.rows, next_row, 0, host);
            assert(models(self.rows@)[cur_row as int].hosts == src);
            // Remove empty row
            if self.rows[cur_row].hosts.len() == 0 {
                drop_row(&mut self.rows, cur_row);
                self.selected_row = cur_row;  // now points to what was next_row
            } else {
                self.selected_row = next_row;
            }
            self.selected_col = 0;
            true
        } else {
            // At last row: create a new row
            let host = take_host(&mut self.rows, cur_row, cur_col);
            let ghost src = m.rows[cur_row as int].hosts.remove(cur_col as int);
            let k = self.rows.len() + 1;
            push_row(&mut self.rows, k, host);
            assert(models(self.rows@)[cur_row as int].hosts == src);
            // Remove source row if empty
            if self.rows[cur_row].hosts.len() == 0 {
                drop_row(&mut self.rows, cur_row);
            }
            self.selected_row = self.rows.len() - 1;
            self.selected_col = 0;
            true
        }
    }

    fn move_host_up(&mut self) -> (moved: bool)
        requires
            old(self).move_mode,
            old(self)@.can_move_host(NavDirection::Up),
        ensures
            (final(self)@, moved) == old(self)@.host_moved(NavDirection::Up),
    {
        let ghost m = self@;
        assert(forall|i: int| 0 <= i < self.rows@.len() ==> #[trigger] m.rows[i] == row_model(self.rows@[i]));
        let cur_row = self.selected_row;
        let cur_col = self.selected_col;
        if cur_row == 0 {
            return false;
        }
        let prev_row = cur_row - 1;
        // Check if target row is full
        if self.rows[prev_row].hosts.len() >= MAX_HOSTS_PER_ROW {
            self.shake_frame = Some((prev_row, 6));
            return false;
        }
        // Remove from current row, insert at end of previous row
        let host = take_host(&mut self.rows, cur_row, cur_col);
        let ghost src = m.rows[cur_row as int].hosts.remove(cur_col as int);
        assert(models(self.rows@)[prev_row as int] == m.rows[prev_row as int]);
        let insert_col = self.rows[prev_row].hosts.len();
        let ghost prev_hosts = self.rows@[prev_row as int].hosts@;
        put_host(&mut self.rows, prev_row, insert_col, host);
        assert(prev_hosts.insert(insert_col as int, host) =~= prev_hosts.push(host));
        assert(models(self.rows@)[cur_row as int].hosts == src);
        // Remove empty row
        if self.rows[cur_row].hosts.len() == 0 {
            drop_row(&mut self.rows, cur_row);
        }
        self.selected_row = prev_row;
        self.selected_col = insert_col;
        true
    }

    /// Leave move mode, putting the picked host back where it was picked up.
    pub fn cancel_move(&mut self)
        requires
            match old(self).move_origin {
                Some((r, c)) => old(self).selected_row < old(self)@.rows.len()
                    && old(self).selected_col < old(self)@.rows[old(
                    self,
                ).selected_row as int].hosts.len() ==> r < usize::MAX,
                None => true,
            },
        ensures
            final(self)@ == old(self)@.move_cancelled(),
    {
        let origin = self.move_origin;
        self.move_origin = None;
        self.move_mode = false;
        if let Some((orig_row, orig_col)) = origin {
            // Put the host back where it was picked up
            if self.selected_row < self.rows.len() && self.selected_col
                < self.rows[self.selected_row].hosts.len() {
                self.put_back(orig_row, orig_col);
            }
        }
    }

    /// Takes the host under the cursor out of its row and puts it back at
    /// (`orig_row`, `orig_col`).
    fn put_back(&mut self, orig_row: usize, orig_col: usize)
        requires
            old(self).selected_row < old(self)@.rows.len(),
            old(self).selected_col < old(self)@.rows[old(self).selected_row as int].hosts.len(),
            orig_row < usize::MAX,
        ensures
            final(self)@ == old(self)@.restored(orig_row, orig_col),
    {
        let ghost m = self@;
        let cur_row = self.selected_row;
        let cur_col = self.selected_col;
        let ghost src = m.rows[cur_row as int].hosts.remove(cur_col as int);
        let ghost rows1 = set_hosts(m.rows, cur_row as int, src);
        let host = take_host(&mut self.rows, cur_row, cur_col);
        assert(models(self.rows@)[cur_row as int].hosts == src);
        let emptied = self.rows[cur_row].hosts.len() == 0;
        if emptied && cur_row == orig_row {
            drop_row(&mut self.rows, cur_row);
            self.recreate_row(orig_row, host, Ghost(rows1.remove(cur_row as int)));
            assert(self@ == m.restored(orig_row, orig_col));
            return;
        }
        let target_row = if emptied {
            drop_row(&mut self.rows, cur_row);
            // Adjust orig_row if it was after the removed row
            if orig_row > cur_row {
                orig_row - 1
            } else {
                orig_row
            }
        } else {
            orig_row
        };
        self.reinsert(target_row, orig_col, host);
        assert(self@ == m.restored(orig_row, orig_col));
    }

    /// Inserts a row `Row orig_row + 1` holding `host` at `orig_row` (or at
    /// the end), and moves the cursor onto it.
    fn recreate_row(&mut self, orig_row: usize, host: H, Ghost(rows): Ghost<Seq<RowModel<H>>>)
        requires
            orig_row < usize::MAX,
            models(old(self).rows@) == rows,
        ensures
            final(self)@ == (DashModel {
                rows: rows.insert(
                    min(orig_row, rows.len() as usize) as int,
                    RowModel { name: row_name((orig_row + 1) as nat), hosts: seq![host] },
                ),
                selected_row: min(orig_row, rows.len() as usize),
                selected_col: 0,
                ..old(self)@
            }),
    {
        let at = min_usize(orig_row, self.rows.len());
        let mut hosts: Vec<H> = Vec::new();
        hosts.push(host);
        self.rows.insert(at, DashboardRow { name: row_name_string((orig_row + 1) as u64), hosts });
        assert(models(self.rows@) =~= rows.insert(
            at as int,
            RowModel { name: row_name((orig_row + 1) as nat), hosts: seq![host] },
        ));
        self.selected_row = min_usize(orig_row, self.rows.len() - 1);
        self.selected_col = 0;
    }

    /// Inserts `host` into row `target` at column `orig_col` (or the row's
    /// end), or appends a row `Row target + 1` for it when there is no such
    /// row; the cursor follows the host.
    fn reinsert(&mut self, target: usize, orig_col: usize, host: H)
        requires
            target < usize::MAX,
        ensures
            target < old(self)@.rows.len() ==> final(self)@ == (DashModel {
                rows: set_hosts(
                    old(self)@.rows,
                    target as int,
                    old(self)@.rows[target as int].hosts.insert(
                        min(orig_col, old(self)@.rows[target as int].hosts.len() as usize) as int,
                        host,
                    ),
                ),
                selected_row: target,
                selected_col: min(orig_col, old(self)@.rows[target as int].hosts.len() as usize),
                ..old(self)@
            }),
            target >= old(self)@.rows.len() ==> final(self)@ == (DashModel {
                rows: old(self)@.rows.push(
                    RowModel { name: row_name((target + 1) as nat), hosts: seq![host] },
                ),
                selected_row: old(self)@.rows.len() as usize,
                selected_col: 0,
                ..old(self)@
            }),
    {
        if target < self.rows.len() {
            assert(models(self.rows@)[target as int] == row_model(self.rows@[target as int]));
            let insert_col = min_usize(orig_col, self.rows[target].hosts.len());
            put_host(&mut self.rows, target, insert_col, host);
            self.selected_row = target;
            self.selected_col = insert_col;
        } else {
            push_row(&mut self.rows, target + 1, host);
            self.selected_row = self.rows.len() - 1;
            self.selected_col = 0;
        }
    }

    // --- Hide / Unhide ---

    /// Hide the host under the cursor, or show it again when the cursor is in
    /// the hidden section. Returns whether a host moved (the arrangement to
    /// save changed).
    pub fn hide_host(&mut self) -> (changed: bool)
        requires
            old(self)@.rows.len() < usize::MAX,
        ensures
            (final(self)@, changed) == old(self)@.host_hidden(),
    {
        if self.in_hidden_section {
            // Unhide: move from hidden to end of last (or a new) grid row
            if self.hidden_selected < self.hidden_hosts.len() {
                self.unhide_selected();
                return true;
            }
            return false;
        }
        // Hide: move from grid to hidden_hosts
        if self.selected_row < self.rows.len() && self.selected_col < self.rows[self.selected_row].hosts.len() {
            self.hide_selected();
            return true;
        }
        false
    }

    fn unhide_selected(&mut self)
        requires
            old(self).in_hidden_section,
            old(self).hidden_selected < old(self).hidden_hosts@.len(),
            old(self)@.rows.len() < usize::MAX,
        ensures
            (final(self)@, true) == old(self)@.host_hidden(),
    {
        let ghost m = self@;
        let ghost host_g = m.hidden[self.hidden_selected as int];
        let host = self.hidden_hosts.remove(self.hidden_selected);
        assert(host == host_g);
        if self.rows.len() == 0 {
            push_row(&mut self.rows, 1, host);
            assert(models(self.rows@) =~= seq![RowModel { name: row_name(1), hosts: seq![host_g] }]);
        } else {
            let last = self.rows.len() - 1;
            assert(models(self.rows@)[last as int] == row_model(self.rows@[last as int]));
            if self.rows[last].hosts.len() >= MAX_HOSTS_PER_ROW {
                let k = self.rows.len() + 1;
                push_row(&mut self.rows, k, host);
            } else {
                let end = self.rows[last].hosts.len();
                let ghost last_hosts = m.rows[last as int].hosts;
                put_host(&mut self.rows, last, end, host);
                assert(last_hosts.insert(end as int, host_g) =~= last_hosts.push(host_g));
            }
        }
        // Clamp hidden_selected
        if self.hidden_hosts.len() > 0 {
            self.hidden_selected = min_usize(self.hidden_selected, self.hidden_hosts.len() - 1);
        } else {
            self.in_hidden_section = false;
        }
    }

    fn hide_selected(&mut self)
        requires
            !old(self).in_hidden_section,
            old(self).selected_row < old(self)@.rows.len(),
            old(self).selected_col < old(self)@.rows[old(self).selected_row as int].hosts.len(),
        ensures
            (final(self)@, true) == old(self)@.host_hidden(),
    {
        let ghost m = self@;
        let r = self.selected_row;
        let ghost src = m.rows[r as int].hosts.remove(self.selected_col as int);
        let host = take_host(&mut self.rows, r, self.selected_col);
        assert(models(self.rows@)[r as int].hosts == src);
        self.hidden_hosts.push(host);
        // Clean up empty row
        if self.rows[r].hosts.len() == 0 {
            drop_row(&mut self.rows, r);
            assert(set_hosts(m.rows, r as int, src).remove(r as int) =~= m.rows.remove(r as int));
            if self.rows.len() > 0 {
                self.selected_row = min_usize(r, self.rows.len() - 1);
                self.selected_col = 0;
            }
        } else {
            let len = self.rows[r].hosts.len();
            self.selected_col = min_usize(self.selected_col, len - 1);
        }
    }

    /// Cycle active metric.
    pub fn cycle_metric(&mut self)
        ensures
            final(self)@ == (DashModel { active_metric: next_metric(old(self).active_metric), ..old(self)@ }),
    {
        self.active_metric = self.active_metric.next();
    }

    /// Set metric directly.
    pub fn set_metric(&mut self, metric: MetricType)
        ensures
            final(self)@ == (DashModel { active_metric: metric, ..old(self)@ }),
    {
        self.active_metric = metric;
    }

    /// Tick the shake animation. Call once per event loop iteration.
    pub fn tick_shake(&mut self)
        ensures
            final(self)@ == old(self)@.shake_ticked(),
    {
        match self.shake_frame {
            Some((row, counter)) => {
                if counter > 0 {
                    self.shake_frame = Some((row, counter - 1));
                } else {
                    self.shake_frame = None;
                }
            },
            None => {},
        }
    }
}

/// The length of the concatenation of a prefix is at most that of the whole.
proof fn lemma_flatten_prefix_len<A>(s: Seq<Seq<A>>, i: int)
    requires
        0 <= i <= s.len(),
    ensures
        s.take(i).flatten().len() <= s.flatten().len(),
    decreases s.len() - i,
{
    if i < s.len() {
        lemma_flatten_prefix_len(s, i + 1);
        assert(s.take(i + 1) =~= s.take(i).push(s[i]));
        s.take(i).lemma_flatten_push(s[i]);
    } else {
        assert(s.take(i) =~= s);
    }
}

} // verus!
