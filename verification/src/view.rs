//! What the screens show: the texts, tones and marks of the grid, of its
//! tiles and of the focus view, computed from the dashboard and a session's
//! state. Drawing them is left to the terminal front end.
use vstd::prelude::*;
use vstd::utf8::encode_utf8;

use crate::dashboard::{DashModel, Dashboard, FocusPanel, FocusState};
use crate::metrics::{metric_label, MetricType};
use crate::session::{state_label, SessionState, SessionStateView};
use crate::system_info::SystemInfo;
use crate::text::{chars_of, decimal, decimal_chars, push_chars, push_str, string_of};

verus! {

/// A color of the display.
#[derive(Debug, Clone, Copy, PartialEq, Eq, Structural)]
pub enum Tone {
    White,
    DarkGray,
    Cyan,
    Green,
    Yellow,
    Red,
    Magenta,
    Blue,
    Black,
}

/// A line of text, its tone, and whether it is bold.
pub struct TextLine {
    pub text: String,
    pub tone: Tone,
    pub bold: bool,
}

/// The value of a [`TextLine`].
pub open spec fn line_view(l: TextLine) -> (Seq<char>, Tone, bool) {
    (l.text@, l.tone, l.bold)
}

/// The lines `ls`, each by its value.
pub open spec fn lines_view(ls: Seq<TextLine>) -> Seq<(Seq<char>, Tone, bool)> {
    ls.map_values(|l: TextLine| line_view(l))
}

fn text_line(cs: &Vec<char>, tone: Tone, bold: bool) -> (l: TextLine)
    ensures
        line_view(l) == (cs@, tone, bold),
{
    TextLine { text: string_of(cs), tone, bold }
}

fn str_line(s: &str, tone: Tone, bold: bool) -> (l: TextLine)
    ensures
        line_view(l) == (s@, tone, bold),
{
    TextLine { text: s.to_owned(), tone, bold }
}

// ---------------------------------------------------------------------------
// The grid
// ---------------------------------------------------------------------------

/// The header shown above row `i`: the name being typed while that row is
/// renamed, else its name and number of hosts.
pub open spec fn row_header_text<H>(m: DashModel<H>, i: int) -> Seq<char> {
    if m.rename_mode && m.selected_row == i {
        " Row name: "@ + m.rename_input + "_ "@
    } else {
        "── "@ + m.rows[i].name + " ("@ + decimal(m.rows[i].hosts.len()) + ") ──"@
    }
}

/// The tone and weight of row `i`'s header: yellow and bold while it is
/// renamed, cyan when the cursor is in it, grey otherwise.
pub open spec fn row_header_tone<H>(m: DashModel<H>, i: int) -> (Tone, bool) {
    if m.rename_mode && m.selected_row == i {
        (Tone::Yellow, true)
    } else if m.selected_row == i && !m.in_hidden_section {
        (Tone::Cyan, false)
    } else {
        (Tone::DarkGray, false)
    }
}

/// How a tile is marked: under the cursor, being moved, and shaking
/// (a move of it was just refused by a full row).
#[derive(Debug, Clone, Copy, PartialEq, Eq, Structural)]
pub struct TileMarks {
    pub selected: bool,
    pub moving: bool,
    pub shaking: bool,
}

pub open spec fn tile_marks_of<H>(m: DashModel<H>, row: int, col: int) -> TileMarks {
    let selected = !m.in_hidden_section && m.selected_row == row && m.selected_col == col;
    TileMarks {
        selected,
        moving: m.move_mode && selected,
        shaking: m.move_mode && selected && (m.shake_frame matches Some((_, k)) && k > 0),
    }
}

/// The header of the hidden section and its tone.
pub open spec fn hidden_header_text<H>(m: DashModel<H>) -> Seq<char> {
    "─── Hidden ("@ + decimal(m.hidden.len()) + ") "@ + (if m.show_hidden {
        "▾"@
    } else {
        "▸"@
    }) + " ───"@
}

/// Whether the hidden section is on screen: shown, and with hosts.
pub open spec fn hidden_shown<H>(m: DashModel<H>) -> bool {
    m.show_hidden && m.hidden.len() > 0
}

/// What the status bar of the grid shows.
#[derive(Debug, Clone, Copy, PartialEq, Eq, Structural)]
pub enum GridMode {
    /// A row name is being typed.
    Renaming,
    /// A host is being moved.
    Moving,
    /// The key help, with the metric shown.
    Browsing,
}

pub open spec fn grid_mode_of<H>(m: DashModel<H>) -> GridMode {
    if m.rename_mode {
        GridMode::Renaming
    } else if m.move_mode {
        GridMode::Moving
    } else {
        GridMode::Browsing
    }
}

/// The key help of the grid, naming the metric shown.
pub open spec fn grid_help(metric: MetricType) -> Seq<char> {
    " ↑↓←→ Navigate  Enter Focus  Space Move  r Rename  m Hide  H Hidden  Tab/"@ + metric_label(
        metric,
    ) + "  q Quit"@
}

/// The tone of a metric's sparkline.
pub open spec fn metric_tone_of(m: MetricType) -> Tone {
    match m {
        MetricType::Cpu => Tone::Cyan,
        MetricType::Memory => Tone::Magenta,
        MetricType::Network => Tone::Yellow,
    }
}

pub fn metric_tone(m: MetricType) -> (t: Tone)
    ensures
        t == metric_tone_of(m),
{
    match m {
        MetricType::Cpu => Tone::Cyan,
        MetricType::Memory => Tone::Magenta,
        MetricType::Network => Tone::Yellow,
    }
}

/// The key help of the grid for `metric`.
pub fn grid_help_text(metric: MetricType) -> (s: String)
    ensures
        s@ == grid_help(metric),
{
    let mut v = chars_of(
        " ↑↓←→ Navigate  Enter Focus  Space Move  r Rename  m Hide  H Hidden  Tab/",
    );
    let l = metric.label();
    push_str(&mut v, l.as_str());
    push_str(&mut v, "  q Quit");
    string_of(&v)
}

/// The number of tile columns for `n` hosts: one per host up to three (at
/// least one), three up to eight hosts, four beyond.
pub open spec fn grid_columns_of(n: nat) -> nat {
    if n <= 3 {
        if n >= 1 {
            n
        } else {
            1
        }
    } else if n <= 8 {
        3
    } else {
        4
    }
}

pub fn grid_columns(n: usize) -> (c: usize)
    ensures
        c == grid_columns_of(n as nat),
{
    if n <= 3 {
        if n >= 1 {
            n
        } else {
            1
        }
    } else if n <= 8 {
        3
    } else {
        4
    }
}

impl<H> Dashboard<H> {
    /// The number of sections the grid is split into: one per row, and one
    /// for the hidden section when it is on screen.
    pub fn grid_sections(&self) -> (n: usize)
        requires
            self.rows@.len() < usize::MAX,
        ensures
            n == self@.rows.len() + if hidden_shown(self@) {
                1int
            } else {
                0int
            },
    {
        let shown = self.show_hidden && self.hidden_hosts.len() > 0;
        self.rows.len() + if shown {
            1
        } else {
            0
        }
    }

    /// Whether the hidden section is on screen.
    pub fn hidden_on_screen(&self) -> (b: bool)
        ensures
            b == hidden_shown(self@),
    {
        self.show_hidden && self.hidden_hosts.len() > 0
    }

    /// The header of row `i`, its tone, and whether it is bold.
    pub fn row_header(&self, i: usize) -> (l: TextLine)
        requires
            i < self.rows@.len(),
        ensures
            line_view(l) == (row_header_text(self@, i as int), row_header_tone(
                self@,
                i as int,
            ).0, row_header_tone(self@, i as int).1),
    {
        let renaming = self.rename_mode && self.selected_row == i;
        let mut v: Vec<char>;
        if renaming {
            v = chars_of(" Row name: ");
            push_str(&mut v, self.rename_input.as_str());
            push_str(&mut v, "_ ");
        } else {
            v = chars_of("── ");
            push_str(&mut v, self.rows[i].name.as_str());
            push_str(&mut v, " (");
            let count = decimal_chars(self.rows[i].hosts.len() as u64);
            push_chars(&mut v, &count);
            push_str(&mut v, ") ──");
        }
        let (tone, bold) = if renaming {
            (Tone::Yellow, true)
        } else if self.selected_row == i && !self.in_hidden_section {
            (Tone::Cyan, false)
        } else {
            (Tone::DarkGray, false)
        };
        text_line(&v, tone, bold)
    }

    /// How the tile at (`row`, `col`) of the grid is marked.
    pub fn tile_marks(&self, row: usize, col: usize) -> (t: TileMarks)
        ensures
            t == tile_marks_of(self@, row as int, col as int),
    {
        let selected = !self.in_hidden_section && self.selected_row == row && self.selected_col
            == col;
        let shaking = self.move_mode && selected && match self.shake_frame {
            Some((_, k)) => k > 0,
            None => false,
        };
        TileMarks { selected, moving: self.move_mode && selected, shaking }
    }

    /// Whether the `i`-th hidden tile is under the cursor.
    pub fn hidden_tile_selected(&self, i: usize) -> (b: bool)
        ensures
            b == (self.in_hidden_section && self.hidden_selected == i),
    {
        self.in_hidden_section && self.hidden_selected == i
    }

    /// The header of the hidden section and its tone (cyan with the cursor
    /// in it, grey otherwise).
    pub fn hidden_header(&self) -> (l: TextLine)
        ensures
            line_view(l) == (hidden_header_text(self@), if self.in_hidden_section {
                Tone::Cyan
            } else {
                Tone::DarkGray
            }, false),
    {
        let mut v = chars_of("─── Hidden (");
        let count = decimal_chars(self.hidden_hosts.len() as u64);
        push_chars(&mut v, &count);
        push_str(&mut v, ") ");
        if self.show_hidden {
            push_str(&mut v, "▾");
        } else {
            push_str(&mut v, "▸");
        }
        push_str(&mut v, " ───");
        let tone = if self.in_hidden_section {
            Tone::Cyan
        } else {
            Tone::DarkGray
        };
        text_line(&v, tone, false)
    }

    /// What the status bar of the grid shows.
    pub fn grid_mode(&self) -> (g: GridMode)
        ensures
            g == grid_mode_of(self@),
    {
        if self.rename_mode {
            GridMode::Renaming
        } else if self.move_mode {
            GridMode::Moving
        } else {
            GridMode::Browsing
        }
    }
}

// ---------------------------------------------------------------------------
// Tiles
// ---------------------------------------------------------------------------

/// The icon and tone a tile shows for a session state.
pub open spec fn tile_badge_of(s: SessionStateView) -> (Seq<char>, Tone) {
    match s {
        SessionStateView::Idle => ("◌"@, Tone::DarkGray),
        SessionStateView::Connecting => ("◌"@, Tone::Yellow),
        SessionStateView::NeedPassword => ("⚷"@, Tone::Yellow),
        SessionStateView::Authenticating => ("◌"@, Tone::Yellow),
        SessionStateView::Connected => ("●"@, Tone::Green),
        SessionStateView::Disconnected(_) => ("●"@, Tone::Red),
    }
}

pub fn tile_badge(s: &SessionState) -> (r: (&'static str, Tone))
    ensures
        (r.0@, r.1) == tile_badge_of(s@),
{
    match s {
        SessionState::Idle => ("◌", Tone::DarkGray),
        SessionState::Connecting => ("◌", Tone::Yellow),
        SessionState::NeedPassword => ("⚷", Tone::Yellow),
        SessionState::Authenticating => ("◌", Tone::Yellow),
        SessionState::Connected => ("●", Tone::Green),
        SessionState::Disconnected(_) => ("●", Tone::Red),
    }
}

/// The border of a tile: while it shakes it blinks red and yellow with the
/// countdown; being moved it is yellow, under the cursor cyan, else green
/// for a connected session, red for a disconnected one and grey otherwise.
/// It is bold under the cursor.
pub open spec fn tile_border_of(marks: TileMarks, shake: Option<(usize, u8)>, s: SessionStateView) -> (
    Tone,
    bool,
) {
    let tone = if marks.shaking {
        match shake {
            Some((_, k)) => if k % 2 == 1 {
                Tone::Red
            } else {
                Tone::Yellow
            },
            None => Tone::Yellow,
        }
    } else if marks.moving {
        Tone::Yellow
    } else if marks.selected {
        Tone::Cyan
    } else {
        match s {
            SessionStateView::Connected => Tone::Green,
            SessionStateView::Disconnected(_) => Tone::Red,
            _ => Tone::DarkGray,
        }
    };
    (tone, marks.selected || marks.moving)
}

pub fn tile_border(marks: TileMarks, shake: Option<(usize, u8)>, s: &SessionState) -> (r: (Tone, bool))
    ensures
        r == tile_border_of(marks, shake, s@),
{
    let tone = if marks.shaking {
        match shake {
            Some((_, k)) => if k % 2 == 1 {
                Tone::Red
            } else {
                Tone::Yellow
            },
            None => Tone::Yellow,
        }
    } else if marks.moving {
        Tone::Yellow
    } else if marks.selected {
        Tone::Cyan
    } else {
        match s {
            SessionState::Connected => Tone::Green,
            SessionState::Disconnected(_) => Tone::Red,
            _ => Tone::DarkGray,
        }
    };
    (tone, marks.selected || marks.moving)
}

/// The title of a tile: the state's icon (a star while it is moved) and
/// the host's name, in the state's tone (yellow while moved); it is bold.
pub open spec fn tile_title_of(moving: bool, s: SessionStateView, name: Seq<char>) -> (Seq<char>, Tone, bool) {
    let icon = if moving {
        "✦"@
    } else {
        tile_badge_of(s).0
    };
    (" "@ + icon + " "@ + name + " "@, if moving {
        Tone::Yellow
    } else {
        tile_badge_of(s).1
    }, true)
}

pub fn tile_title(moving: bool, s: &SessionState, name: &str) -> (l: TextLine)
    ensures
        line_view(l) == tile_title_of(moving, s@, name@),
{
    let (icon, tone) = tile_badge(s);
    let mut v = chars_of(" ");
    if moving {
        push_str(&mut v, "✦");
    } else {
        push_str(&mut v, icon);
    }
    push_str(&mut v, " ");
    push_str(&mut v, name);
    push_str(&mut v, " ");
    let t = if moving {
        Tone::Yellow
    } else {
        tone
    };
    text_line(&v, t, true)
}

/// The lines a tile shows for a session that is not connected: where it
/// connects to, a blank line, and the state (for a password, how to give
/// it; for a disconnection, its reason).
pub open spec fn tile_body_of(s: SessionStateView, connection: Seq<char>) -> Seq<(Seq<char>, Tone, bool)> {
    let head = seq![(connection, Tone::DarkGray, false), (""@, Tone::White, false)];
    match s {
        SessionStateView::NeedPassword => head + seq![
            ("⚷ Password required"@, Tone::Yellow, false),
            ("Press Enter to focus & type password"@, Tone::DarkGray, false),
        ],
        SessionStateView::Disconnected(msg) => head + seq![("✗ "@ + msg, Tone::Red, false)],
        _ => head + seq![(state_label(s), Tone::Yellow, false)],
    }
}

pub fn tile_body(s: &SessionState, connection: &str) -> (ls: Vec<TextLine>)
    ensures
        lines_view(ls@) == tile_body_of(s@, connection@),
{
    let mut ls: Vec<TextLine> = Vec::new();
    ls.push(str_line(connection, Tone::DarkGray, false));
    ls.push(str_line("", Tone::White, false));
    match s {
        SessionState::NeedPassword => {
            ls.push(str_line("⚷ Password required", Tone::Yellow, false));
            ls.push(str_line("Press Enter to focus & type password", Tone::DarkGray, false));
        },
        SessionState::Disconnected(msg) => {
            let mut v = chars_of("✗ ");
            push_str(&mut v, msg.as_str());
            ls.push(text_line(&v, Tone::Red, false));
        },
        _ => {
            ls.push(str_line(s.label(), Tone::Yellow, false));
        },
    }
    assert(lines_view(ls@) =~= tile_body_of(s@, connection@));
    ls
}

// ---------------------------------------------------------------------------
// The focus view
// ---------------------------------------------------------------------------

/// The icon and tone the focus view shows for a session state.
pub open spec fn focus_badge_of(s: SessionStateView) -> (Seq<char>, Tone) {
    match s {
        SessionStateView::Connected => ("●"@, Tone::Green),
        SessionStateView::NeedPassword => ("⚷"@, Tone::Yellow),
        SessionStateView::Disconnected(_) => ("●"@, Tone::Red),
        _ => ("◌"@, Tone::Yellow),
    }
}

pub fn focus_badge(s: &SessionState) -> (r: (&'static str, Tone))
    ensures
        (r.0@, r.1) == focus_badge_of(s@),
{
    match s {
        SessionState::Connected => ("●", Tone::Green),
        SessionState::NeedPassword => ("⚷", Tone::Yellow),
        SessionState::Disconnected(_) => ("●", Tone::Red),
        _ => ("◌", Tone::Yellow),
    }
}

/// The title of the focus view of a session that is not connected.
pub open spec fn focus_title_of(s: SessionStateView, name: Seq<char>, connection: Seq<char>) -> Seq<char> {
    " "@ + focus_badge_of(s).0 + " "@ + name + " — "@ + connection + " "@
}

pub fn focus_title(s: &SessionState, name: &str, connection: &str) -> (t: String)
    ensures
        t@ == focus_title_of(s@, name@, connection@),
{
    let (icon, _) = focus_badge(s);
    let mut v = chars_of(" ");
    push_str(&mut v, icon);
    push_str(&mut v, " ");
    push_str(&mut v, name);
    push_str(&mut v, " — ");
    push_str(&mut v, connection);
    push_str(&mut v, " ");
    string_of(&v)
}

/// `n` stars.
pub open spec fn stars(n: nat) -> Seq<char> {
    Seq::new(n, |i: int| '*')
}

/// What the focus view shows for a session that is not connected: for a
/// password, the prompt with a star per byte typed (or how to start
/// typing); for a disconnection its reason; otherwise the state.
pub open spec fn focus_body_of(s: SessionStateView, entering: bool, password: Seq<char>) -> Seq<(Seq<char>, Tone, bool)> {
    match s {
        SessionStateView::NeedPassword => seq![
            (""@, Tone::White, false),
            ("Authentication required"@, Tone::Yellow, true),
            (""@, Tone::White, false),
            (if entering {
                "Password: "@ + stars(encode_utf8(password).len())
            } else {
                "Press any key to enter password..."@
            }, Tone::White, false),
        ],
        SessionStateView::Disconnected(msg) => seq![
            (""@, Tone::White, false),
            ("✗ Disconnected: "@ + msg, Tone::Red, true),
        ],
        _ => seq![(""@, Tone::White, false), (state_label(s), Tone::Yellow, false)],
    }
}

/// The password being typed is never shown: the focus view depends on it
/// only through its length in bytes, so two passwords of the same length
/// give the same lines; while it is typed, the prompt line is `Password: `
/// followed by one star per byte.
pub proof fn lemma_password_masked(s: SessionStateView, entering: bool, p1: Seq<char>, p2: Seq<char>)
    requires
        encode_utf8(p1).len() == encode_utf8(p2).len(),
    ensures
        focus_body_of(s, entering, p1) == focus_body_of(s, entering, p2),
        s == SessionStateView::NeedPassword && entering ==> focus_body_of(s, entering, p1).len() == 4
            && focus_body_of(s, entering, p1)[3] == ("Password: "@ + stars(
            encode_utf8(p1).len(),
        ), Tone::White, false),
{
}

impl<H> Dashboard<H> {
    /// The lines of the focus view for a focused session in state `s` that
    /// is not connected.
    pub fn focus_body(&self, s: &SessionState) -> (ls: Vec<TextLine>)
        requires
            encode_utf8(self.password_input@).len() <= usize::MAX,
        ensures
            lines_view(ls@) == focus_body_of(s@, self.entering_password, self.password_input@),
    {
        let mut ls: Vec<TextLine> = Vec::new();
        ls.push(str_line("", Tone::White, false));
        match s {
            SessionState::NeedPassword => {
                ls.push(str_line("Authentication required", Tone::Yellow, true));
                ls.push(str_line("", Tone::White, false));
                if self.entering_password {
                    let n = self.password_input.as_str().len();
                    let mut v = chars_of("Password: ");
                    let ghost v0 = v@;
                    let mut i: usize = 0;
                    while i < n
                        invariant
                            i <= n,
                            v@ == v0 + stars(i as nat),
                        decreases n - i,
                    {
                        v.push('*');
                        assert(stars((i + 1) as nat) =~= stars(i as nat).push('*'));
                        i = i + 1;
                    }
                    ls.push(text_line(&v, Tone::White, false));
                } else {
                    ls.push(str_line("Press any key to enter password...", Tone::White, false));
                }
            },
            SessionState::Disconnected(msg) => {
                let mut v = chars_of("✗ Disconnected: ");
                push_str(&mut v, msg.as_str());
                ls.push(text_line(&v, Tone::Red, true));
            },
            _ => {
                ls.push(str_line(s.label(), Tone::Yellow, false));
            },
        }
        assert(lines_view(ls@) =~= focus_body_of(s@, self.entering_password, self.password_input@));
        ls
    }
}

/// The border tone of `panel` in the focus view: the selected panel is cyan
/// while panels are being chosen and green once it has the input; the
/// others are grey.
pub open spec fn panel_tone_of(selected: FocusPanel, state: FocusState, panel: FocusPanel) -> Tone {
    if selected == panel {
        match state {
            FocusState::PanelSelect => Tone::Cyan,
            FocusState::PanelFocused => Tone::Green,
        }
    } else {
        Tone::DarkGray
    }
}

/// The name of a panel, as the status bar shows it.
pub open spec fn panel_label_of(p: FocusPanel) -> Seq<char> {
    match p {
        FocusPanel::Sidebar => "Sidebar"@,
        FocusPanel::Disk => "Disk"@,
        FocusPanel::SysInfo => "SysInfo"@,
        FocusPanel::Main => "Main"@,
        FocusPanel::Terminal => "Terminal"@,
    }
}

/// The keys a panel takes once it has the input, as the status bar shows them.
pub open spec fn panel_hint_of(p: FocusPanel) -> Seq<char> {
    match p {
        FocusPanel::Sidebar => "  ↑↓ Navigate  Enter Open  ←/⌫ Up  /Search  gGoto"@,
        FocusPanel::Terminal => "  (Input forwarded to SSH)"@,
        _ => "  (View only)"@,
    }
}

pub fn panel_label(p: FocusPanel) -> (s: &'static str)
    ensures
        s@ == panel_label_of(p),
{
    match p {
        FocusPanel::Sidebar => "Sidebar",
        FocusPanel::Disk => "Disk",
        FocusPanel::SysInfo => "SysInfo",
        FocusPanel::Main => "Main",
        FocusPanel::Terminal => "Terminal",
    }
}

pub fn panel_hint(p: FocusPanel) -> (s: &'static str)
    ensures
        s@ == panel_hint_of(p),
{
    match p {
        FocusPanel::Sidebar => "  ↑↓ Navigate  Enter Open  ←/⌫ Up  /Search  gGoto",
        FocusPanel::Terminal => "  (Input forwarded to SSH)",
        _ => "  (View only)",
    }
}

impl<H> Dashboard<H> {
    /// The border tone of `panel` in the focus view, and whether its title
    /// is bold (it is for the selected panel).
    pub fn panel_style(&self, panel: FocusPanel) -> (r: (Tone, bool))
        ensures
            r == (panel_tone_of(self.focus_panel, self.focus_state, panel), self.focus_panel
                == panel),
    {
        let selected = self.focus_panel == panel;
        let tone = if selected {
            match self.focus_state {
                FocusState::PanelSelect => Tone::Cyan,
                FocusState::PanelFocused => Tone::Green,
            }
        } else {
            Tone::DarkGray
        };
        (tone, selected)
    }
}

/// The title of the terminal pane.
pub open spec fn terminal_title_of(s: SessionStateView) -> Seq<char> {
    " "@ + focus_badge_of(s).0 + " Terminal "@
}

pub fn terminal_title(s: &SessionState) -> (t: String)
    ensures
        t@ == terminal_title_of(s@),
{
    let (icon, _) = focus_badge(s);
    let mut v = chars_of(" ");
    push_str(&mut v, icon);
    push_str(&mut v, " Terminal ");
    string_of(&v)
}

/// The captions of the system panel: the uptime after `Up `, the memory
/// after `RAM `.
pub fn sysinfo_captions(info: &SystemInfo) -> (r: (String, String))
    ensures
        r.0@ == "Up "@ + info.uptime@,
        r.1@ == "RAM "@ + info.ram_total@,
{
    let mut up = chars_of("Up ");
    push_str(&mut up, info.uptime.as_str());
    let mut ram = chars_of("RAM ");
    push_str(&mut ram, info.ram_total.as_str());
    (string_of(&up), string_of(&ram))
}

} // verus!
