//! Keyboard input: what a key does to the dashboard in the grid and in
//! focus mode, and the bytes a key sends to a remote terminal.
use vstd::prelude::*;
use vstd::utf8::encode_scalar;

use crate::dashboard::{DashModel, Dashboard};
use crate::metrics::{next_metric, MetricType};
use crate::session::{SessionState, SessionStateView};
use crate::text::{chars_of, push_char, string_of};

verus! {

/// A key pressed, as far as the program tells keys apart.
#[derive(Debug, Clone, Copy, PartialEq, Eq, Structural)]
pub enum Key {
    Char(char),
    Enter,
    Backspace,
    Tab,
    Esc,
    Up,
    Down,
    Left,
    Right,
    Home,
    End,
    Delete,
    /// Any other key.
    Other,
}

/// The byte a control chord `Ctrl+c` sends: `c`'s low byte, counted from
/// `a` = 1 and wrapping around.
pub open spec fn ctrl_byte(c: char) -> u8 {
    (((c as u8) as int + 160) % 256) as u8
}

/// The bytes a key sends to a remote terminal: a character its UTF-8
/// encoding (with Ctrl, its control byte), the editing keys their ASCII
/// codes, the arrows and Home/End/Delete their VT100 escape sequences;
/// other keys nothing.
pub open spec fn key_bytes(key: Key, ctrl: bool) -> Seq<u8> {
    match key {
        Key::Char(c) => if ctrl {
            seq![ctrl_byte(c)]
        } else {
            encode_scalar(c as u32)
        },
        Key::Enter => seq![13u8],
        Key::Backspace => seq![0x7fu8],
        Key::Tab => seq![9u8],
        Key::Up => seq![0x1bu8, 0x5bu8, 0x41u8],
        Key::Down => seq![0x1bu8, 0x5bu8, 0x42u8],
        Key::Right => seq![0x1bu8, 0x5bu8, 0x43u8],
        Key::Left => seq![0x1bu8, 0x5bu8, 0x44u8],
        Key::Home => seq![0x1bu8, 0x5bu8, 0x48u8],
        Key::End => seq![0x1bu8, 0x5bu8, 0x46u8],
        Key::Delete => seq![0x1bu8, 0x5bu8, 0x33u8, 0x7eu8],
        _ => seq![],
    }
}

/// The UTF-8 encoding of `c`.
fn utf8_of(c: char) -> (r: Vec<u8>)
    ensures
        r@ == encode_scalar(c as u32),
{
    let v = c as u32;
    if v <= 0x7F {
        vec![(v & 0x7F) as u8]
    } else if v <= 0x7FF {
        vec![0xC0 | ((v >> 6) & 0x1F) as u8, 0x80 | (v & 0x3F) as u8]
    } else if v <= 0xFFFF {
        assert(!(0xD800 <= v <= 0xDFFF));
        vec![
            0xE0 | ((v >> 12) & 0x0F) as u8,
            0x80 | ((v >> 6) & 0x3F) as u8,
            0x80 | (v & 0x3F) as u8,
        ]
    } else {
        vec![
            0xF0 | ((v >> 18) & 0x7) as u8,
            0x80 | ((v >> 12) & 0x3F) as u8,
            0x80 | ((v >> 6) & 0x3F) as u8,
            0x80 | (v & 0x3F) as u8,
        ]
    }
}

/// Convert a key to the bytes to send to the remote terminal.
pub fn key_to_bytes(key: Key, ctrl: bool) -> (r: Vec<u8>)
    ensures
        r@ == key_bytes(key, ctrl),
{
    match key {
        Key::Char(c) => {
            if ctrl {
                // Ctrl+a is 1, Ctrl+b is 2, ...
                let byte = (c as u8).wrapping_sub(0x61).wrapping_add(1);
                vec![byte]
            } else {
                utf8_of(c)
            }
        },
        Key::Enter => vec![0x0d],
        Key::Backspace => vec![0x7f],
        Key::Tab => vec![0x09],
        Key::Up => vec![0x1b, 0x5b, 0x41],
        Key::Down => vec![0x1b, 0x5b, 0x42],
        Key::Right => vec![0x1b, 0x5b, 0x43],
        Key::Left => vec![0x1b, 0x5b, 0x44],
        Key::Home => vec![0x1b, 0x5b, 0x48],
        Key::End => vec![0x1b, 0x5b, 0x46],
        Key::Delete => vec![0x1b, 0x5b, 0x33, 0x7e],
        _ => Vec::new(),
    }
}

/// What the program does after a key, besides what the key did to the
/// dashboard.
pub enum KeyOutcome {
    /// Nothing more.
    Continue,
    /// Quit the program.
    Quit,
    /// Focus was entered on the selected host: reconnect it if it is
    /// disconnected.
    Focused,
    /// Send these bytes to the focused session.
    Send(Vec<u8>),
    /// Send this line (the password typed) to the focused session.
    SendLine(String),
}

pub enum KeyOutcomeView {
    Continue,
    Quit,
    Focused,
    Send(Seq<u8>),
    SendLine(Seq<char>),
}

impl View for KeyOutcome {
    type V = KeyOutcomeView;

    open spec fn view(&self) -> KeyOutcomeView {
        match self {
            KeyOutcome::Continue => KeyOutcomeView::Continue,
            KeyOutcome::Quit => KeyOutcomeView::Quit,
            KeyOutcome::Focused => KeyOutcomeView::Focused,
            KeyOutcome::Send(b) => KeyOutcomeView::Send(b@),
            KeyOutcome::SendLine(l) => KeyOutcomeView::SendLine(l@),
        }
    }
}

/// A key in the grid: `q`/Esc quit, the arrows and `hjkl` move the cursor,
/// Enter focuses the selected host, Tab cycles the metric and `1` `2` `3`
/// select CPU, MEM and NET.
pub open spec fn grid_key<H>(m: DashModel<H>, key: Key) -> (DashModel<H>, KeyOutcomeView) {
    match key {
        Key::Esc => (m, KeyOutcomeView::Quit),
        Key::Up => (m.moved_up(), KeyOutcomeView::Continue),
        Key::Down => (m.moved_down(), KeyOutcomeView::Continue),
        Key::Left => (m.moved_left(), KeyOutcomeView::Continue),
        Key::Right => (m.moved_right(), KeyOutcomeView::Continue),
        Key::Enter => (
            m.focused_on_selection(),
            if !m.in_hidden_section && m.host_at(m.selected_row as int, m.selected_col as int) is Some {
                KeyOutcomeView::Focused
            } else {
                KeyOutcomeView::Continue
            },
        ),
        Key::Tab => (
            DashModel { active_metric: next_metric(m.active_metric), ..m },
            KeyOutcomeView::Continue,
        ),
        Key::Char(c) => if c == 'q' {
            (m, KeyOutcomeView::Quit)
        } else if c == 'k' {
            (m.moved_up(), KeyOutcomeView::Continue)
        } else if c == 'j' {
            (m.moved_down(), KeyOutcomeView::Continue)
        } else if c == 'h' {
            (m.moved_left(), KeyOutcomeView::Continue)
        } else if c == 'l' {
            (m.moved_right(), KeyOutcomeView::Continue)
        } else if c == '1' {
            (DashModel { active_metric: MetricType::Cpu, ..m }, KeyOutcomeView::Continue)
        } else if c == '2' {
            (DashModel { active_metric: MetricType::Memory, ..m }, KeyOutcomeView::Continue)
        } else if c == '3' {
            (DashModel { active_metric: MetricType::Network, ..m }, KeyOutcomeView::Continue)
        } else {
            (m, KeyOutcomeView::Continue)
        },
        _ => (m, KeyOutcomeView::Continue),
    }
}

/// A key in focus mode, the focused session being in `state`: Esc goes
/// back to the grid. While the session asks for a password, keys edit the
/// password (Enter submits it); while it is connected, keys go to the
/// remote terminal; otherwise they do nothing.
pub open spec fn focused_key<H>(
    m: DashModel<H>,
    key: Key,
    ctrl: bool,
    state: Option<SessionStateView>,
) -> (DashModel<H>, KeyOutcomeView) {
    if key == Key::Esc {
        (m.unfocused(), KeyOutcomeView::Continue)
    } else {
        match state {
            Some(SessionStateView::NeedPassword) => {
                let m1 = DashModel { entering_password: true, ..m };
                match key {
                    Key::Enter => (
                        DashModel { password_input: seq![], entering_password: false, ..m1 },
                        if m.focused_host() is Some {
                            KeyOutcomeView::SendLine(m.password_input.push('\n'))
                        } else {
                            KeyOutcomeView::Continue
                        },
                    ),
                    Key::Backspace => (
                        DashModel {
                            password_input: if m.password_input.len() > 0 {
                                m.password_input.drop_last()
                            } else {
                                m.password_input
                            },
                            ..m1
                        },
                        KeyOutcomeView::Continue,
                    ),
                    Key::Char(c) => (
                        DashModel { password_input: m.password_input.push(c), ..m1 },
                        KeyOutcomeView::Continue,
                    ),
                    _ => (m1, KeyOutcomeView::Continue),
                }
            },
            Some(SessionStateView::Connected) => (
                m,
                if key_bytes(key, ctrl).len() > 0 {
                    KeyOutcomeView::Send(key_bytes(key, ctrl))
                } else {
                    KeyOutcomeView::Continue
                },
            ),
            _ => (m, KeyOutcomeView::Continue),
        }
    }
}

/// What `key` (with Ctrl held when `ctrl`) does: in the grid, or in focus
/// mode with the focused session in `state`.
pub open spec fn key_effect<H>(
    m: DashModel<H>,
    key: Key,
    ctrl: bool,
    state: Option<SessionStateView>,
) -> (DashModel<H>, KeyOutcomeView) {
    if m.focused is Some {
        focused_key(m, key, ctrl, state)
    } else {
        grid_key(m, key)
    }
}

pub open spec fn state_view(state: Option<&SessionState>) -> Option<SessionStateView> {
    match state {
        Some(s) => Some(s@),
        None => None,
    }
}

impl<H> Dashboard<H> {
    /// Handle a key press (`ctrl`: with Ctrl held). `focused_state` is the
    /// state of the focused session, when there is one.
    pub fn handle_key(&mut self, key: Key, ctrl: bool, focused_state: Option<&SessionState>) -> (out: KeyOutcome)
        requires
            old(self).in_hidden_section || old(self).selected_row <= old(self).rows@.len(),
        ensures
            (final(self)@, out@) == key_effect(old(self)@, key, ctrl, state_view(focused_state)),
    {
        if self.focused.is_some() {
            self.focused_key(key, ctrl, focused_state)
        } else {
            self.grid_key(key)
        }
    }

    fn grid_key(&mut self, key: Key) -> (out: KeyOutcome)
        requires
            old(self).in_hidden_section || old(self).selected_row <= old(self).rows@.len(),
        ensures
            (final(self)@, out@) == grid_key(old(self)@, key),
    {
        match key {
            Key::Esc => KeyOutcome::Quit,
            Key::Up => {
                self.move_up();
                KeyOutcome::Continue
            },
            Key::Down => {
                self.move_down();
                KeyOutcome::Continue
            },
            Key::Left => {
                self.move_left();
                KeyOutcome::Continue
            },
            Key::Right => {
                self.move_right();
                KeyOutcome::Continue
            },
            Key::Enter => {
                if self.focus() {
                    KeyOutcome::Focused
                } else {
                    KeyOutcome::Continue
                }
            },
            Key::Tab => {
                self.cycle_metric();
                KeyOutcome::Continue
            },
            Key::Char(c) => {
                if c == 'q' {
                    KeyOutcome::Quit
                } else if c == 'k' {
                    self.move_up();
                    KeyOutcome::Continue
                } else if c == 'j' {
                    self.move_down();
                    KeyOutcome::Continue
                } else if c == 'h' {
                    self.move_left();
                    KeyOutcome::Continue
                } else if c == 'l' {
                    self.move_right();
                    KeyOutcome::Continue
                } else if c == '1' {
                    self.set_metric(MetricType::Cpu);
                    KeyOutcome::Continue
                } else if c == '2' {
                    self.set_metric(MetricType::Memory);
                    KeyOutcome::Continue
                } else if c == '3' {
                    self.set_metric(MetricType::Network);
                    KeyOutcome::Continue
                } else {
                    KeyOutcome::Continue
                }
            },
            _ => KeyOutcome::Continue,
        }
    }

    fn focused_key(&mut self, key: Key, ctrl: bool, focused_state: Option<&SessionState>) -> (out: KeyOutcome)
        requires
            old(self).focused is Some,
        ensures
            (final(self)@, out@) == focused_key(old(self)@, key, ctrl, state_view(focused_state)),
    {
        if key == Key::Esc {
            self.unfocus();
            return KeyOutcome::Continue;
        }
        match focused_state {
            Some(SessionState::NeedPassword) => {
                self.entering_password = true;
                match key {
                    Key::Enter => match self.submit_password() {
                        Some(line) => KeyOutcome::SendLine(line),
                        None => KeyOutcome::Continue,
                    },
                    Key::Backspace => {
                        let mut cs = chars_of(self.password_input.as_str());
                        if cs.len() > 0 {
                            cs.pop();
                        }
                        self.password_input = string_of(&cs);
                        KeyOutcome::Continue
                    },
                    Key::Char(c) => {
                        push_char(&mut self.password_input, c);
                        KeyOutcome::Continue
                    },
                    _ => KeyOutcome::Continue,
                }
            },
            Some(SessionState::Connected) => {
                let bytes = key_to_bytes(key, ctrl);
                if bytes.len() > 0 {
                    KeyOutcome::Send(bytes)
                } else {
                    KeyOutcome::Continue
                }
            },
            _ => KeyOutcome::Continue,
        }
    }
}

/// With Ctrl held, the letters `a` to `z` send the bytes 1 to 26, their
/// places in the alphabet.
pub proof fn lemma_ctrl_letters(c: char)
    requires
        'a' <= c <= 'z',
    ensures
        key_bytes(Key::Char(c), true) == seq![((c as int) - 0x60) as u8],
{
    let v = c as u32;
    assert(97 <= v <= 122);
    assert((v as u8) as u32 == v) by (bit_vector)
        requires
            97 <= v <= 122,
    ;
    assert((c as u8) == (v as u8));
}

/// Esc in focus mode goes back to the grid whatever state the focused
/// session is in, and in the grid Esc and `q` quit, leaving the dashboard
/// as it is.
pub proof fn lemma_escape<H>(m: DashModel<H>, ctrl: bool, state: Option<SessionStateView>)
    ensures
        m.focused is Some ==> key_effect(m, Key::Esc, ctrl, state).0.focused is None,
        m.focused is None ==> key_effect(m, Key::Esc, ctrl, state) == (m, KeyOutcomeView::Quit),
        m.focused is None ==> key_effect(m, Key::Char('q'), ctrl, state) == (m, KeyOutcomeView::Quit),
{
}

} // verus!
