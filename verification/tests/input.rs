use beebo::dashboard::{Dashboard, DashboardRow, FocusPanel, FocusState};
use beebo::input::{key_to_bytes, Key, KeyOutcome};
use beebo::metrics::MetricType;
use beebo::session::SessionState;

fn dash(rows: Vec<Vec<u32>>) -> Dashboard<u32> {
    Dashboard {
        rows: rows
            .into_iter()
            .enumerate()
            .map(|(i, h)| DashboardRow { name: format!("R{i}"), hosts: h })
            .collect(),
        hidden_hosts: vec![],
        show_hidden: false,
        selected_row: 0,
        selected_col: 0,
        focused: None,
        password_input: String::new(),
        entering_password: false,
        term_cols: 80,
        term_rows: 24,
        active_metric: MetricType::Cpu,
        focus_panel: FocusPanel::Terminal,
        focus_state: FocusState::PanelSelect,
        move_mode: false,
        move_origin: None,
        rename_mode: false,
        rename_input: String::new(),
        shake_frame: None,
        in_hidden_section: false,
        hidden_selected: 0,
    }
}

#[test]
fn bytes_for_keys() {
    assert_eq!(key_to_bytes(Key::Char('a'), false), vec![0x61]);
    assert_eq!(key_to_bytes(Key::Char('é'), false), "é".as_bytes().to_vec());
    assert_eq!(key_to_bytes(Key::Char('€'), false), "€".as_bytes().to_vec());
    assert_eq!(key_to_bytes(Key::Char('🦀'), false), "🦀".as_bytes().to_vec());
    assert_eq!(key_to_bytes(Key::Char('c'), true), vec![3]);
    assert_eq!(key_to_bytes(Key::Char('a'), true), vec![1]);
    assert_eq!(key_to_bytes(Key::Enter, false), vec![b'\r']);
    assert_eq!(key_to_bytes(Key::Backspace, false), vec![0x7f]);
    assert_eq!(key_to_bytes(Key::Tab, false), vec![b'\t']);
    assert_eq!(key_to_bytes(Key::Up, false), b"\x1b[A".to_vec());
    assert_eq!(key_to_bytes(Key::Down, false), b"\x1b[B".to_vec());
    assert_eq!(key_to_bytes(Key::Right, false), b"\x1b[C".to_vec());
    assert_eq!(key_to_bytes(Key::Left, false), b"\x1b[D".to_vec());
    assert_eq!(key_to_bytes(Key::Home, false), b"\x1b[H".to_vec());
    assert_eq!(key_to_bytes(Key::End, false), b"\x1b[F".to_vec());
    assert_eq!(key_to_bytes(Key::Delete, false), b"\x1b[3~".to_vec());
    assert!(key_to_bytes(Key::Esc, false).is_empty());
    assert!(key_to_bytes(Key::Other, false).is_empty());
}

#[test]
fn ctrl_wraps_around() {
    // '@' is below 'a': the byte wraps
    assert_eq!(key_to_bytes(Key::Char('@'), true), vec![0xe0]);
}

#[test]
fn grid_keys() {
    let mut d = dash(vec![vec![1, 2], vec![3]]);
    assert!(matches!(d.handle_key(Key::Char('l'), false, None), KeyOutcome::Continue));
    assert_eq!(d.selected_col, 1);
    d.handle_key(Key::Char('j'), false, None);
    assert_eq!((d.selected_row, d.selected_col), (1, 0));
    d.handle_key(Key::Up, false, None);
    d.handle_key(Key::Char('h'), false, None);
    assert_eq!((d.selected_row, d.selected_col), (0, 0));
    d.handle_key(Key::Tab, false, None);
    assert_eq!(d.active_metric, MetricType::Memory);
    d.handle_key(Key::Char('3'), false, None);
    assert_eq!(d.active_metric, MetricType::Network);
    d.handle_key(Key::Char('1'), false, None);
    assert_eq!(d.active_metric, MetricType::Cpu);
    assert!(matches!(d.handle_key(Key::Char('q'), false, None), KeyOutcome::Quit));
    assert!(matches!(d.handle_key(Key::Esc, false, None), KeyOutcome::Quit));
    assert!(matches!(d.handle_key(Key::Enter, false, None), KeyOutcome::Focused));
    assert_eq!(d.focused, Some((0, 0)));
}

#[test]
fn focused_password_entry() {
    let mut d = dash(vec![vec![1]]);
    d.focused = Some((0, 0));
    let st = SessionState::NeedPassword;
    d.handle_key(Key::Char('a'), false, Some(&st));
    d.handle_key(Key::Char('b'), false, Some(&st));
    d.handle_key(Key::Backspace, false, Some(&st));
    assert!(d.entering_password);
    assert_eq!(d.password_input, "a");
    match d.handle_key(Key::Enter, false, Some(&st)) {
        KeyOutcome::SendLine(l) => assert_eq!(l, "a\n"),
        _ => panic!("expected a line"),
    }
    assert_eq!(d.password_input, "");
    assert!(!d.entering_password);
    assert!(matches!(d.handle_key(Key::Esc, false, Some(&st)), KeyOutcome::Continue));
    assert_eq!(d.focused, None);
}

#[test]
fn focused_connected_forwards_bytes() {
    let mut d = dash(vec![vec![1]]);
    d.focused = Some((0, 0));
    let st = SessionState::Connected;
    match d.handle_key(Key::Char('x'), true, Some(&st)) {
        KeyOutcome::Send(b) => assert_eq!(b, vec![24]),
        _ => panic!("expected bytes"),
    }
    assert!(matches!(d.handle_key(Key::Other, false, Some(&st)), KeyOutcome::Continue));
    let idle = SessionState::Connecting;
    assert!(matches!(d.handle_key(Key::Char('x'), false, Some(&idle)), KeyOutcome::Continue));
    assert_eq!(d.focused, Some((0, 0)));
}
