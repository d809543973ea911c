use beebo::dashboard::{Dashboard, DashboardRow, FocusPanel, FocusState};
use beebo::metrics::MetricType;
use beebo::session::SessionState;
use beebo::view::{
    grid_columns, focus_badge, focus_title, grid_help_text, metric_tone, panel_hint, panel_label, terminal_title,
    tile_badge, tile_body, tile_border, tile_title, GridMode, TileMarks, Tone,
};

fn dash(rows: Vec<(&str, Vec<u32>)>, hidden: Vec<u32>) -> Dashboard<u32> {
    Dashboard {
        rows: rows
            .into_iter()
            .map(|(n, h)| DashboardRow { name: n.to_string(), hosts: h })
            .collect(),
        hidden_hosts: hidden,
        show_hidden: false,
        selected_row: 0,
        selected_col: 0,
        focused: None,
        password_input: String::new(),
        entering_password: false,
        term_cols: 80,
        term_rows: 24,
        active_metric: MetricType::Cpu,
        focus_panel: FocusPanel::Terminal,
        focus_state: FocusState::PanelSelect,
        move_mode: false,
        move_origin: None,
        rename_mode: false,
        rename_input: String::new(),
        shake_frame: None,
        in_hidden_section: false,
        hidden_selected: 0,
    }
}

#[test]
fn row_headers() {
    let mut d = dash(vec![("Web", vec![1, 2]), ("Db", vec![3])], vec![]);
    let h = d.row_header(0);
    assert_eq!(h.text, "── Web (2) ──");
    assert_eq!((h.tone, h.bold), (Tone::Cyan, false));
    let h1 = d.row_header(1);
    assert_eq!(h1.text, "── Db (1) ──");
    assert_eq!(h1.tone, Tone::DarkGray);
    d.rename_mode = true;
    d.rename_input = "Prod".to_string();
    let r = d.row_header(0);
    assert_eq!(r.text, " Row name: Prod_ ");
    assert_eq!((r.tone, r.bold), (Tone::Yellow, true));
    assert_eq!(d.grid_mode(), GridMode::Renaming);
}

#[test]
fn grid_sections_and_hidden_header() {
    let mut d = dash(vec![("A", vec![1])], vec![5, 6]);
    assert_eq!(d.grid_sections(), 1);
    assert!(!d.hidden_on_screen());
    d.show_hidden = true;
    assert_eq!(d.grid_sections(), 2);
    let h = d.hidden_header();
    assert_eq!(h.text, "─── Hidden (2) ▾ ───");
    assert_eq!(h.tone, Tone::DarkGray);
    d.in_hidden_section = true;
    assert_eq!(d.hidden_header().tone, Tone::Cyan);
    assert!(d.hidden_tile_selected(0));
    assert!(!d.hidden_tile_selected(1));
}

#[test]
fn tile_marks_and_border() {
    let mut d = dash(vec![("A", vec![1, 2])], vec![]);
    d.move_mode = true;
    d.shake_frame = Some((0, 3));
    let m = d.tile_marks(0, 0);
    assert_eq!(m, TileMarks { selected: true, moving: true, shaking: true });
    assert_eq!(d.tile_marks(0, 1), TileMarks { selected: false, moving: false, shaking: false });
    let st = SessionState::Connected;
    assert_eq!(tile_border(m, d.shake_frame, &st), (Tone::Red, true));
    assert_eq!(tile_border(m, Some((0, 2)), &st), (Tone::Yellow, true));
    let plain = TileMarks { selected: false, moving: false, shaking: false };
    assert_eq!(tile_border(plain, None, &st), (Tone::Green, false));
    assert_eq!(tile_border(plain, None, &SessionState::Disconnected("x".into())), (Tone::Red, false));
    assert_eq!(tile_border(plain, None, &SessionState::Idle), (Tone::DarkGray, false));
    let sel = TileMarks { selected: true, moving: false, shaking: false };
    assert_eq!(tile_border(sel, None, &SessionState::Idle), (Tone::Cyan, true));
}

#[test]
fn tile_titles_and_bodies() {
    let t = tile_title(false, &SessionState::Connected, "web1");
    assert_eq!(t.text, " ● web1 ");
    assert_eq!(t.tone, Tone::Green);
    let m = tile_title(true, &SessionState::Connected, "web1");
    assert_eq!(m.text, " ✦ web1 ");
    assert_eq!(m.tone, Tone::Yellow);
    assert_eq!(tile_badge(&SessionState::NeedPassword), ("⚷", Tone::Yellow));
    let b = tile_body(&SessionState::Disconnected("timeout".into()), "u@h");
    let texts: Vec<&str> = b.iter().map(|l| l.text.as_str()).collect();
    assert_eq!(texts, vec!["u@h", "", "✗ timeout"]);
    let p = tile_body(&SessionState::NeedPassword, "h");
    assert_eq!(p.len(), 4);
    assert_eq!(p[2].text, "⚷ Password required");
    let c = tile_body(&SessionState::Connecting, "h");
    assert_eq!(c[2].text, "Connecting...");
    assert_eq!(c[2].tone, Tone::Yellow);
}

#[test]
fn focus_texts() {
    let mut d = dash(vec![("A", vec![1])], vec![]);
    let lines = d.focus_body(&SessionState::NeedPassword);
    assert_eq!(lines[3].text, "Press any key to enter password...");
    d.entering_password = true;
    d.password_input = "pä".to_string();
    let lines = d.focus_body(&SessionState::NeedPassword);
    // one star per byte typed
    assert_eq!(lines[3].text, "Password: ***");
    let dis = d.focus_body(&SessionState::Disconnected("bye".into()));
    assert_eq!(dis[1].text, "✗ Disconnected: bye");
    assert!(dis[1].bold);
    assert_eq!(focus_title(&SessionState::Idle, "n", "u@h"), " ◌ n — u@h ");
    assert_eq!(focus_badge(&SessionState::Connected), ("●", Tone::Green));
    assert_eq!(terminal_title(&SessionState::Connected), " ● Terminal ");
    assert_eq!(panel_label(FocusPanel::SysInfo), "SysInfo");
    assert_eq!(panel_hint(FocusPanel::Terminal), "  (Input forwarded to SSH)");
    assert_eq!(panel_hint(FocusPanel::Disk), "  (View only)");
    d.focus_panel = FocusPanel::Disk;
    assert_eq!(d.panel_style(FocusPanel::Disk), (Tone::Cyan, true));
    d.focus_state = FocusState::PanelFocused;
    assert_eq!(d.panel_style(FocusPanel::Disk), (Tone::Green, true));
    assert_eq!(d.panel_style(FocusPanel::Main), (Tone::DarkGray, false));
}

#[test]
fn grid_help_names_metric() {
    assert_eq!(
        grid_help_text(MetricType::Network),
        " ↑↓←→ Navigate  Enter Focus  Space Move  r Rename  m Hide  H Hidden  Tab/NET  q Quit"
    );
    assert_eq!(metric_tone(MetricType::Memory), Tone::Magenta);
}

#[test]
fn columns_for_host_counts() {
    assert_eq!(grid_columns(0), 1);
    assert_eq!(grid_columns(2), 2);
    assert_eq!(grid_columns(3), 3);
    assert_eq!(grid_columns(8), 3);
    assert_eq!(grid_columns(9), 4);
}

#[test]
fn system_panel_captions() {
    let info = beebo::system_info::SystemInfo {
        os: "Debian".to_string(),
        kernel: "6.1".to_string(),
        hostname: "h".to_string(),
        uptime: "3d 2h".to_string(),
        cpu_info: "4 cores x86_64".to_string(),
        ram_total: "16 GB".to_string(),
    };
    let (up, ram) = beebo::view::sysinfo_captions(&info);
    assert_eq!(up, "Up 3d 2h");
    assert_eq!(ram, "RAM 16 GB");
}

#[test]
fn passwords_of_one_length_look_alike() {
    let mut d = dash(vec![("A", vec![1])], vec![]);
    d.entering_password = true;
    d.password_input = "secret".to_string();
    let a: Vec<String> = d.focus_body(&SessionState::NeedPassword).iter().map(|l| l.text.clone()).collect();
    d.password_input = "hunter".to_string();
    let b: Vec<String> = d.focus_body(&SessionState::NeedPassword).iter().map(|l| l.text.clone()).collect();
    assert_eq!(a, b);
    assert_eq!(a[3], "Password: ******");
    assert!(!a.iter().any(|t| t.contains("secret") || t.contains("hunter")));
}
