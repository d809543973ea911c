use beebo::dashboard::{Dashboard, DashboardRow, FocusPanel, FocusState, NavDirection};
use beebo::grid_layout::{GridLayout, GridRow};
use beebo::metrics::MetricType;
use beebo::ssh_config::SshHost;

fn dash(rows: Vec<(&str, Vec<u32>)>, hidden: Vec<u32>) -> Dashboard<u32> {
    Dashboard {
        rows: rows
            .into_iter()
            .map(|(n, h)| DashboardRow { name: n.to_string(), hosts: h })
            .collect(),
        hidden_hosts: hidden,
        show_hidden: false,
        selected_row: 0,
        selected_col: 0,
        focused: None,
        password_input: String::new(),
        entering_password: false,
        term_cols: 80,
        term_rows: 24,
        active_metric: MetricType::Cpu,
        focus_panel: FocusPanel::Terminal,
        focus_state: FocusState::PanelSelect,
        move_mode: false,
        move_origin: None,
        rename_mode: false,
        rename_input: String::new(),
        shake_frame: None,
        in_hidden_section: false,
        hidden_selected: 0,
    }
}

fn hosts_of(d: &Dashboard<u32>) -> Vec<Vec<u32>> {
    d.rows.iter().map(|r| r.hosts.clone()).collect()
}

fn names_of(d: &Dashboard<u32>) -> Vec<String> {
    d.rows.iter().map(|r| r.name.clone()).collect()
}

fn all_sorted(d: &Dashboard<u32>) -> Vec<u32> {
    let mut v: Vec<u32> = d.rows.iter().flat_map(|r| r.hosts.clone()).collect();
    v.extend(d.hidden_hosts.iter().copied());
    v.sort();
    v
}

#[test]
fn navigation_clamps_to_row_length() {
    let mut d = dash(vec![("A", vec![1, 2, 3]), ("B", vec![4])], vec![]);
    d.move_right();
    d.move_right();
    d.move_right();
    assert_eq!((d.selected_row, d.selected_col), (0, 2));
    d.move_down();
    assert_eq!((d.selected_row, d.selected_col), (1, 0));
    d.move_down();
    assert_eq!((d.selected_row, d.selected_col), (1, 0));
    d.move_up();
    assert_eq!((d.selected_row, d.selected_col), (0, 0));
    d.move_left();
    assert_eq!(d.selected_col, 0);
    assert_eq!(d.selected_session(), Some(&1));
    assert_eq!(d.session_at(1, 0), Some(&4));
    assert_eq!(d.session_at(1, 1), None);
    assert_eq!(d.total_visible(), 4);
}

#[test]
fn navigation_into_and_out_of_hidden_section() {
    let mut d = dash(vec![("A", vec![1, 2])], vec![7, 8]);
    d.move_down();
    assert!(!d.in_hidden_section);
    d.toggle_hidden();
    d.move_down();
    assert!(d.in_hidden_section);
    assert_eq!(d.selected_session(), Some(&7));
    d.move_right();
    assert_eq!(d.selected_session(), Some(&8));
    d.move_right();
    assert_eq!(d.hidden_selected, 1);
    d.move_up();
    assert!(!d.in_hidden_section);
    assert_eq!(d.selected_row, 0);
    // hiding the section while in it puts the cursor on the last row
    d.move_down();
    d.toggle_hidden();
    assert!(!d.in_hidden_section && !d.show_hidden);
    assert_eq!((d.selected_row, d.selected_col), (0, 0));
}

#[test]
fn move_right_then_left_undoes() {
    let mut d = dash(vec![("A", vec![1, 2, 3])], vec![]);
    d.selected_col = 1;
    d.enter_move_mode();
    assert!(d.move_host(NavDirection::Right));
    assert_eq!(hosts_of(&d), vec![vec![1, 3, 2]]);
    assert_eq!(d.selected_col, 2);
    assert!(!d.move_host(NavDirection::Right));
    assert!(d.move_host(NavDirection::Left));
    assert_eq!(hosts_of(&d), vec![vec![1, 2, 3]]);
    assert_eq!(d.selected_col, 1);
}

#[test]
fn move_down_into_next_row_and_to_new_row() {
    let mut d = dash(vec![("A", vec![1, 2]), ("B", vec![3])], vec![]);
    d.enter_move_mode();
    assert!(d.move_host(NavDirection::Down));
    assert_eq!(hosts_of(&d), vec![vec![2], vec![1, 3]]);
    assert_eq!((d.selected_row, d.selected_col), (1, 0));
    assert!(d.move_host(NavDirection::Down));
    assert_eq!(hosts_of(&d), vec![vec![2], vec![3], vec![1]]);
    assert_eq!(names_of(&d), vec!["A", "B", "Row 3"]);
    assert_eq!((d.selected_row, d.selected_col), (2, 0));
    assert!(d.move_host(NavDirection::Up));
    // the emptied row is removed; the host goes last in the row above
    assert_eq!(hosts_of(&d), vec![vec![2], vec![3, 1]]);
    assert_eq!((d.selected_row, d.selected_col), (1, 1));
}

#[test]
fn move_into_full_row_is_refused_with_shake() {
    let full: Vec<u32> = (10..20).collect();
    let mut d = dash(vec![("A", full.clone()), ("B", vec![1])], vec![]);
    d.selected_row = 1;
    d.enter_move_mode();
    assert!(!d.move_host(NavDirection::Up));
    assert_eq!(d.shake_frame, Some((0, 6)));
    assert_eq!(hosts_of(&d), vec![full, vec![1]]);
    for _ in 0..6 {
        d.tick_shake();
        assert!(d.shake_frame.is_some());
    }
    d.tick_shake();
    assert_eq!(d.shake_frame, None);
}

#[test]
fn cancel_after_one_move_restores() {
    let mut d = dash(vec![("A", vec![1, 2]), ("B", vec![3, 4])], vec![]);
    d.selected_col = 1;
    d.enter_move_mode();
    assert_eq!(d.move_origin, Some((0, 1)));
    assert!(d.move_host(NavDirection::Down));
    assert_eq!(hosts_of(&d), vec![vec![1], vec![2, 3, 4]]);
    d.cancel_move();
    assert_eq!(hosts_of(&d), vec![vec![1, 2], vec![3, 4]]);
    assert_eq!((d.selected_row, d.selected_col), (0, 1));
    assert!(!d.move_mode);
    assert_eq!(d.move_origin, None);
}

#[test]
fn cancel_cannot_bring_back_a_row_the_move_removed() {
    let mut d = dash(vec![("Web", vec![1]), ("B", vec![3])], vec![]);
    d.enter_move_mode();
    assert!(d.move_host(NavDirection::Down));
    assert_eq!(hosts_of(&d), vec![vec![1, 3]]);
    d.cancel_move();
    assert_eq!(hosts_of(&d), vec![vec![1, 3]]);
    assert_eq!(names_of(&d), vec!["B"]);
}

#[test]
fn cancel_recreates_the_origin_row_under_a_default_name() {
    let mut d = dash(vec![("Web", vec![1]), ("B", vec![3])], vec![]);
    d.enter_move_mode();
    assert!(!d.move_host(NavDirection::Right));
    d.cancel_move();
    assert_eq!(hosts_of(&d), vec![vec![1], vec![3]]);
    assert_eq!(names_of(&d), vec!["Row 1", "B"]);
    assert_eq!((d.selected_row, d.selected_col), (0, 0));
}

#[test]
fn confirm_move_keeps_arrangement() {
    let mut d = dash(vec![("A", vec![1, 2])], vec![]);
    d.enter_move_mode();
    d.move_host(NavDirection::Right);
    d.confirm_move();
    assert!(!d.move_mode);
    assert_eq!(hosts_of(&d), vec![vec![2, 1]]);
}

#[test]
fn hide_and_unhide_keep_every_host() {
    let mut d = dash(vec![("A", vec![1]), ("B", vec![2, 3])], vec![]);
    let before = all_sorted(&d);
    assert!(d.hide_host());
    // the emptied row is removed
    assert_eq!(hosts_of(&d), vec![vec![2, 3]]);
    assert_eq!(d.hidden_hosts, vec![1]);
    assert_eq!(all_sorted(&d), before);
    d.toggle_hidden();
    d.move_down();
    assert!(d.in_hidden_section);
    assert!(d.hide_host());
    assert_eq!(hosts_of(&d), vec![vec![2, 3, 1]]);
    assert!(d.hidden_hosts.is_empty());
    assert!(!d.in_hidden_section);
    assert_eq!(all_sorted(&d), before);
}

#[test]
fn unhide_into_full_last_row_makes_new_row() {
    let full: Vec<u32> = (10..20).collect();
    let mut d = dash(vec![("A", full)], vec![5]);
    d.show_hidden = true;
    d.in_hidden_section = true;
    assert!(d.hide_host());
    assert_eq!(hosts_of(&d)[1], vec![5]);
    assert_eq!(names_of(&d)[1], "Row 2");
}

#[test]
fn hide_with_nothing_selected_changes_nothing() {
    let mut d = dash(vec![("A", vec![])], vec![]);
    assert!(!d.hide_host());
}

#[test]
fn rename_flow() {
    let mut d = dash(vec![("A", vec![1])], vec![]);
    d.enter_rename_mode();
    assert!(d.rename_mode);
    assert_eq!(d.rename_input, "A");
    d.rename_input = "Prod".to_string();
    assert!(d.confirm_rename());
    assert_eq!(names_of(&d), vec!["Prod"]);
    assert!(!d.rename_mode);
    assert_eq!(d.rename_input, "");
    d.enter_rename_mode();
    d.rename_input.push('x');
    d.cancel_rename();
    assert_eq!(names_of(&d), vec!["Prod"]);
}

#[test]
fn focus_and_password() {
    let mut d = dash(vec![("A", vec![1, 2])], vec![]);
    d.selected_col = 1;
    assert!(d.focus());
    assert_eq!(d.focused, Some((0, 1)));
    assert_eq!(d.focused_session(), Some(&2));
    d.move_focus(NavDirection::Up);
    assert_eq!(d.focus_panel, FocusPanel::Main);
    d.password_input = "pw".to_string();
    assert_eq!(d.submit_password(), Some("pw\n".to_string()));
    assert_eq!(d.password_input, "");
    d.unfocus();
    assert_eq!(d.focused, None);
    assert_eq!(d.focus_panel, FocusPanel::Terminal);
    assert_eq!(d.submit_password(), None);
    d.in_hidden_section = true;
    assert!(!d.focus());
}

#[test]
fn metrics_selection() {
    let mut d = dash(vec![("A", vec![1])], vec![]);
    d.cycle_metric();
    assert_eq!(d.active_metric, MetricType::Memory);
    d.set_metric(MetricType::Network);
    d.cycle_metric();
    assert_eq!(d.active_metric, MetricType::Cpu);
}

fn host(name: &str, user: Option<&str>) -> SshHost {
    SshHost {
        name: name.to_string(),
        hostname: None,
        user: user.map(|u| u.to_string()),
        port: None,
        identity_file: None,
    }
}

fn strings(v: &[&str]) -> Vec<String> {
    v.iter().map(|s| s.to_string()).collect()
}

#[test]
fn new_dashboard_follows_layout() {
    let hosts = vec![host("a", None), host("b", None), host("c", None), host("d", None)];
    let layout = GridLayout {
        rows: vec![
            GridRow { name: "Web".to_string(), hosts: strings(&["c", "gone", "a"]) },
            GridRow { name: "Empty".to_string(), hosts: strings(&["gone2"]) },
        ],
        hidden: strings(&["b"]),
    };
    let d = Dashboard::new(hosts, &layout, 100, 40);
    let names: Vec<Vec<String>> =
        d.rows.iter().map(|r| r.hosts.iter().map(|h| h.name.clone()).collect()).collect();
    // "Empty" lost all its hosts and is dropped; "d" was in no row: it gets
    // a new row named after the layout's row count
    assert_eq!(names, vec![strings(&["c", "a"]), strings(&["d"])]);
    let row_names: Vec<String> = d.rows.iter().map(|r| r.name.clone()).collect();
    assert_eq!(row_names, strings(&["Web", "Row 3"]));
    assert_eq!(d.hidden_hosts.len(), 1);
    assert_eq!(d.hidden_hosts[0].name, "b");
    assert_eq!((d.selected_row, d.selected_col), (0, 0));
    assert_eq!((d.term_cols, d.term_rows), (100, 40));
    assert_eq!(d.active_metric, MetricType::Cpu);
    assert!(d.focused.is_none() && !d.move_mode && !d.rename_mode);
}

#[test]
fn new_dashboard_last_host_of_a_name_wins() {
    let hosts = vec![host("a", Some("first")), host("a", Some("second"))];
    let layout = GridLayout::from_hosts(&strings(&["a", "a"]));
    let d = Dashboard::new(hosts, &layout, 80, 24);
    assert_eq!(d.rows.len(), 1);
    assert_eq!(d.rows[0].hosts.len(), 1);
    assert_eq!(d.rows[0].hosts[0].user.as_deref(), Some("second"));
}

#[test]
fn new_dashboard_without_hosts_has_one_empty_row() {
    let layout = GridLayout::from_hosts(&[]);
    let d = Dashboard::new(Vec::new(), &layout, 80, 24);
    assert_eq!(d.rows.len(), 1);
    assert_eq!(d.rows[0].name, "Row 1");
    assert!(d.rows[0].hosts.is_empty());
}

#[test]
fn saved_layout_restores_arrangement() {
    let hosts = vec![host("a", None), host("b", None), host("c", None), host("d", None), host("e", None)];
    let mut d = Dashboard::new(hosts, &GridLayout::from_hosts(&strings(&["a", "b", "c", "d", "e"])), 80, 24);
    // rearrange: d to the front, c down into a new row, b hidden, first row renamed
    d.selected_col = 3;
    d.enter_move_mode();
    assert!(d.move_host(NavDirection::Left));
    assert!(d.move_host(NavDirection::Left));
    assert!(d.move_host(NavDirection::Left));
    d.confirm_move();
    d.selected_col = 3;
    d.enter_move_mode();
    assert!(d.move_host(NavDirection::Down));
    d.confirm_move();
    d.selected_row = 0;
    d.selected_col = 2;
    assert!(d.hide_host());
    d.enter_rename_mode();
    d.rename_input = "Main".to_string();
    d.confirm_rename();
    let rows: Vec<(String, Vec<String>)> = d
        .rows
        .iter()
        .map(|r| (r.name.clone(), r.hosts.iter().map(|h| h.name.clone()).collect()))
        .collect();
    let hidden: Vec<String> = d.hidden_hosts.iter().map(|h| h.name.clone()).collect();
    let layout = GridLayout::from_dashboard_rows(&rows, &hidden);
    // start again, with the configured hosts in another order
    let again = Dashboard::new(
        vec![host("e", None), host("d", None), host("c", None), host("b", None), host("a", None)],
        &layout,
        80,
        24,
    );
    let rows2: Vec<(String, Vec<String>)> = again
        .rows
        .iter()
        .map(|r| (r.name.clone(), r.hosts.iter().map(|h| h.name.clone()).collect()))
        .collect();
    let hidden2: Vec<String> = again.hidden_hosts.iter().map(|h| h.name.clone()).collect();
    assert_eq!(rows2, rows);
    assert_eq!(hidden2, hidden);
    assert_eq!(rows[0].0, "Main");
}

#[test]
fn cancel_after_many_moves_restores() {
    let mut d = dash(vec![("A", vec![1, 2, 3]), ("B", vec![4, 5]), ("C", vec![6])], vec![]);
    d.selected_col = 1;
    d.enter_move_mode();
    assert!(d.move_host(NavDirection::Right));
    assert!(d.move_host(NavDirection::Down));
    assert!(d.move_host(NavDirection::Down));
    assert!(d.move_host(NavDirection::Down));
    assert_eq!(hosts_of(&d), vec![vec![1, 3], vec![4, 5], vec![6], vec![2]]);
    assert_eq!((d.selected_row, d.selected_col), (3, 0));
    assert!(!d.move_host(NavDirection::Right));
    assert!(d.move_host(NavDirection::Up));
    assert!(d.move_host(NavDirection::Left));
    assert!(d.move_host(NavDirection::Up));
    assert_eq!(hosts_of(&d), vec![vec![1, 3], vec![4, 5, 2], vec![6]]);
    d.cancel_move();
    assert_eq!(hosts_of(&d), vec![vec![1, 2, 3], vec![4, 5], vec![6]]);
    assert_eq!(names_of(&d), vec!["A", "B", "C"]);
    assert_eq!((d.selected_row, d.selected_col), (0, 1));
    assert!(!d.move_mode);
    assert_eq!(d.move_origin, None);
}

#[test]
fn moves_keep_rows_filled_and_cursor_on_a_host() {
    let full: Vec<u32> = (10..20).collect();
    let mut d = dash(vec![("A", vec![1]), ("B", vec![2]), ("C", full)], vec![]);
    d.enter_move_mode();
    let dirs = [
        NavDirection::Down,
        NavDirection::Down,
        NavDirection::Left,
        NavDirection::Up,
        NavDirection::Right,
        NavDirection::Down,
        NavDirection::Down,
        NavDirection::Up,
        NavDirection::Up,
    ];
    for dir in dirs {
        d.move_host(dir);
        assert!(d.rows.iter().all(|r| !r.hosts.is_empty() && r.hosts.len() <= 10));
        assert!(d.selected_row < d.rows.len());
        assert!(d.selected_col < d.rows[d.selected_row].hosts.len());
    }
    assert_eq!(all_sorted(&d), (1..3).chain(10..20).collect::<Vec<u32>>());
}
