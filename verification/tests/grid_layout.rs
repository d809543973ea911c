use beebo::grid_layout::{row_name_string, GridLayout, MAX_HOSTS_PER_ROW};

#[test]
fn from_hosts_distributes_correctly() {
    let hosts: Vec<String> = (0..23).map(|i| format!("host-{i}")).collect();
    let layout = GridLayout::from_hosts(&hosts);

    assert_eq!(layout.rows.len(), 3);
    assert_eq!(layout.rows[0].hosts.len(), 10);
    assert_eq!(layout.rows[1].hosts.len(), 10);
    assert_eq!(layout.rows[2].hosts.len(), 3);
    assert_eq!(layout.rows[0].name, "Row 1");
    assert_eq!(layout.rows[2].name, "Row 3");
}

#[test]
fn from_hosts_empty() {
    let layout = GridLayout::from_hosts(&[]);
    assert_eq!(layout.rows.len(), 1);
    assert!(layout.rows[0].hosts.is_empty());
}

#[test]
fn from_hosts_single_row() {
    let hosts: Vec<String> = (0..5).map(|i| format!("host-{i}")).collect();
    let layout = GridLayout::from_hosts(&hosts);
    assert_eq!(layout.rows.len(), 1);
    assert_eq!(layout.rows[0].hosts.len(), 5);
}

#[test]
fn max_hosts_per_row_is_ten() {
    assert_eq!(MAX_HOSTS_PER_ROW, 10);
}

#[test]
fn from_hosts_keeps_order_across_rows() {
    let hosts: Vec<String> = (0..12).map(|i| format!("h{i}")).collect();
    let layout = GridLayout::from_hosts(&hosts);
    let flat: Vec<String> = layout.rows.iter().flat_map(|r| r.hosts.clone()).collect();
    assert_eq!(flat, hosts);
    assert_eq!(layout.rows[1].hosts, vec!["h10".to_string(), "h11".to_string()]);
    assert!(layout.hidden.is_empty());
}

#[test]
fn from_dashboard_rows_copies_names_and_hosts() {
    let rows = vec![
        ("Production".to_string(), vec!["web1".to_string(), "web2".to_string()]),
        ("Staging".to_string(), vec!["staging1".to_string()]),
    ];
    let hidden = vec!["old-server".to_string()];
    let layout = GridLayout::from_dashboard_rows(&rows, &hidden);
    assert_eq!(layout.rows.len(), 2);
    assert_eq!(layout.rows[0].name, "Production");
    assert_eq!(layout.rows[0].hosts, vec!["web1", "web2"]);
    assert_eq!(layout.rows[1].name, "Staging");
    assert_eq!(layout.hidden, vec!["old-server"]);
}

#[test]
fn row_names_count_from_one() {
    assert_eq!(row_name_string(1), "Row 1");
    assert_eq!(row_name_string(12), "Row 12");
}
