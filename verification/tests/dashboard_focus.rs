use beebo::dashboard::{next_panel, FocusPanel, NavDirection};

fn test_move(start: FocusPanel, dir: NavDirection) -> FocusPanel {
    next_panel(start, dir)
}

#[test]
fn sidebar_right_goes_to_disk() {
    assert_eq!(test_move(FocusPanel::Sidebar, NavDirection::Right), FocusPanel::Disk);
}

#[test]
fn sidebar_down_goes_to_terminal() {
    assert_eq!(test_move(FocusPanel::Sidebar, NavDirection::Down), FocusPanel::Terminal);
}

#[test]
fn sidebar_up_is_noop() {
    assert_eq!(test_move(FocusPanel::Sidebar, NavDirection::Up), FocusPanel::Sidebar);
}

#[test]
fn sidebar_left_is_noop() {
    assert_eq!(test_move(FocusPanel::Sidebar, NavDirection::Left), FocusPanel::Sidebar);
}

#[test]
fn disk_left_goes_to_sidebar() {
    assert_eq!(test_move(FocusPanel::Disk, NavDirection::Left), FocusPanel::Sidebar);
}

#[test]
fn disk_right_goes_to_sysinfo() {
    assert_eq!(test_move(FocusPanel::Disk, NavDirection::Right), FocusPanel::SysInfo);
}

#[test]
fn disk_down_goes_to_main() {
    assert_eq!(test_move(FocusPanel::Disk, NavDirection::Down), FocusPanel::Main);
}

#[test]
fn sysinfo_left_goes_to_disk() {
    assert_eq!(test_move(FocusPanel::SysInfo, NavDirection::Left), FocusPanel::Disk);
}

#[test]
fn sysinfo_down_goes_to_main() {
    assert_eq!(test_move(FocusPanel::SysInfo, NavDirection::Down), FocusPanel::Main);
}

#[test]
fn sysinfo_right_is_noop() {
    assert_eq!(test_move(FocusPanel::SysInfo, NavDirection::Right), FocusPanel::SysInfo);
}

#[test]
fn main_left_goes_to_sidebar() {
    assert_eq!(test_move(FocusPanel::Main, NavDirection::Left), FocusPanel::Sidebar);
}

#[test]
fn main_up_goes_to_disk() {
    assert_eq!(test_move(FocusPanel::Main, NavDirection::Up), FocusPanel::Disk);
}

#[test]
fn main_down_goes_to_terminal() {
    assert_eq!(test_move(FocusPanel::Main, NavDirection::Down), FocusPanel::Terminal);
}

#[test]
fn terminal_up_goes_to_main() {
    assert_eq!(test_move(FocusPanel::Terminal, NavDirection::Up), FocusPanel::Main);
}

#[test]
fn terminal_down_is_noop() {
    assert_eq!(test_move(FocusPanel::Terminal, NavDirection::Down), FocusPanel::Terminal);
}

#[test]
fn terminal_left_is_noop() {
    assert_eq!(test_move(FocusPanel::Terminal, NavDirection::Left), FocusPanel::Terminal);
}

#[test]
fn terminal_right_is_noop() {
    assert_eq!(test_move(FocusPanel::Terminal, NavDirection::Right), FocusPanel::Terminal);
}
