use beebo::disk_info::DiskEntry;
use beebo::panels::{
    bar_fill, command_display, disk_line, entry_style, entry_text, gutter, header_lines,
    last_content_row, listed_entries, path_display, scroll_offset, suggestion_style,
    suggestion_text, terminal_window, usage_tone, EntryStyle,
};
use beebo::view::Tone;

#[test]
fn path_shortened_to_last_component() {
    assert_eq!(path_display("/home/user", 40), "/home/user");
    assert_eq!(path_display("/home/user/projects/deep", 10), "…/deep");
    assert_eq!(path_display("nodirectory", 4), "nodirectory");
}

#[test]
fn scroll_keeps_selection_centered() {
    assert_eq!(scroll_offset(5, 4, 10), 0);
    assert_eq!(scroll_offset(100, 3, 10), 0);
    assert_eq!(scroll_offset(100, 50, 10), 45);
    assert_eq!(scroll_offset(100, 97, 10), 90);
    assert_eq!(header_lines(true, 9, false), 7);
    assert_eq!(header_lines(true, 2, false), 3);
    assert_eq!(header_lines(false, 2, true), 1);
    assert_eq!(header_lines(false, 2, false), 0);
}

#[test]
fn search_filters_case_insensitively() {
    let names: Vec<String> = ["README.md", "src", "Cargo.toml", "readme.txt"]
        .iter()
        .map(|s| s.to_string())
        .collect();
    assert_eq!(listed_entries(&names, true, "ReadMe"), vec![0, 3]);
    assert_eq!(listed_entries(&names, true, ""), vec![0, 1, 2, 3]);
    assert_eq!(listed_entries(&names, false, "zzz"), vec![0, 1, 2, 3]);
    assert!(listed_entries(&names, true, "zzz").is_empty());
}

#[test]
fn entry_and_suggestion_rendering() {
    assert_eq!(entry_text("src", true), "📁 src");
    assert_eq!(entry_text("a.rs", false), "📄 a.rs");
    assert_eq!(entry_style(2, 2, true, false), EntryStyle::Highlighted);
    assert_eq!(entry_style(2, 2, false, false), EntryStyle::Selected);
    assert_eq!(entry_style(1, 2, true, true), EntryStyle::Directory);
    assert_eq!(entry_style(1, 2, true, false), EntryStyle::File);
    assert_eq!(suggestion_text("etc", true), "  etc/");
    assert_eq!(suggestion_text("f", false), "  f");
    assert_eq!(suggestion_style(0, 0, false), EntryStyle::Highlighted);
    assert_eq!(suggestion_style(1, 0, true), EntryStyle::Directory);
}

#[test]
fn disk_lines() {
    let d = DiskEntry {
        mount: "/".to_string(),
        size: "460G".to_string(),
        used: "12G".to_string(),
        avail: "117G".to_string(),
        percent: 75,
    };
    let l = disk_line(&d);
    assert_eq!(l.mount, "/     ");
    assert_eq!(l.usage, "12G/460G ");
    assert_eq!(l.bar, "██████░░");
    assert_eq!(l.percent, " 75%");
    assert_eq!(l.tone, Tone::Yellow);
    assert_eq!(usage_tone(69), Tone::Green);
    assert_eq!(usage_tone(90), Tone::Red);
    let full = DiskEntry { percent: 255, ..d };
    assert_eq!(disk_line(&full).bar, "████████");
}

#[test]
fn bars_and_gutters() {
    assert_eq!(bar_fill(50, 12), 6);
    assert_eq!(bar_fill(100, 12), 12);
    assert_eq!(bar_fill(250, 12), 12);
    assert_eq!(bar_fill(7, 12), 0);
    assert_eq!(gutter(7), "   7 │ ");
    assert_eq!(gutter(12345), "12345 │ ");
}

#[test]
fn long_commands_are_cut() {
    assert_eq!(command_display("short", 80), "short");
    // room = 40 - 32 = 8 bytes; cut at 7 and add an ellipsis
    assert_eq!(command_display("/usr/bin/python3 app.py", 40), "/usr/bi…");
    assert_eq!(command_display("abc", 30), "…");
    assert_eq!(command_display("ééé", 37), "éé…");
}

#[test]
fn terminal_shows_rows_up_to_last_content() {
    let rows: Vec<String> = vec!["$ ls".into(), "a b".into(), "   ".into(), "".into()];
    let last = last_content_row(&rows);
    assert_eq!(last, 1);
    assert_eq!(terminal_window(last, 4, 10), (0, 2));
    assert_eq!(terminal_window(30, 40, 10), (21, 31));
    assert_eq!(last_content_row(&vec![String::new()]), 0);
    assert_eq!(terminal_window(0, 0, 5), (0, 0));
}
