use beebo::process_info::parse_ps_output;

fn num(s: &str) -> f32 {
    s.parse().unwrap_or(0.0)
}

#[test]
fn test_parse_ps_output_normal() {
    let output = "\
USER         PID %CPU %MEM    VSZ   RSS TTY      STAT START   TIME COMMAND
root           1  0.0  0.1 169344 13200 ?        Ss   Feb20   0:15 /sbin/init
www-data    1234 25.3  5.2 450000 53000 ?        Sl   10:00   1:23 /usr/sbin/apache2 -k start
testuser    5678  1.2  0.3  22000  3000 pts/0    S+   10:05   0:00 vim test.txt
";
    let entries = parse_ps_output(output);
    assert_eq!(entries.len(), 3);

    assert_eq!(entries[0].pid, 1);
    assert_eq!(entries[0].user, "root");
    assert!((num(&entries[0].cpu) - 0.0).abs() < 0.01);
    assert_eq!(entries[0].command, "/sbin/init");

    assert_eq!(entries[1].pid, 1234);
    assert_eq!(entries[1].user, "www-data");
    assert!((num(&entries[1].cpu) - 25.3).abs() < 0.01);
    assert!((num(&entries[1].mem) - 5.2).abs() < 0.01);
    assert_eq!(entries[1].command, "/usr/sbin/apache2 -k start");
}

#[test]
fn test_parse_ps_output_empty() {
    let output = "USER         PID %CPU %MEM    VSZ   RSS TTY      STAT START   TIME COMMAND\n";
    let entries = parse_ps_output(output);
    assert!(entries.is_empty());
}

#[test]
fn test_parse_ps_output_header_only() {
    let output = "USER         PID %CPU %MEM    VSZ   RSS TTY      STAT START   TIME COMMAND";
    let entries = parse_ps_output(output);
    assert!(entries.is_empty());
}

#[test]
fn ps_lines_with_bad_pid_or_few_fields_are_skipped() {
    let output = "HEADER\nroot x 0.0 0.0 1 1 ? S 1 0 cmd\nroot 7 1.0 2.0\nroot 8 1.0 2.0 1 1 ? S 1 0 sh -c   'a  b'\n";
    let entries = parse_ps_output(output);
    assert_eq!(entries.len(), 1);
    assert_eq!(entries[0].pid, 8);
    assert_eq!(entries[0].cpu, "1.0");
    assert_eq!(entries[0].command, "sh -c 'a b'");
}
