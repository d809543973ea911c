use beebo::disk_info::{disks_after, parse_df_output};

#[test]
fn test_parse_df_output_normal() {
    let output = "\
Mounted on      Size  Used Avail Use%
/               460G   12G  117G  10%
/boot           1.0G  200M  800M  20%
/home           200G   50G  150G  25%
";
    let entries = parse_df_output(output);
    assert_eq!(entries.len(), 3);

    assert_eq!(entries[0].mount, "/");
    assert_eq!(entries[0].size, "460G");
    assert_eq!(entries[0].used, "12G");
    assert_eq!(entries[0].avail, "117G");
    assert_eq!(entries[0].percent, 10);

    assert_eq!(entries[1].mount, "/boot");
    assert_eq!(entries[1].percent, 20);

    assert_eq!(entries[2].mount, "/home");
    assert_eq!(entries[2].size, "200G");
}

#[test]
fn test_parse_df_output_empty() {
    let output = "Mounted on      Size  Used Avail Use%\n";
    let entries = parse_df_output(output);
    assert!(entries.is_empty());
}

#[test]
fn test_parse_df_output_single_line() {
    let output = "\
Mounted on  Size  Used Avail Use%
/           50G   10G  40G   20%
";
    let entries = parse_df_output(output);
    assert_eq!(entries.len(), 1);
    assert_eq!(entries[0].mount, "/");
    assert_eq!(entries[0].percent, 20);
}

#[test]
fn test_parse_df_output_invalid_percent() {
    let output = "\
Mounted on  Size  Used Avail Use%
/           50G   10G  40G   -
";
    let entries = parse_df_output(output);
    assert_eq!(entries.len(), 1);
    assert_eq!(entries[0].percent, 0);
}

#[test]
fn df_lines_with_too_few_fields_are_skipped() {
    let output = "Mounted on  Size  Used Avail Use%\n/only three fields\n/data 1G 2G 3G 4%\n";
    let entries = parse_df_output(output);
    assert_eq!(entries.len(), 1);
    assert_eq!(entries[0].mount, "/data");
    assert_eq!(entries[0].percent, 4);
}

#[test]
fn failed_collection_keeps_previous_disks() {
    let out = "Mounted on Size Used Avail Use%\n/ 10G 5G 5G 50%\n";
    let first = disks_after(None, Some(out)).unwrap();
    assert_eq!(first.len(), 1);
    assert_eq!(first[0].percent, 50);
    let kept = disks_after(Some(first), None).unwrap();
    assert_eq!(kept.len(), 1);
    assert_eq!(kept[0].mount, "/");
    assert!(disks_after(None, None).is_none());
    let next = "Mounted on Size Used Avail Use%\n/ 10G 6G 4G 60%\n/home 1G 0 1G 0%\n";
    let replaced = disks_after(Some(kept), Some(next)).unwrap();
    assert_eq!(replaced.len(), 2);
    assert_eq!(replaced[0].percent, 60);
}
