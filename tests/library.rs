use world_backup::{
    archive_members, archive_path, current_time, format_clock, generation_name, is_archive,
    latest_generation, name_le_exec, new_generation_name, parse_backup_args, parse_days,
    parse_purge_args, parse_restore_args, parse_sync_args, plan_snapshot, purge, scan_options,
    subdirectories, ConfigError, DirEntry, EntryAction, DEFAULT_RETENTION_DAYS, SECS_PER_DAY,
};

fn s(v: &str) -> String {
    v.to_string()
}

fn strings(v: &[&str]) -> Vec<String> {
    v.iter().map(|x| x.to_string()).collect()
}

fn dir(name: &str, modified_secs: u64) -> DirEntry {
    DirEntry { name: s(name), is_dir: true, is_file: false, modified_secs }
}

fn file(name: &str, modified_secs: u64) -> DirEntry {
    DirEntry { name: s(name), is_dir: false, is_file: true, modified_secs }
}

fn summary(plan: &[EntryAction]) -> Vec<(bool, String)> {
    plan.iter().map(|a| (a.is_link(), a.name().clone())).collect()
}

#[test]
fn clock_text_is_zero_padded() {
    assert_eq!(format_clock(3661, 5), "01:01:01.000000005");
    assert_eq!(format_clock(0, 0), "00:00:00.000000000");
    assert_eq!(format_clock(59, 999_999_999), "00:00:59.999999999");
}

#[test]
fn clock_hours_are_not_wrapped() {
    assert_eq!(format_clock(100 * 3600 + 59 * 60 + 7, 120), "100:59:07.000000120");
    assert_eq!(format_clock(1_700_000_000, 1), "472222:13:20.000000001");
}

#[test]
fn generation_name_is_file_name_safe() {
    assert_eq!(generation_name(3661, 5), "01_01_01_000000005");
    assert_eq!(generation_name(1_700_000_000, 123_456_789), "472222_13_20_123456789");
}

#[test]
fn current_time_reads_the_clock() {
    let t = current_time();
    let chars: Vec<char> = t.chars().collect();
    let n = chars.len();
    assert!(n >= 18);
    assert_eq!(chars[n - 10], '.');
    assert_eq!(chars[n - 13], ':');
    assert_eq!(chars[n - 16], ':');
    assert_ne!(t, "00:00:00.000000000");
    let g = new_generation_name();
    assert!(!g.contains(':') && !g.contains('.'));
    assert_eq!(g.chars().filter(|c| *c == '_').count(), 3);
}

#[test]
fn later_generations_sort_last() {
    let a = generation_name(1_700_000_000, 999_999_999);
    let b = generation_name(1_700_000_001, 0);
    assert!(name_le_exec(&a, &b));
    assert!(!name_le_exec(&b, &a));
    let c = generation_name(1_700_000_001, 1);
    assert!(name_le_exec(&b, &c) && !name_le_exec(&c, &b));
}

#[test]
fn name_order_is_lexicographic() {
    assert!(name_le_exec(&s("abc"), &s("abd")));
    assert!(name_le_exec(&s("ab"), &s("abc")));
    assert!(!name_le_exec(&s("abc"), &s("ab")));
    assert!(name_le_exec(&s(""), &s("")));
    assert!(name_le_exec(&s("Z"), &s("a")));
}

#[test]
fn locator_picks_greatest_directory() {
    let entries = vec![
        dir("01_00_00_000000000", 0),
        dir("03_00_00_000000000", 0),
        file("zz.tar.gz", 0),
        dir("02_00_00_000000000", 0),
    ];
    assert_eq!(latest_generation(&entries), Some(s("03_00_00_000000000")));
}

#[test]
fn locator_finds_none_without_directories() {
    assert_eq!(latest_generation(&vec![]), None);
    assert_eq!(latest_generation(&vec![file("a", 0), file("b", 0)]), None);
}

#[test]
fn first_backup_copies_everything() {
    let plan = plan_snapshot(&strings(&["a.txt", "b.txt"]), &None);
    assert_eq!(summary(&plan), vec![(false, s("a.txt")), (false, s("b.txt"))]);
}

#[test]
fn second_backup_links_unchanged_names() {
    let source = strings(&["a.txt", "b.txt"]);
    let first = plan_snapshot(&source, &None);
    assert!(first.iter().all(|a| matches!(a, EntryAction::Copy(_))));
    let reference: Vec<String> = first.iter().map(|a| a.name().clone()).collect();
    let second = plan_snapshot(&source, &Some(reference));
    assert_eq!(summary(&second), vec![(true, s("a.txt")), (true, s("b.txt"))]);
}

#[test]
fn new_names_are_copied_under_a_reference() {
    let plan = plan_snapshot(&strings(&["a.txt", "c.txt", "b.txt"]), &Some(strings(&["b.txt", "a.txt", "old.txt"])));
    assert_eq!(summary(&plan), vec![(true, s("a.txt")), (false, s("c.txt")), (true, s("b.txt"))]);
    assert!(plan.iter().all(|a| a.name() != "old.txt"));
}

#[test]
fn empty_source_plans_nothing() {
    assert!(plan_snapshot(&vec![], &Some(strings(&["a"]))).is_empty());
}

#[test]
fn purge_removes_old_generations() {
    let now = 100 * SECS_PER_DAY;
    let entries = vec![
        dir("01", now - 10 * SECS_PER_DAY),
        dir("02", now - 8 * SECS_PER_DAY),
        dir("03", now - 7 * SECS_PER_DAY),
        file("00", now - 50 * SECS_PER_DAY),
        dir("04", now),
    ];
    assert_eq!(purge(7, &entries, now), strings(&["01", "02"]));
    assert_eq!(purge(0, &entries, now), strings(&["01", "02", "03"]));
}

#[test]
fn purge_keeps_latest_however_old() {
    let now = 1000 * SECS_PER_DAY;
    let entries = vec![dir("b", 0), dir("c", 0), dir("a", 0)];
    assert_eq!(purge(7, &entries, now), strings(&["b", "a"]));
    assert_eq!(purge(7, &vec![dir("only", 0)], now), Vec::<String>::new());
    assert_eq!(purge(7, &vec![], now), Vec::<String>::new());
}

#[test]
fn purge_ignores_future_times_and_huge_windows() {
    let entries = vec![dir("a", 500), dir("b", 0)];
    assert_eq!(purge(0, &entries, 100), Vec::<String>::new());
    assert_eq!(purge(u64::MAX, &entries, u64::MAX), Vec::<String>::new());
}

#[test]
fn backup_args_are_read() {
    let o = parse_backup_args(&strings(&["--world-dir", "/w", "--backup-dir", "/b"])).unwrap();
    assert_eq!((o.world_dir.as_str(), o.backup_dir.as_str(), o.server_session.as_str()), ("/w", "/b", ""));
    let o = parse_backup_args(&strings(&["--server-session", "mc", "--backup-dir", "/b", "--world-dir", "/w", "--world-dir", "/w2"])).unwrap();
    assert_eq!((o.world_dir.as_str(), o.server_session.as_str()), ("/w2", "mc"));
}

#[test]
fn backup_args_errors() {
    assert!(matches!(parse_backup_args(&strings(&["--world-dir"])), Err(ConfigError::MissingValue(f)) if f == "--world-dir"));
    assert!(matches!(parse_backup_args(&strings(&["--verbose", "x"])), Err(ConfigError::UnknownOption(f)) if f == "--verbose"));
    assert!(matches!(parse_backup_args(&strings(&["--backup-dir", "/b"])), Err(ConfigError::MissingRequired(f)) if f == "--world-dir"));
    assert!(matches!(parse_backup_args(&strings(&["--world-dir", "/w", "--backup-dir", ""])), Err(ConfigError::MissingRequired(f)) if f == "--backup-dir"));
    assert!(matches!(parse_backup_args(&vec![]), Err(ConfigError::MissingRequired(_))));
}

#[test]
fn restore_args_are_read() {
    let o = parse_restore_args(&strings(&["--backup-source", "/b/g.tar.gz", "--restore-dir", "/w"])).unwrap();
    assert_eq!((o.backup_source.as_str(), o.restore_dir.as_str()), ("/b/g.tar.gz", "/w"));
    assert!(matches!(parse_restore_args(&strings(&["--backup-source", "/b"])), Err(ConfigError::MissingRequired(f)) if f == "--restore-dir"));
    assert!(matches!(parse_restore_args(&strings(&["--restore-dir", "/w"])), Err(ConfigError::MissingRequired(f)) if f == "--backup-source"));
}

#[test]
fn purge_args_default_retention() {
    let o = parse_purge_args(&strings(&["--backup-dir", "/b"])).unwrap();
    assert_eq!((o.backup_dir.as_str(), o.retention_days), ("/b", DEFAULT_RETENTION_DAYS));
    assert_eq!(DEFAULT_RETENTION_DAYS, 7);
    let o = parse_purge_args(&strings(&["--backup-dir", "/b", "--retention-days", "30"])).unwrap();
    assert_eq!(o.retention_days, 30);
    let o = parse_purge_args(&strings(&["--retention-days", "many", "--backup-dir", "/b"])).unwrap();
    assert_eq!(o.retention_days, 7);
    assert!(matches!(parse_purge_args(&strings(&["--retention-days", "3"])), Err(ConfigError::MissingRequired(f)) if f == "--backup-dir"));
}

#[test]
fn days_are_decimal_digits() {
    assert_eq!(parse_days(&s("12")), Some(12));
    assert_eq!(parse_days(&s("007")), Some(7));
    assert_eq!(parse_days(&s("")), None);
    assert_eq!(parse_days(&s("+1")), None);
    assert_eq!(parse_days(&s("-1")), None);
    assert_eq!(parse_days(&s("1x")), None);
    assert_eq!(parse_days(&s("18446744073709551615")), Some(u64::MAX));
    assert_eq!(parse_days(&s("18446744073709551616")), None);
}

#[test]
fn sync_args_default_remote() {
    let o = parse_sync_args(&strings(&["--root-dir", "/r"])).unwrap();
    assert_eq!((o.root_dir.as_str(), o.remote_path.as_str()), ("/r", "gdrive:"));
    let o = parse_sync_args(&strings(&["--root-dir", "/r", "--remote-path", "remote:x"])).unwrap();
    assert_eq!(o.remote_path, "remote:x");
    assert!(matches!(parse_sync_args(&vec![]), Err(ConfigError::MissingRequired(f)) if f == "--root-dir"));
}

#[test]
fn scan_keeps_flag_positions() {
    let flags = strings(&["--a", "--b"]);
    let v = scan_options(&strings(&["--b", "2", "--a", "1", "--b", "3"]), &flags).unwrap();
    assert_eq!(v, vec![Some(s("1")), Some(s("3"))]);
    let v = scan_options(&vec![], &flags).unwrap();
    assert_eq!(v, vec![None, None]);
    assert!(matches!(scan_options(&strings(&["--a", "1", "--c"]), &flags), Err(ConfigError::UnknownOption(f)) if f == "--c"));
}

#[test]
fn archive_is_named_after_generation() {
    assert_eq!(archive_path(&s("/backups/srv"), &s("01_00_00_000000000"), &s("02_00_00_000000001")), "/backups/srv/01_00_00_000000000_02_00_00_000000001.tar.gz");
}

#[test]
fn archive_sources_are_recognised() {
    assert!(is_archive(&s("/b/g_1.tar.gz")));
    assert!(is_archive(&s(".tar.gz")));
    assert!(!is_archive(&s("/b/g_1")));
    assert!(!is_archive(&s("/b/g.tar")));
    assert!(!is_archive(&s("tar.gz")));
}

#[test]
fn archive_members_are_regular_files() {
    let entries = vec![file("a.txt", 0), dir("sub", 0), file("b.txt", 0), DirEntry { name: s("sock"), is_dir: false, is_file: false, modified_secs: 0 }];
    assert_eq!(archive_members(&entries), strings(&["a.txt", "b.txt"]));
    assert_eq!(subdirectories(&entries), strings(&["sub"]));
}
