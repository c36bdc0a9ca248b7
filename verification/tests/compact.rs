use rtk_ls::listing::{compact_ls, format_compact_output};
use rtk_ls::size::human_size;

#[test]
fn test_compact_basic() {
    let input = "total 48\n\
                 drwxr-xr-x  2 user  staff    64 Jan  1 12:00 .\n\
                 drwxr-xr-x  2 user  staff    64 Jan  1 12:00 ..\n\
                 drwxr-xr-x  2 user  staff    64 Jan  1 12:00 src\n\
                 -rw-r--r--  1 user  staff  1234 Jan  1 12:00 Cargo.toml\n\
                 -rw-r--r--  1 user  staff  5678 Jan  1 12:00 README.md\n";
    let (entries, _summary) = compact_ls(input, false);
    assert!(entries.contains("src/"));
    assert!(entries.contains("Cargo.toml"));
    assert!(entries.contains("README.md"));
    assert!(entries.contains("1.2K"));
    assert!(entries.contains("5.5K"));
    assert!(!entries.contains("drwx"));
    assert!(!entries.contains("staff"));
    assert!(!entries.contains("total"));
    assert!(!entries.contains("\n.\n"));
    assert!(!entries.contains("\n..\n"));
}

#[test]
fn test_compact_filters_noise() {
    let input = "total 8\n\
                 drwxr-xr-x  2 user  staff  64 Jan  1 12:00 node_modules\n\
                 drwxr-xr-x  2 user  staff  64 Jan  1 12:00 .git\n\
                 drwxr-xr-x  2 user  staff  64 Jan  1 12:00 target\n\
                 drwxr-xr-x  2 user  staff  64 Jan  1 12:00 src\n\
                 -rw-r--r--  1 user  staff  100 Jan  1 12:00 main.rs\n";
    let (entries, _summary) = compact_ls(input, false);
    assert!(!entries.contains("node_modules"));
    assert!(!entries.contains(".git"));
    assert!(!entries.contains("target"));
    assert!(entries.contains("src/"));
    assert!(entries.contains("main.rs"));
}

#[test]
fn test_compact_show_all() {
    let input = "total 8\n\
                 drwxr-xr-x  2 user  staff  64 Jan  1 12:00 .git\n\
                 drwxr-xr-x  2 user  staff  64 Jan  1 12:00 src\n";
    let (entries, _summary) = compact_ls(input, true);
    assert!(entries.contains(".git/"));
    assert!(entries.contains("src/"));
}

#[test]
fn test_compact_empty() {
    let input = "total 0\n";
    let (entries, summary) = compact_ls(input, false);
    assert_eq!(entries, "(empty)\n");
    assert!(summary.is_empty());
}

#[test]
fn test_compact_summary() {
    let input = "total 48\n\
                 drwxr-xr-x  2 user  staff    64 Jan  1 12:00 src\n\
                 -rw-r--r--  1 user  staff  1234 Jan  1 12:00 main.rs\n\
                 -rw-r--r--  1 user  staff  5678 Jan  1 12:00 lib.rs\n\
                 -rw-r--r--  1 user  staff   100 Jan  1 12:00 Cargo.toml\n";
    let (_entries, summary) = compact_ls(input, false);
    assert!(summary.contains("Summary: 3 files, 1 dirs"));
    assert!(summary.contains(".rs"));
    assert!(summary.contains(".toml"));
}

#[test]
fn test_human_size() {
    assert_eq!(human_size(0), "0B");
    assert_eq!(human_size(500), "500B");
    assert_eq!(human_size(1024), "1.0K");
    assert_eq!(human_size(1234), "1.2K");
    assert_eq!(human_size(1_048_576), "1.0M");
    assert_eq!(human_size(2_500_000), "2.4M");
}

#[test]
fn test_compact_handles_filenames_with_spaces() {
    let input = "total 8\n\
                 -rw-r--r--  1 user  staff  100 Jan  1 12:00 my file.txt\n";
    let (entries, _summary) = compact_ls(input, false);
    assert!(entries.contains("my file.txt"));
}

#[test]
fn test_windows_format_compact_output() {
    let dirs = vec!["src".to_string(), "tests".to_string()];
    let files = vec![
        ("Cargo.toml".to_string(), 1234, String::new()),
        ("README.md".to_string(), 5678, String::new()),
    ];

    let (entries, summary) = format_compact_output(&dirs, &files, false, true, false);

    assert!(entries.contains("src/"), "Should contain src/");
    assert!(entries.contains("tests/"), "Should contain tests/");

    assert!(entries.contains("Cargo.toml"), "Should contain Cargo.toml");
    assert!(entries.contains("README.md"), "Should contain README.md");
    assert!(entries.contains("1.2K"), "Should contain human-readable size for Cargo.toml");
    assert!(entries.contains("5.5K"), "Should contain human-readable size for README.md");

    assert!(summary.contains("2 files"), "Summary should show file count");
    assert!(summary.contains("2 dirs"), "Summary should show dir count");
}
