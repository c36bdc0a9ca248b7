use rtk_ls::invocation::{choose_output, reduction_note, run};
use rtk_ls::listing::{compact_ls, format_compact_output};
use rtk_ls::native::{
    format_long_entry, format_timestamp, keep_entry, parse_native_args, raw_line, unsupported_note,
};
use rtk_ls::size::human_size;
use rtk_ls::text::{is_whitespace, parse_decimal_u64, split_lines, split_words};

fn float_reference(bytes: u64) -> String {
    if bytes >= 1_048_576 {
        format!("{:.1}M", bytes as f64 / 1_048_576.0)
    } else if bytes >= 1024 {
        format!("{:.1}K", bytes as f64 / 1024.0)
    } else {
        format!("{}B", bytes)
    }
}

fn chars(s: &str) -> Vec<char> {
    s.chars().collect()
}

fn strings(v: Vec<Vec<char>>) -> Vec<String> {
    v.into_iter().map(|w| w.into_iter().collect()).collect()
}

fn args(v: &[&str]) -> Vec<String> {
    v.iter().map(|s| s.to_string()).collect()
}

#[test]
fn human_size_agrees_with_float_formatting() {
    let mut samples: Vec<u64> = Vec::new();
    for b in 0..5000u64 {
        samples.push(b);
    }
    for k in 0..2000u64 {
        samples.push(k * 512);
        samples.push(k * 52429);
        samples.push(1_048_576 + k * 52_428);
        samples.push(1_048_576 * k + 524_288);
    }
    for shift in 40..64u32 {
        let base = 1u64 << shift;
        for d in 0..70u64 {
            samples.push(base + d);
            samples.push(base - d);
            samples.push(base + (base >> 1) + d * 1023);
        }
    }
    samples.push(u64::MAX);
    samples.push(u64::MAX - 1);
    samples.push(u64::MAX - 1024);
    samples.push((1u64 << 53) + 1);
    samples.push((1u64 << 54) + 2);
    samples.push((1u64 << 54) + 6);
    for b in samples {
        assert_eq!(human_size(b), float_reference(b), "bytes = {}", b);
    }
}

#[test]
fn human_size_ties_round_to_even() {
    assert_eq!(human_size(1280), "1.2K");
    assert_eq!(human_size(1_310_720), "1.2M");
    assert_eq!(human_size(1_835_008), "1.8M");
    assert_eq!(human_size(1023), "1023B");
    assert_eq!(human_size(1_048_575), "1024.0K");
}

#[test]
fn lines_agree_with_std() {
    for s in ["", "a", "a\n", "a\nb", "a\r\nb\r\n", "\n\n", "x\r", "x\r\ny\r", "\r\n", "a\n\nb\n"] {
        let mine = strings(split_lines(&chars(s)));
        let theirs: Vec<String> = s.lines().map(|l| l.to_string()).collect();
        assert_eq!(mine, theirs, "input {:?}", s);
    }
}

#[test]
fn words_agree_with_std() {
    for s in ["", "  ", "a b", " a\tb \u{a0}c\u{3000}d ", "x\u{2009}y", "one"] {
        let mine = strings(split_words(&chars(s)));
        let theirs: Vec<String> = s.split_whitespace().map(|w| w.to_string()).collect();
        assert_eq!(mine, theirs, "input {:?}", s);
    }
}

#[test]
fn whitespace_agrees_with_std() {
    for code in 0u32..0x11_0000 {
        if let Some(c) = char::from_u32(code) {
            assert_eq!(is_whitespace(c), c.is_whitespace(), "char {:?}", c);
        }
    }
}

#[test]
fn unsigned_parse_agrees_with_std() {
    for s in [
        "", "0", "+", "+5", "-5", "42", "0042", "18446744073709551615", "18446744073709551616",
        "99999999999999999999999", "1a", " 1", "1,234", "٣",
    ] {
        assert_eq!(parse_decimal_u64(&chars(s)), s.parse::<u64>().ok(), "input {:?}", s);
    }
}

#[test]
fn compact_exact_output() {
    let input = "total 48\n\
                 drwxr-xr-x  2 user  staff    64 Jan  1 12:00 src\n\
                 -rw-r--r--  1 user  staff  1234 Jan  1 12:00 main.rs\n\
                 lrwxr-xr-x  1 user  staff     7 Jan  1 12:00 link -> main.rs\n\
                 crw-r--r--  1 user  staff     7 Jan  1 12:00 device\n\
                 -rw-r--r--  1 user  staff   100 Jan  1 12:00 Cargo.toml\n";
    let (entries, summary) = compact_ls(input, false);
    assert_eq!(entries, "src/\nmain.rs  1.2K\nlink -> main.rs  7B\nCargo.toml  100B\n");
    assert_eq!(summary, "\nSummary: 3 files, 1 dirs (2 .rs, 1 .toml)\n");
}

#[test]
fn compact_summary_orders_by_count_and_caps_at_five() {
    let mut input = String::from("total 1\n");
    let names = ["a.rs", "b.rs", "c.md", "d.rs", "e.toml", "f.md", "g", "h.c", "i.h", "j.py"];
    for n in names {
        input.push_str(&format!("-rw-r--r-- 1 u g 10 Jan 1 12:00 {}\n", n));
    }
    let (_entries, summary) = compact_ls(&input, false);
    assert_eq!(
        summary,
        "\nSummary: 10 files, 0 dirs (3 .rs, 2 .md, 1 .toml, 1 no ext, 1 .c, +2 more)\n"
    );
}

#[test]
fn compact_size_column_that_is_not_a_number_counts_as_zero() {
    let input = "-rw-r--r-- 1 u g big Jan 1 12:00 x.txt\n";
    let (entries, _summary) = compact_ls(input, false);
    assert_eq!(entries, "x.txt  0B\n");
}

#[test]
fn compact_show_all_lists_a_superset() {
    let input = "drwxr-xr-x 2 u g 64 Jan 1 12:00 node_modules\n\
                 drwxr-xr-x 2 u g 64 Jan 1 12:00 app\n\
                 -rw-r--r-- 1 u g 5 Jan 1 12:00 .DS_Store\n";
    let (hidden, _) = compact_ls(input, false);
    let (all, _) = compact_ls(input, true);
    assert_eq!(hidden, "app/\n");
    assert_eq!(all, "node_modules/\napp/\n.DS_Store  5B\n");
}

#[test]
fn run_plans_the_ls_command() {
    let plan = run(&args(&["-la", "--color=auto", "-lhS", "src", "--all", "docs"]), 1);
    assert!(plan.show_all);
    assert_eq!(plan.verbose, 1);
    assert_eq!(plan.command, args(&["-la", "--color=auto", "-S", "src", "docs"]));
    assert_eq!(plan.label, "-la src docs");
    let plan = run(&args(&[]), 0);
    assert!(!plan.show_all);
    assert_eq!(plan.command, args(&["-la", "."]));
    assert_eq!(plan.label, "-la .");
}

#[test]
fn filter_keeps_summary_only_on_a_terminal() {
    let raw = "-rw-r--r-- 1 u g 10 Jan 1 12:00 a.rs\n";
    let plan = run(&args(&[]), 0);
    assert_eq!(plan.filter(raw, false), "a.rs  10B\n");
    assert_eq!(
        plan.filter(raw, true),
        "a.rs  10B\n\nSummary: 1 files, 0 dirs (1 .rs)\n"
    );
    assert_eq!(choose_output("e", "s", true), "es");
    assert_eq!(choose_output("e", "s", false), "e");
}

#[test]
fn reduction_note_reports_percentages() {
    assert_eq!(reduction_note(200, 50), "Chars: 200 \u{2192} 50 (75% reduction)");
    assert_eq!(reduction_note(0, 8), "Chars: 0 \u{2192} 8 (0% reduction)");
}

#[test]
fn native_args_are_read() {
    let o = parse_native_args(&args(&["-lah", "C:\\tmp", "--long", "-x", "--sort", "other"]));
    assert!(o.show_all && o.long_format && o.human_readable);
    assert_eq!(o.dir_path, "C:\\tmp");
    assert_eq!(o.unsupported, args(&["-x", "--sort"]));
    assert_eq!(unsupported_note(&o.unsupported), "rtk ls (Windows): unsupported flags ignored: -x, --sort");
    let o = parse_native_args(&args(&[]));
    assert!(!o.show_all && !o.long_format && !o.human_readable);
    assert_eq!(o.dir_path, ".");
}

#[test]
fn native_entries_and_lines() {
    assert!(!keep_entry(".hidden", false));
    assert!(!keep_entry("target", false));
    assert!(keep_entry("target", true));
    assert!(keep_entry("src", false));
    assert_eq!(format_timestamp(Some(86400 * 400 + 5)), "35d ago");
    assert_eq!(format_timestamp(None), "unknown");
    assert_eq!(
        format_long_entry("a.txt", 2048, false, Some(0), true),
        "-rw--------  1 user  group     2.0K 0d ago a.txt"
    );
    assert_eq!(
        format_long_entry("b", 12345678901, true, None, false),
        "-r---------  1 user  group 12345678901 unknown b"
    );
    assert_eq!(raw_line("d", true, true, 0, false, None, false), "d---------  1 user  group      0 unknown d\n");
    assert_eq!(raw_line("n", false, false, 3, false, None, false), "n\n");
}

#[test]
fn native_compact_output_long_and_empty() {
    let dirs = vec!["src".to_string()];
    let files = vec![
        ("a.rs".to_string(), 3, "-rw-------  1 user  group        3 0d ago a.rs".to_string()),
        ("b".to_string(), 2048, String::new()),
    ];
    let (entries, summary) = format_compact_output(&dirs, &files, false, false, true);
    assert_eq!(
        entries,
        "d---------         0 src/\n-rw-------  1 user  group        3 0d ago a.rs\nb  2048\n"
    );
    assert_eq!(summary, "\nSummary: 2 files, 1 dirs (1 .rs, 1 no ext)\n");
    let none: Vec<String> = Vec::new();
    let no_files: Vec<(String, u64, String)> = Vec::new();
    assert_eq!(
        format_compact_output(&none, &no_files, false, true, false),
        ("(empty)\n".to_string(), String::new())
    );
}

#[test]
fn decimal_notation_parses_back() {
    for n in [0u64, 7, 10, 99, 100, 65535, 1 << 40, u64::MAX - 1, u64::MAX] {
        let mut digits: Vec<char> = Vec::new();
        rtk_ls::text::push_decimal(&mut digits, n);
        assert_eq!(digits.iter().collect::<String>(), n.to_string());
        assert_eq!(parse_decimal_u64(&digits), Some(n));
    }
}
