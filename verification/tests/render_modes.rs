use heft::display::{has_promoted_hidden, hidden_aggregate, prepare_entries, tty_layout, Share, TtyFrame};
use heft::render::{render, render_json, render_pipe, render_tty, Frame};
use heft::types::{Config, DisplayMode, EntryInfo, ScanResult};
use std::path::PathBuf;

fn entry(name: &str, size: u64, is_dir: bool, is_hidden: bool, is_estimate: bool, is_symlink: bool) -> EntryInfo {
    EntryInfo { name: name.to_string(), size, is_dir, is_hidden, is_estimate, is_symlink }
}

fn config(show_hidden: bool, sparkline: bool) -> Config {
    Config {
        path: PathBuf::from("."),
        show_hidden,
        json: false,
        llm: false,
        threshold_pct: None,
        top: None,
        sparkline,
        across_mounts: false,
        jobs: None,
        no_color: false,
    }
}

fn result(entries: Vec<EntryInfo>, hidden: Vec<EntryInfo>) -> ScanResult {
    let total = entries.iter().map(|e| e.size).sum::<u64>() + hidden.iter().map(|e| e.size).sum::<u64>();
    ScanResult {
        entries,
        hidden_entries: hidden,
        total_size: total,
        error_count: 0,
        skipped_mounts: 0,
        restricted_count: 0,
        estimated_count: 0,
    }
}

fn share(percent: u64, bar_cells: usize) -> Share {
    Share { percent, bar_cells, spark_level: 0, heavy: false, light: false }
}

#[test]
fn pipe_lists_largest_first_with_raw_bytes() {
    let r = result(
        vec![
            entry("small.txt", 100, false, false, false, false),
            entry("subdir_a", 10485760, true, false, true, false),
            entry("b", 100, false, false, false, false),
        ],
        vec![entry(".git", 5000, true, true, false, false)],
    );
    let lines = render_pipe(&r, &config(false, false));
    assert_eq!(lines, vec!["~10485760\tsubdir_a", "100\tsmall.txt", "100\tb"]);
    let lines = render_pipe(&r, &config(true, false));
    assert_eq!(lines, vec!["~10485760\tsubdir_a", "5000\t.git", "100\tsmall.txt", "100\tb"]);
}

#[test]
fn json_lines_escape_names_and_carry_flags() {
    let r = result(
        vec![
            entry("a\"b\\c", 10, false, false, false, true),
            entry("dir with spaces", 30, true, false, true, false),
        ],
        vec![entry(".cache", 60, true, true, false, false)],
    );
    let mut c = config(false, false);
    c.json = true;
    let visible = vec!["10.0".to_string(), "30.0".to_string()];
    let hidden = vec!["60.0".to_string()];
    let lines = render_json(&r, &c, &visible, &hidden);
    assert_eq!(
        lines,
        vec![
            "{\"name\":\"dir with spaces\",\"size\":30,\"is_dir\":true,\"is_hidden\":false,\"is_estimate\":true,\"percentage\":30.0}",
            "{\"name\":\"a\\\"b\\\\c\",\"size\":10,\"is_dir\":false,\"is_hidden\":false,\"is_estimate\":false,\"percentage\":10.0}",
        ]
    );
    c.show_hidden = true;
    let lines = render_json(&r, &c, &visible, &hidden);
    assert_eq!(lines.len(), 3);
    assert_eq!(
        lines[0],
        "{\"name\":\".cache\",\"size\":60,\"is_dir\":true,\"is_hidden\":true,\"is_estimate\":false,\"percentage\":60.0}"
    );
}

#[test]
fn layout_matches_terminal_width() {
    let l = tty_layout(Some(80), false, false);
    assert_eq!((l.term_width, l.name_width, l.bar_width), (80, 26, 33));
    let l = tty_layout(None, false, true);
    assert_eq!((l.term_width, l.name_width, l.bar_width), (80, 26, 28));
    let l = tty_layout(Some(10), false, false);
    assert_eq!((l.term_width, l.name_width, l.bar_width), (40, 9, 10));
    let l = tty_layout(Some(200), true, false);
    assert_eq!((l.term_width, l.name_width, l.bar_width), (200, 30, 3));
}

fn plain_frame(r: &ScanResult, promoted: Vec<bool>, visible: Vec<Share>, hidden: Vec<Share>, agg_pct: u64) -> TtyFrame {
    assert_eq!(visible.len(), r.entries.len());
    TtyFrame { term_cols: Some(80), color: false, promoted, visible, hidden, aggregate_percent: agg_pct }
}

#[test]
fn tty_plain_rows_aggregate_footer_and_notes() {
    let mut r = result(
        vec![
            entry("Downloads", 1932735283, true, false, false, false),
            entry("Documents", 4509715456, true, false, false, false),
        ],
        vec![
            entry(".cache", 2254857830, true, true, false, false),
            entry(".bashrc", 327155712, false, true, false, false),
        ],
    );
    r.restricted_count = 2;
    let c = config(false, false);
    let frame = plain_frame(
        &r,
        vec![true, false],
        vec![share(21, 7), share(50, 17)],
        vec![share(25, 8), share(3, 1)],
        3,
    );
    let lines = render_tty(&r, &c, &frame);
    // the marker of the promoted hidden entry narrows the bar to 28 cells
    let bar = |f: usize, w: usize| format!("{}{}", "\u{2588}".repeat(f), "\u{2591}".repeat(w - f));
    assert_eq!(lines.len(), 6);
    assert_eq!(lines[0], format!("  {:<26}  {}  {:>5} {}  {:>3}%{}", "Documents", bar(17, 28), "4.2", "GiB", 50, ""));
    assert_eq!(lines[1], format!("  {:<26}  {}  {:>5} {}  {:>3}%{}", ".cache", bar(8, 28), "2.1", "GiB", 25, "  (!)"));
    assert_eq!(lines[2], format!("  {:<26}  {}  {:>5} {}  {:>3}%{}", "Downloads", bar(7, 28), "1.8", "GiB", 21, ""));
    assert_eq!(lines[3], format!("  {:<26}  {}  {:>5} {}  {:>3}%", "... 1 hidden items", " ".repeat(28), "312", "MiB", 3));
    assert_eq!(lines[4], "  Total: 8.4 GiB across 4 items");
    assert_eq!(lines[5], "  [2 paths restricted]");
}

#[test]
fn tty_colored_rows_use_escape_codes() {
    let r = result(
        vec![
            entry("big", 900, true, false, false, false),
            entry("link", 50, false, false, false, true),
            entry("tiny", 10, false, false, false, false),
        ],
        vec![],
    );
    let c = config(false, true);
    let frame = TtyFrame {
        term_cols: Some(80),
        color: true,
        promoted: vec![],
        visible: vec![
            Share { percent: 93, bar_cells: 3, spark_level: 7, heavy: true, light: false },
            Share { percent: 5, bar_cells: 0, spark_level: 0, heavy: false, light: false },
            Share { percent: 1, bar_cells: 0, spark_level: 0, heavy: false, light: true },
        ],
        hidden: vec![],
        aggregate_percent: 0,
    };
    let lines = render_tty(&r, &c, &frame);
    let dim = |s: &str| format!("\x1b[2m{}\x1b[0m", s);
    let bold = |s: &str| format!("\x1b[1m{}\x1b[0m", s);
    let cyan = |s: &str| format!("\x1b[96m{}\x1b[39m", s);
    let magenta = |s: &str| format!("\x1b[35m{}\x1b[39m", s);
    let spark = |c: char| c.to_string().repeat(3);
    assert_eq!(
        lines[0],
        format!("  {}  {}  {} {}  {}", cyan(&bold(&format!("{:<26}", "big"))), bold(&spark('\u{2588}')), bold(&format!("{:>7}", "900")), dim("B"), " 93%")
    );
    assert_eq!(
        lines[1],
        format!("  {}  {}  {} {}  {}", magenta(&format!("{:<26}", "@link")), dim(&spark('\u{2581}')), dim(&format!("{:>7}", "50")), dim("B"), dim("  5%"))
    );
    assert_eq!(
        lines[2],
        format!("  {}  {}  {} {}  {}", dim(&format!("{:<26}", "tiny")), dim(&spark('\u{2581}')), dim(&format!("{:>7}", "10")), dim("B"), dim("  1%"))
    );
    assert_eq!(lines[3], "  Total: 960 B across 3 items");
    assert_eq!(lines.len(), 4);
}

#[test]
fn show_hidden_lists_every_hidden_entry_without_marker() {
    let r = result(
        vec![entry("a", 10, false, false, false, false)],
        vec![entry(".x", 20, false, true, false, false), entry(".y", 5, false, true, false, false)],
    );
    let c = config(true, false);
    let frame = plain_frame(&r, vec![false, false], vec![share(28, 0)], vec![share(57, 0), share(14, 0)], 0);
    let (entries, agg) = prepare_entries(&r, &c, &frame);
    assert!(agg.is_none());
    let names: Vec<&str> = entries.iter().map(|e| e.name.as_str()).collect();
    assert_eq!(names, vec!["a", ".x", ".y"]);
    assert!(entries.iter().all(|e| !e.is_hidden));
    assert!(!has_promoted_hidden(&c, &frame.promoted));
    let lines = render_tty(&r, &c, &frame);
    assert_eq!(lines.len(), 4);
    assert!(lines[0].starts_with("  .x "));
    assert!(!lines.iter().any(|l| l.contains("(!)")));
}

#[test]
fn hidden_entries_fold_into_one_line() {
    let r = result(
        vec![entry("a", 1000, false, false, false, false)],
        vec![
            entry(".big", 500, false, true, false, false),
            entry(".s1", 3, false, true, false, false),
            entry(".s2", 4, false, true, false, false),
        ],
    );
    let c = config(false, false);
    let promoted = vec![true, false, false];
    assert_eq!(hidden_aggregate(&r, &c, &promoted), Some((2, 7)));
    assert!(has_promoted_hidden(&c, &promoted));
    assert_eq!(hidden_aggregate(&r, &c, &vec![true, true, true]), None);
    assert_eq!(hidden_aggregate(&r, &config(true, false), &promoted), None);
}

#[test]
fn render_dispatches_on_mode() {
    let r = result(vec![entry("a", 1, false, false, false, false)], vec![]);
    let c = config(false, false);
    let frame = Frame {
        tty: plain_frame(&r, vec![], vec![share(100, 33)], vec![], 0),
        path_text: "/data".to_string(),
        visible_percent: vec!["100.0".to_string()],
        hidden_percent: vec![],
    };
    assert_eq!(render(&r, &c, DisplayMode::Pipe, &frame), vec!["1\ta"]);
    assert_eq!(render(&r, &c, DisplayMode::Json, &frame).len(), 1);
    let tty = render(&r, &c, DisplayMode::Tty, &frame);
    assert_eq!(tty[1], "  Total: 1 B across 1 items");
    assert_eq!(render(&r, &c, DisplayMode::Llm, &frame), vec!["/data (1B, 1 items)", "1B\t100%\ta"]);
}

#[test]
fn totals_of_visible_and_hidden_entries() {
    let r = result(
        vec![entry("a", 10, false, false, false, false), entry("b", 32, false, false, false, false)],
        vec![entry(".c", 7, false, true, false, false)],
    );
    assert_eq!(r.visible_total_size(), 42);
    assert_eq!(r.hidden_total_size(), 7);
    assert_eq!(r.visible_total_size() + r.hidden_total_size(), r.total_size);
}

#[test]
fn json_escapes_control_characters() {
    let r = result(vec![entry("a\nb\t\u{1}", 5, false, false, false, false)], vec![]);
    let mut c = config(false, false);
    c.json = true;
    let lines = render_json(&r, &c, &vec!["100.0".to_string()], &vec![]);
    assert_eq!(
        lines,
        vec!["{\"name\":\"a\\nb\\t\\u0001\",\"size\":5,\"is_dir\":false,\"is_hidden\":false,\"is_estimate\":false,\"percentage\":100.0}"]
    );
}

#[test]
fn json_matches_documented_line() {
    let mut r = result(vec![entry("Documents", 4509715456, true, false, false, false)], vec![]);
    r.total_size = 11800000000;
    let mut c = config(false, false);
    c.json = true;
    let pct = format!("{:.1}", 4509715456f64 / 11800000000f64 * 100.0);
    let lines = render_json(&r, &c, &vec![pct], &vec![]);
    assert_eq!(
        lines,
        vec!["{\"name\":\"Documents\",\"size\":4509715456,\"is_dir\":true,\"is_hidden\":false,\"is_estimate\":false,\"percentage\":38.2}"]
    );
}

#[test]
fn footer_groups_thousands() {
    let entries: Vec<EntryInfo> = (0..1847).map(|i| entry(&format!("f{}", i), 1, false, false, false, false)).collect();
    let r = result(entries, vec![]);
    let c = config(false, false);
    let frame = plain_frame(&r, vec![], vec![share(0, 0); 1847], vec![], 0);
    let lines = render_tty(&r, &c, &frame);
    assert_eq!(lines.last().unwrap(), "  Total: 1 KiB across 1,847 items");
}

#[test]
fn colored_promoted_hidden_symlink_keeps_marker() {
    let r = result(vec![], vec![entry(".link", 50, false, true, false, true)]);
    let c = config(false, false);
    let frame = TtyFrame {
        term_cols: Some(80),
        color: true,
        promoted: vec![true],
        visible: vec![],
        hidden: vec![share(100, 28)],
        aggregate_percent: 0,
    };
    let lines = render_tty(&r, &c, &frame);
    assert!(lines[0].ends_with("\x1b[33m  (!)\x1b[39m"), "{:?}", lines[0]);
}

// The text output, on the fixture of the command-line tests: a directory
// of 10 MiB, a directory with spaces in its name and a small file.
fn sample_dir() -> ScanResult {
    result(
        vec![
            entry("small.txt", 100, false, false, false, false),
            entry("subdir_a", 10485760, true, false, false, false),
            entry("dir with spaces", 204800, true, false, false, false),
        ],
        vec![],
    )
}

fn llm(threshold_pct: Option<u64>, top: Option<usize>) -> Vec<String> {
    let mut c = config(false, false);
    c.llm = true;
    c.threshold_pct = threshold_pct;
    c.top = top;
    heft::render::render_llm(&sample_dir(), &c, "tests/fixtures/sample_dir")
}

#[test]
fn llm_mode_has_summary_header() {
    let out = llm(None, None);
    let first_line = &out[0];
    assert!(first_line.contains("items)"), "header missing 'items)': {first_line}");
    assert!(first_line.contains("M"), "header should have human-readable size");
    assert_eq!(first_line, "tests/fixtures/sample_dir (10M, 3 items)");
}

#[test]
fn llm_mode_tab_delimited() {
    for line in llm(None, None).iter().skip(1) {
        let tabs = line.matches('\t').count();
        assert_eq!(tabs, 2, "expected 2 tabs per data line, got {tabs}: {line}");
    }
}

#[test]
fn llm_mode_dirs_have_slash_suffix() {
    let out = llm(None, None);
    let subdir_line = out.iter().find(|l| l.contains("subdir_a")).expect("subdir_a not found");
    assert!(subdir_line.ends_with('/'), "dir should end with /: {subdir_line}");
    assert_eq!(subdir_line, "10M\t98%\tsubdir_a/");
}

#[test]
fn llm_mode_files_no_slash() {
    let out = llm(None, None);
    let file_line = out.iter().find(|l| l.contains("small.txt")).expect("small.txt not found");
    assert!(!file_line.ends_with('/'), "file should not end with /: {file_line}");
}

#[test]
fn llm_mode_human_readable_sizes() {
    let out = llm(None, None);
    let line = out.iter().find(|l| l.contains("subdir_a")).expect("subdir_a not found");
    assert!(line.contains("M"), "10MB dir should show M unit: {line}");
}

#[test]
fn threshold_pct_filters_small_entries() {
    let stdout = llm(Some(5), None).join("\n");
    assert!(stdout.contains("subdir_a"), "large dir should pass threshold");
    assert!(!stdout.contains("small.txt"), "tiny file should be filtered");
}

#[test]
fn threshold_pct_shows_filtered_count_in_header() {
    let out = llm(Some(5), None);
    let header = &out[0];
    assert!(header.contains("shown"), "header should show filtered count: {header}");
}

#[test]
fn threshold_pct_100_shows_diagnostic() {
    let stdout = llm(Some(100), None).join("\n");
    assert!(stdout.contains("below 100% threshold"), "should show diagnostic when all filtered: {stdout}");
}

#[test]
fn top_limits_entries() {
    let out = llm(None, Some(2));
    assert_eq!(out.len() - 1, 2, "--top 2 should show exactly 2 entries");
}

#[test]
fn top_and_threshold_union() {
    let out = llm(Some(90), Some(2));
    assert_eq!(out.len() - 1, 2, "union of threshold + top should show 2 entries");
}

#[test]
fn json_threshold_filters() {
    let r = sample_dir();
    let mut c = config(false, false);
    c.json = true;
    c.threshold_pct = Some(5);
    let pct: Vec<String> = r.entries.iter().map(|e| format!("{:.1}", e.size as f64 / r.total_size as f64 * 100.0)).collect();
    let lines = render_json(&r, &c, &pct, &vec![]);
    assert_eq!(lines.len(), 1, "JSON with 5% threshold should show 1 entry");
    assert!(lines[0].contains("subdir_a"), "should be the large dir");
}

#[test]
fn llm_handles_spaces_in_names() {
    let out = llm(None, None);
    let line = out.iter().find(|l| l.contains("dir with spaces")).expect("dir with spaces not found");
    let parts: Vec<&str> = line.split('\t').collect();
    assert_eq!(parts.len(), 3, "should have 3 tab-separated fields");
    assert!(parts[2].starts_with("dir with spaces"), "name field should contain full name with spaces");
}

#[test]
fn format_sizes_are_compact() {
    for line in llm(None, None).iter().skip(1) {
        let size_field = line.split('\t').next().unwrap();
        assert!(size_field.len() <= 6, "size should be compact (<=6 chars): '{size_field}'");
    }
    assert_eq!(heft::render::render_llm(&result(vec![entry("x", u64::MAX, false, false, false, false)], vec![]), &config(false, false), "p")[1], "15E\t100%\tx");
}
