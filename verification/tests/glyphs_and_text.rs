use heft::choices::{color_enabled, display_mode};
use heft::glyphs::{make_bar, make_sparkline, truncate_name};
use heft::order::size_order;
use heft::paint::{paint, Paint};
use heft::text::{decimal_string, pad_left_string, pad_right_string};
use heft::types::{Config, DisplayMode};
use std::path::PathBuf;

#[test]
fn truncate_keeps_both_ends() {
    assert_eq!(truncate_name("abcdefghij", 7), "ab...ij");
    assert_eq!(truncate_name("abcdefghijk", 8), "ab...ijk");
    assert_eq!(truncate_name("short", 7), "short");
    assert_eq!(truncate_name("abcdefghij", 5), "abcde");
    assert_eq!(truncate_name("abc", 5), "abc");
    assert_eq!(truncate_name("héllo wörld ünïcode", 9), "hél...ode");
    for w in 0..25 {
        let t = truncate_name("a fairly long directory name", w);
        assert_eq!(t.chars().count(), w.min(28));
    }
}

#[test]
fn bars_and_sparklines() {
    assert_eq!(make_bar(3, 5), "\u{2588}\u{2588}\u{2588}\u{2591}\u{2591}");
    assert_eq!(make_bar(9, 4), "\u{2588}".repeat(4));
    assert_eq!(make_bar(0, 0), "");
    assert_eq!(make_sparkline(0), "\u{2581}\u{2581}\u{2581}");
    assert_eq!(make_sparkline(4), "\u{2585}\u{2585}\u{2585}");
    assert_eq!(make_sparkline(12), "\u{2588}\u{2588}\u{2588}");
}

#[test]
fn size_order_is_stable_descending() {
    assert_eq!(size_order(&vec![5, 9, 5, 1, 9]), vec![1, 4, 0, 2, 3]);
    assert_eq!(size_order(&vec![]), Vec::<usize>::new());
}

#[test]
fn paints_wrap_text_in_escape_codes() {
    assert_eq!(paint(Paint::Plain, "x"), "x");
    assert_eq!(paint(Paint::Dim, "x"), "\x1b[2mx\x1b[0m");
    assert_eq!(paint(Paint::Bold, "x"), "\x1b[1mx\x1b[0m");
    assert_eq!(paint(Paint::Magenta, "x"), "\x1b[35mx\x1b[39m");
    assert_eq!(paint(Paint::Yellow, "x"), "\x1b[33mx\x1b[39m");
    assert_eq!(paint(Paint::CyanBold, "x"), "\x1b[96m\x1b[1mx\x1b[0m\x1b[39m");
}

#[test]
fn decimal_and_padding() {
    assert_eq!(decimal_string(0), "0");
    assert_eq!(decimal_string(18446744073709551615), "18446744073709551615");
    assert_eq!(pad_left_string("7", 3), "  7");
    assert_eq!(pad_left_string("1234", 3), "1234");
    assert_eq!(pad_right_string("é", 3), "é  ");
}

#[test]
fn mode_and_color_choices() {
    assert_eq!(display_mode(false, true, true), DisplayMode::Json);
    assert_eq!(display_mode(false, false, true), DisplayMode::Tty);
    assert_eq!(display_mode(false, false, false), DisplayMode::Pipe);
    assert_eq!(display_mode(true, false, true), DisplayMode::Llm);
    let mut c = Config {
        path: PathBuf::from("."),
        show_hidden: false,
        json: false,
        llm: false,
        threshold_pct: None,
        top: None,
        sparkline: false,
        across_mounts: false,
        jobs: None,
        no_color: false,
    };
    assert!(color_enabled(&c, false, true));
    assert!(!color_enabled(&c, true, true));
    assert!(!color_enabled(&c, false, false));
    c.no_color = true;
    assert!(!color_enabled(&c, false, true));
}

#[test]
fn layout_fills_the_terminal() {
    for cols in 0..300usize {
        for marked in [false, true] {
            let l = heft::display::tty_layout(Some(cols), false, marked);
            let overhead = 21 + if marked { 5 } else { 0 };
            assert_eq!(l.name_width + l.bar_width + overhead, l.term_width);
            assert!(l.bar_width >= 10 && l.name_width <= 30 && l.term_width >= 40);
        }
    }
}
