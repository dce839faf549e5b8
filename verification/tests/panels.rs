use e_agent::tui::ansi::{clip_styled, visible_width};
use e_agent::tui::panel::frame;
use e_agent::tui::theme::{bold, fg, Theme};
use e_agent::tui::trustpanel::{render, TrustStage};

fn theme() -> Theme {
    Theme {
        dim: "\x1b[2m".to_string(),
        user_message_text: "\x1b[97m".to_string(),
        selected_bg: String::new(),
        selected_text: String::new(),
    }
}

#[test]
fn style_runs_take_no_columns() {
    assert_eq!(visible_width(""), 0);
    assert_eq!(visible_width("↑↓ Move"), 7);
    assert_eq!(visible_width("\x1b[1mab\x1b[22m"), 2);
    assert_eq!(visible_width("\x1b[38;5;12mx"), 1);
    assert_eq!(visible_width("\x1b[38;5"), 0);
    assert_eq!(visible_width("\x1bcx"), 1);
}

#[test]
fn clipping_closes_styles() {
    assert_eq!(clip_styled("abc", 3), "abc");
    assert_eq!(clip_styled("abcd", 3), "abc\x1b[0m");
    assert_eq!(clip_styled("\x1b[1mabcd\x1b[22m", 3), "\x1b[1mabc\x1b[0m");
    assert_eq!(clip_styled("\x1b[1mabc\x1b[22m", 3), "\x1b[1mabc\x1b[22m");
    assert_eq!(clip_styled("abc", 0), "\x1b[0m");
    let once = clip_styled("\x1b[1mabcd", 2);
    assert_eq!(clip_styled(&once, 2), once);
    assert!(visible_width(&once) <= 2);
}

#[test]
fn inks_wrap_a_text() {
    assert_eq!(fg("", "x"), "x");
    assert_eq!(fg("\x1b[2m", "x"), "\x1b[2mx\x1b[39m");
    assert_eq!(bold("x"), "\x1b[1mx\x1b[22m");
}

#[test]
fn a_frame_has_two_dividers() {
    let lines = frame(&theme(), 3, "head".to_string(), vec!["row".to_string()]);
    assert_eq!(
        lines,
        vec!["\x1b[2m───\x1b[39m", "head", "", "row", "\x1b[2m───\x1b[39m"]
    );
}

#[test]
fn the_trust_panel_asks() {
    let lines = render(&TrustStage { selected: 0 }, &theme(), 80, "/home/me/src");
    assert_eq!(
        lines,
        vec![
            "",
            "\x1b[2m   Trust /home/me/src?\x1b[39m",
            "\x1b[2m   e reads the directory's AGENTS.md and .e/ skills+prompts into context, and runs tools here.\x1b[39m",
            "",
            "\x1b[1m\x1b[97m› Trust this directory   remembered in ~/.e/trust.json\x1b[39m\x1b[22m",
            "\x1b[2m  Not now                work here without its instructions\x1b[39m",
            "",
            "\x1b[2m   ↑↓ Choose · Enter Continue\x1b[39m",
        ]
    );
}

#[test]
fn the_caret_moves_with_the_selection() {
    let first = render(&TrustStage { selected: 0 }, &theme(), 80, "d");
    let second = render(&TrustStage { selected: 1 }, &theme(), 80, "d");
    let neither = render(&TrustStage { selected: 2 }, &theme(), 80, "d");
    for line in [0, 1, 2, 3, 6, 7] {
        assert_eq!(first[line], second[line]);
    }
    assert_eq!(
        second[5],
        "\x1b[1m\x1b[97m› Not now                work here without its instructions\x1b[39m\x1b[22m"
    );
    assert_eq!(neither[4], second[4]);
    assert_eq!(neither[5], first[5]);
}

#[test]
fn the_choices_are_clipped() {
    let lines = render(&TrustStage { selected: 1 }, &theme(), 9, "d");
    assert_eq!(lines[4], "\x1b[2m  Trust t\x1b[0m");
    assert_eq!(lines[5], "\x1b[1m\x1b[97m› Not now\x1b[0m");
}
