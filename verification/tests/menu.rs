use e_agent::tui::menu::{
    degrade_hint, Menu, MenuItem, MenuKind, HINT_SCOPED, HINT_USE, MAX_VISIBLE,
};
use e_agent::tui::theme::Theme;

fn plain() -> Theme {
    Theme {
        dim: String::new(),
        user_message_text: String::new(),
        selected_bg: String::new(),
        selected_text: String::new(),
    }
}

fn inked() -> Theme {
    Theme {
        dim: "\x1b[2m".to_string(),
        user_message_text: "\x1b[97m".to_string(),
        selected_bg: "\x1b[44m".to_string(),
        selected_text: "\x1b[37m".to_string(),
    }
}

fn item(label: &str) -> MenuItem {
    MenuItem::new(label, "", label)
}

fn numbered(n: usize) -> Menu {
    let items = (0..n).map(|i| item(&format!("item{i}"))).collect();
    Menu::new(MenuKind::Files, "Files", HINT_USE, items)
}

fn labels(menu: &mut Menu) -> Vec<String> {
    let mut labels = Vec::new();
    for i in 0..menu.len() {
        menu.selected = i;
        labels.push(menu.current().unwrap().label.clone());
    }
    menu.selected = 0;
    labels
}

#[test]
fn an_item_has_no_metadata_at_first() {
    let item = MenuItem::new("/login", "sign in", "login");
    assert_eq!(item.label, "/login");
    assert_eq!(item.description, "sign in");
    assert_eq!(item.meta, "");
    assert_eq!(item.value, "login");
    let copy = item.clone();
    assert_eq!(copy.description, "sign in");
}

#[test]
fn a_new_menu_lists_everything_in_order() {
    let mut menu = numbered(3);
    assert_eq!(menu.len(), 3);
    assert!(!menu.is_empty());
    assert_eq!(menu.selected, 0);
    assert_eq!(labels(&mut menu), vec!["item0", "item1", "item2"]);
    assert!(numbered(0).is_empty());
}

#[test]
fn a_query_ranks_the_best_first_and_keeps_ties_in_order() {
    let items = vec![
        MenuItem::new("/model", "list or switch models", "model"),
        MenuItem::new("/login", "sign in to a provider", "login"),
        MenuItem::new("/logout", "forget a provider", "logout"),
        MenuItem::new("/new", "start over", "new"),
    ];
    let mut menu = Menu::new(MenuKind::Commands, "Commands", HINT_USE, items);
    menu.step(2);
    menu.set_query("log");
    assert_eq!(labels(&mut menu), vec!["/login", "/logout"]);
    assert_eq!(menu.selected, 0);
    // The description counts too, and the better of both scores.
    menu.set_query("sign");
    assert_eq!(labels(&mut menu), vec!["/login"]);
    menu.set_query("start");
    assert_eq!(labels(&mut menu), vec!["/new"]);
    menu.set_query("zzz");
    assert!(menu.is_empty());
    assert!(menu.current().is_none());
    menu.set_query("");
    assert_eq!(menu.len(), 4);
}

#[test]
fn a_lower_score_moves_up() {
    let items = vec![item("xxab"), item("axxb"), item("ab")];
    let mut menu = Menu::new(MenuKind::Files, "Files", HINT_USE, items);
    menu.set_query("ab");
    // Scores 2, 2 and 0.
    assert_eq!(labels(&mut menu), vec!["ab", "xxab", "axxb"]);
}

#[test]
fn the_query_at_hand_changes_nothing() {
    let mut menu = numbered(4);
    menu.set_query("item");
    menu.step(2);
    menu.set_query("item");
    assert_eq!(menu.selected, 2);
    menu.set_query("ite");
    assert_eq!(menu.selected, 0);
}

#[test]
fn select_value_finds_the_first() {
    let items = vec![
        MenuItem::new("a", "", "one"),
        MenuItem::new("b", "", "two"),
        MenuItem::new("c", "", "two"),
    ];
    let mut menu = Menu::new(MenuKind::Models, "Models", HINT_USE, items);
    menu.select_value("two");
    assert_eq!(menu.selected, 1);
    menu.select_value("three");
    assert_eq!(menu.selected, 1);
    menu.select_value("one");
    assert_eq!(menu.selected, 0);
}

#[test]
fn every_item_is_visited_in_order() {
    let mut menu = numbered(3);
    menu.set_query("item1");
    let mut seen = Vec::new();
    menu.for_each_item(|item| {
        seen.push(item.label.clone());
        item.meta = "x".to_string();
    });
    assert_eq!(seen, vec!["item0", "item1", "item2"]);
    assert_eq!(menu.len(), 1);
    assert_eq!(menu.current().unwrap().meta, "x");
}

#[test]
fn current_mut_changes_the_selected_item_alone() {
    let mut menu = numbered(3);
    menu.step(1);
    menu.current_mut().unwrap().label = "other".to_string();
    assert_eq!(labels(&mut menu), vec!["item0", "other", "item2"]);
    menu.selected = 7;
    assert!(menu.current_mut().is_none());
    assert!(menu.current().is_none());
}

#[test]
fn steps_go_round() {
    let mut menu = numbered(3);
    menu.step(-1);
    assert_eq!(menu.selected, 2);
    menu.step(1);
    assert_eq!(menu.selected, 0);
    menu.step(7);
    assert_eq!(menu.selected, 1);
    menu.step(-7);
    assert_eq!(menu.selected, 0);
    menu.step(3);
    assert_eq!(menu.selected, 0);
    let mut empty = numbered(0);
    empty.step(1);
    assert_eq!(empty.selected, 0);
}

#[test]
fn a_selection_beyond_the_list_steps_as_a_signed_number() {
    let mut menu = numbered(4);
    menu.selected = 9;
    menu.step(1);
    assert_eq!(menu.selected, 2);
    menu.selected = usize::MAX;
    menu.step(0);
    assert_eq!(menu.selected, 3);
}

#[test]
fn the_window_follows_the_selection() {
    let mut menu = numbered(9);
    let theme = plain();
    assert_eq!(menu.render(&theme, 40)[1], format!("Files 9 · Type to filter{}1–6", " ".repeat(12)));
    menu.step(5);
    assert!(menu.render(&theme, 40)[1].ends_with("1–6"));
    menu.step(1);
    assert!(menu.render(&theme, 40)[1].ends_with("2–7"));
    menu.step(2);
    assert!(menu.render(&theme, 40)[1].ends_with("4–9"));
    menu.step(-3);
    assert!(menu.render(&theme, 40)[1].ends_with("4–9"));
    menu.step(-3);
    assert!(menu.render(&theme, 40)[1].ends_with("3–8"));
    menu.step(-3);
    assert_eq!(menu.selected, 8);
    assert!(menu.render(&theme, 40)[1].ends_with("4–9"));
}

#[test]
fn the_range_needs_room() {
    let menu = numbered(9);
    let theme = plain();
    // 24 columns of heading, 3 of range and a margin of 1: a gap of 2 fits, one of 1 does not.
    assert_eq!(menu.render(&theme, 30)[1], "Files 9 · Type to filter  1–6");
    assert_eq!(menu.render(&theme, 29)[1], "Files 9 · Type to filter");
    assert_eq!(menu.render(&theme, 0)[1], "Files 9 · Type to filter");
}

#[test]
fn a_band_holds_only_its_rows() {
    let theme = plain();
    assert_eq!(numbered(2).render(&theme, 20).len(), 6);
    assert_eq!(numbered(9).render(&theme, 20).len(), MAX_VISIBLE + 4);
    assert_eq!(numbered(0).render(&theme, 20).len(), 5);
}

#[test]
fn a_band_renders_whole() {
    let items = vec![
        MenuItem::new("/login", "sign in", "login"),
        MenuItem::new("/m", "", "m"),
    ];
    let mut menu = Menu::new(MenuKind::Commands, "Commands", HINT_USE, items);
    menu.set_query("/");
    let lines = menu.render(&inked(), 20);
    let divider = format!("\x1b[2m{}\x1b[39m", "─".repeat(20));
    assert_eq!(
        lines,
        vec![
            divider.clone(),
            "\x1b[2mCommands 2\x1b[39m".to_string(),
            String::new(),
            "  \x1b[44m\x1b[37m/login   sign in\x1b[0m".to_string(),
            "  \x1b[2m/m    \x1b[39m".to_string(),
            divider,
        ]
    );
}

#[test]
fn model_pickers_brighten() {
    for kind in [MenuKind::Models, MenuKind::Scoped] {
        let menu = Menu::new(kind, "Models", HINT_SCOPED, vec![item("a")]);
        assert_eq!(menu.render(&inked(), 20)[3], "  \x1b[1m\x1b[97ma\x1b[39m\x1b[22m");
    }
    // Without a ground and an ink for it, every picker does.
    let menu = Menu::new(MenuKind::Tree, "Tree", HINT_USE, vec![item("a")]);
    assert_eq!(menu.render(&plain(), 20)[3], "  \x1b[1ma\x1b[22m");
}

#[test]
fn an_empty_list_says_so() {
    let notices = [
        (MenuKind::Commands, "  no matching slash commands"),
        (MenuKind::Files, "  no matching files"),
        (MenuKind::Skills, "  No skills found."),
        (MenuKind::Models, "  Nothing found."),
        (MenuKind::Sessions, "  Nothing found."),
        (MenuKind::Scoped, "  Nothing found."),
        (MenuKind::Tree, "  Nothing found."),
    ];
    for (kind, notice) in notices {
        let menu = Menu::new(kind, "Things", HINT_USE, Vec::new());
        assert_eq!(menu.render(&plain(), 40)[3], notice);
    }
}

#[test]
fn metadata_stands_at_the_right() {
    let mut with_meta = item("abc");
    with_meta.meta = "now".to_string();
    let mut menu = Menu::new(MenuKind::Sessions, "Sessions", HINT_USE, vec![item("x"), with_meta]);
    // Three columns of label and of metadata, an indent of 2 and a margin of 1.
    assert_eq!(menu.render(&plain(), 13)[4], "  abc    now");
    assert_eq!(menu.render(&plain(), 12)[4], "  abc");
    menu.for_each_item(|item| item.description = "d".to_string());
    assert_eq!(menu.render(&plain(), 20)[4], "  abc   d       now");
}

#[test]
fn the_label_column_has_a_limit() {
    let long = "x".repeat(50);
    let items = vec![MenuItem::new("a", "d", "a"), MenuItem::new(&long, "d", "b")];
    let mut menu = Menu::new(MenuKind::Files, "Files", HINT_USE, items);
    menu.selected = 9;
    let lines = menu.render(&plain(), 80);
    assert_eq!(lines[3], format!("  a{}   d", " ".repeat(35)));
    assert_eq!(lines[4], format!("  {long}   d"));
}

#[test]
fn rows_are_clipped_with_their_styles_closed() {
    let menu = Menu::new(MenuKind::Files, "Files", HINT_USE, vec![item("abcdef")]);
    assert_eq!(menu.render(&inked(), 5)[3], "  \x1b[44m\x1b[37mabc\x1b[0m");
}

#[test]
fn hints_degrade_to_the_widest_that_fits() {
    assert_eq!(degrade_hint(HINT_USE, 80), HINT_USE);
    assert_eq!(degrade_hint(HINT_USE, 39), HINT_USE);
    assert_eq!(degrade_hint(HINT_USE, 38), "↑↓ Navigate  Enter Use  Esc Close");
    assert_eq!(degrade_hint(HINT_USE, 33), "↑↓ Navigate  Enter Use  Esc Close");
    assert_eq!(degrade_hint(HINT_USE, 32), "Enter Use  Esc Close");
    assert_eq!(degrade_hint(HINT_USE, 20), "Enter Use  Esc Close");
    assert_eq!(degrade_hint(HINT_USE, 19), "↑↓ Move  Enter  Esc");
    assert_eq!(degrade_hint(HINT_USE, 18), "Enter Esc");
    assert_eq!(degrade_hint(HINT_USE, 0), "Enter Esc");
    assert_eq!(degrade_hint(HINT_SCOPED, 3), HINT_SCOPED);
    assert_eq!(degrade_hint("other", 1), "other");
}

#[test]
fn a_long_list_always_shows_a_full_window() {
    let theme = plain();
    let mut menu = numbered(8);
    for delta in [0, 1, 5, 1, -1, 3, -7, -1, 8] {
        menu.step(delta);
        assert_eq!(menu.render(&theme, 40).len(), MAX_VISIBLE + 4);
    }
    // A selection that is set from outside moves no window before the next step.
    menu.select_value("item7");
    assert_eq!(menu.render(&theme, 40).len(), MAX_VISIBLE + 4);
    menu.step(0);
    assert!(menu.render(&theme, 40)[1].ends_with("3–8"));
    menu.set_query("item7");
    assert_eq!(menu.render(&theme, 40).len(), 5);
}
