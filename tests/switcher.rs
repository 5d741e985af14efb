use room::rank::rank;
use room::switcher::{classify, ignore_case_setting, Command, Event, Key, KeyAction, State, Tab};

fn tab(position: usize, name: &str, active: bool) -> Tab {
    Tab { position, name: name.to_string(), active }
}

fn three() -> State {
    let mut s = State::new(true);
    s.tabs = vec![tab(0, "editor", true), tab(1, "build", false), tab(2, "tests", false)];
    s
}

fn type_text(s: &mut State, text: &str) {
    for c in text.chars() {
        s.update(Event::Key(Key::Char(c)));
    }
}

#[test]
fn empty_filter_shows_all_in_order() {
    let mut s = three();
    s.reset_selection();
    assert_eq!(s.viewable_positions(), vec![0, 1, 2]);
    assert_eq!(s.selected, Some(0));
}

#[test]
fn filter_te_keeps_only_tests() {
    let mut s = three();
    type_text(&mut s, "te");
    assert_eq!(s.viewable_positions(), vec![2]);
    assert_eq!(s.selected, Some(2));
}

#[test]
fn select_down_wraps_from_last() {
    let mut s = three();
    s.selected = Some(2);
    s.select_down();
    assert_eq!(s.selected, Some(0));
}

#[test]
fn confirm_switches_to_one_based_tab() {
    let mut s = three();
    s.selected = Some(1);
    let (redraw, cmds) = s.update(Event::Key(Key::Char('\n')));
    assert!(!redraw);
    assert_eq!(cmds, vec![Command::CloseFocus, Command::SwitchTabTo(2)]);
}

#[test]
fn confirm_with_y_key() {
    let mut s = three();
    s.selected = Some(0);
    let (_, cmds) = s.update(Event::Key(Key::Char('Y')));
    assert_eq!(cmds, vec![Command::CloseFocus, Command::SwitchTabTo(1)]);
    assert_eq!(s.filter, Vec::<char>::new());
}

#[test]
fn confirm_with_stale_selection_does_nothing() {
    let mut s = three();
    s.selected = Some(7);
    let (redraw, cmds) = s.update(Event::Key(Key::Char('\n')));
    assert!(!redraw);
    assert!(cmds.is_empty());
    s.selected = None;
    let (_, cmds) = s.update(Event::Key(Key::Char('\n')));
    assert!(cmds.is_empty());
}

#[test]
fn select_down_cycles_back() {
    let mut s = three();
    s.selected = Some(1);
    for _ in 0..3 {
        s.select_down();
    }
    assert_eq!(s.selected, Some(1));
}

#[test]
fn select_up_undoes_select_down() {
    let mut s = three();
    for start in 0..3 {
        s.selected = Some(start);
        s.select_down();
        s.select_up();
        assert_eq!(s.selected, Some(start));
        s.select_up();
        s.select_down();
        assert_eq!(s.selected, Some(start));
    }
}

#[test]
fn select_up_wraps_to_last() {
    let mut s = three();
    s.selected = Some(0);
    s.select_up();
    assert_eq!(s.selected, Some(2));
    s.selected = None;
    s.select_up();
    assert_eq!(s.selected, Some(2));
}

#[test]
fn select_on_empty_view_keeps_selection() {
    let mut s = three();
    type_text(&mut s, "zzz");
    assert_eq!(s.viewable_positions(), Vec::<usize>::new());
    assert_eq!(s.selected, None);
    s.select_down();
    assert_eq!(s.selected, None);
    s.select_up();
    assert_eq!(s.selected, None);
}

#[test]
fn select_down_from_stale_goes_to_first() {
    let mut s = three();
    s.selected = Some(9);
    s.select_down();
    assert_eq!(s.selected, Some(0));
}

#[test]
fn typing_resets_selection_to_top() {
    let mut s = three();
    s.selected = Some(1);
    let (redraw, cmds) = s.update(Event::Key(Key::Char('b')));
    assert!(redraw);
    assert!(cmds.is_empty());
    assert_eq!(s.filter, vec!['b']);
    assert_eq!(s.selected, Some(s.viewable_positions()[0]));
    let (redraw, _) = s.update(Event::Key(Key::Backspace));
    assert!(redraw);
    assert!(s.filter.is_empty());
    assert_eq!(s.selected, Some(0));
}

#[test]
fn backspace_on_empty_filter() {
    let mut s = three();
    s.reset_selection();
    let (redraw, _) = s.update(Event::Key(Key::Backspace));
    assert!(redraw);
    assert!(s.filter.is_empty());
    assert_eq!(s.selected, Some(0));
}

#[test]
fn tab_update_selects_active_tab() {
    let mut s = State::new(true);
    let (redraw, cmds) = s.update(Event::TabUpdate(vec![
        tab(0, "a", false),
        tab(1, "b", true),
        tab(2, "c", false),
    ]));
    assert!(redraw);
    assert!(cmds.is_empty());
    assert_eq!(s.tabs.len(), 3);
    assert_eq!(s.selected, Some(1));
    s.update(Event::TabUpdate(vec![tab(0, "a", false), tab(1, "b", false)]));
    assert_eq!(s.selected, Some(0));
    s.update(Event::Key(Key::Char('b')));
    s.update(Event::TabUpdate(vec![tab(0, "a", false), tab(1, "b", false)]));
    assert_eq!(s.selected, Some(1));
    s.update(Event::TabUpdate(vec![]));
    assert_eq!(s.selected, None);
}

#[test]
fn cancel_keys_close() {
    let mut s = three();
    s.selected = Some(1);
    for k in [Key::Esc, Key::Ctrl('c')] {
        let (redraw, cmds) = s.update(Event::Key(k));
        assert!(!redraw);
        assert_eq!(cmds, vec![Command::CloseFocus]);
        assert_eq!(s.selected, Some(1));
    }
}

#[test]
fn ctrl_keys_move() {
    let mut s = three();
    s.selected = Some(0);
    s.update(Event::Key(Key::Ctrl('n')));
    assert_eq!(s.selected, Some(1));
    s.update(Event::Key(Key::Down));
    assert_eq!(s.selected, Some(2));
    s.update(Event::Key(Key::Ctrl('p')));
    assert_eq!(s.selected, Some(1));
    s.update(Event::Key(Key::Up));
    assert_eq!(s.selected, Some(0));
}

#[test]
fn other_events_are_ignored() {
    let mut s = three();
    s.selected = Some(1);
    for e in [Event::Other, Event::Key(Key::Other), Event::Key(Key::Ctrl('x')), Event::Key(Key::Char('é'))] {
        let (redraw, cmds) = s.update(e);
        assert!(!redraw);
        assert!(cmds.is_empty());
        assert_eq!(s.selected, Some(1));
        assert!(s.filter.is_empty());
    }
}

#[test]
fn classify_keys() {
    assert_eq!(classify(Key::Char('a')), KeyAction::Append('a'));
    assert_eq!(classify(Key::Char('\n')), KeyAction::Confirm);
    assert_eq!(classify(Key::Backspace), KeyAction::Erase);
    assert_eq!(classify(Key::Char('ß')), KeyAction::Ignore);
}

#[test]
fn score_of_empty_filter_is_zero() {
    let s = three();
    assert_eq!(s.score(&s.tabs[0]), Some(0));
}

#[test]
fn filter_by_index() {
    let mut s = three();
    type_text(&mut s, "3");
    assert_eq!(s.viewable_positions(), vec![2]);
    assert_eq!(s.selected, Some(2));
}

#[test]
fn ignore_case_folds_both_sides() {
    let mut s = State::new(true);
    s.tabs = vec![tab(0, "Editor", false), tab(1, "build", false)];
    type_text(&mut s, "ED");
    assert_eq!(s.viewable_positions(), vec![0]);
    assert!(s.score(&s.tabs[0]).is_some());
    assert!(s.score(&s.tabs[1]).is_none());
}

#[test]
fn case_sensitive_when_not_ignoring_case() {
    let mut s = State::new(false);
    s.tabs = vec![tab(0, "editor", false), tab(1, "EDIT", false)];
    type_text(&mut s, "ED");
    assert_eq!(s.viewable_positions(), vec![1]);
}

#[test]
fn every_viewable_tab_matches_filter() {
    let mut s = three();
    type_text(&mut s, "ts");
    for i in s.viewable_tabs() {
        assert!(s.score(&s.tabs[i]).is_some());
    }
    assert_eq!(s.viewable_positions(), vec![2]);
}

#[test]
fn equal_scores_order_by_position() {
    let mut s = State::new(true);
    s.tabs = vec![tab(2, "c", false), tab(0, "a", false), tab(1, "b", false)];
    assert_eq!(s.viewable_positions(), vec![0, 1, 2]);
    assert_eq!(s.viewable_tabs(), vec![1, 2, 0]);
}

#[test]
fn rank_orders_by_score_then_position() {
    let sc = vec![Some(5), Some(9), None, Some(5), Some(-1)];
    let pos = vec![3, 1, 0, 2, 4];
    assert_eq!(rank(&sc, &pos), vec![1, 3, 0, 4]);
    assert_eq!(rank(&vec![], &vec![]), Vec::<usize>::new());
}

#[test]
fn prompt_shows_placeholder_or_filter() {
    let mut s = three();
    assert_eq!(s.prompt(), "(filter by index or name)");
    type_text(&mut s, "ed");
    assert_eq!(s.prompt(), "ed");
}

#[test]
fn rows_label_and_flags() {
    let mut s = three();
    s.selected = Some(1);
    let rows = s.rows();
    assert_eq!(rows.len(), 3);
    assert_eq!(rows[0].label, "1:editor");
    assert!(rows[0].active && !rows[0].selected);
    assert_eq!(rows[1].label, "2:build");
    assert!(!rows[1].active && rows[1].selected);
    assert_eq!(rows[2].label, "3:tests");
}

#[test]
fn rows_use_multi_digit_index() {
    let mut s = State::new(true);
    s.tabs = vec![tab(11, "logs", false)];
    assert_eq!(s.rows()[0].label, "12:logs");
    type_text(&mut s, "12");
    assert_eq!(s.viewable_positions(), vec![11]);
}

#[test]
fn ignore_case_setting_parses() {
    assert!(ignore_case_setting(None));
    assert!(ignore_case_setting(Some("true")));
    assert!(!ignore_case_setting(Some("false")));
    assert!(!ignore_case_setting(Some("  false\n")));
    assert!(ignore_case_setting(Some("nope")));
}

#[test]
fn backspace_on_empty_filter_keeps_moved_selection() {
    let mut s = three();
    s.reset_selection();
    s.select_down();
    assert_eq!(s.selected, Some(1));
    let (redraw, cmds) = s.update(Event::Key(Key::Backspace));
    assert!(redraw);
    assert!(cmds.is_empty());
    assert!(s.filter.is_empty());
    assert_eq!(s.selected, Some(1));
    s.selected = Some(5);
    s.update(Event::Key(Key::Backspace));
    assert_eq!(s.selected, Some(5));
}

#[test]
fn empty_filter_scores_every_tab_equally() {
    let s = three();
    for t in &s.tabs {
        assert_eq!(s.score(t), Some(0));
    }
}

#[test]
fn long_gap_match_stays_viewable() {
    let mut s = State::new(true);
    let name = format!("a{}b", "x".repeat(300));
    s.tabs = vec![tab(0, &name, false), tab(1, "other", false)];
    type_text(&mut s, "ab");
    assert!(s.score(&s.tabs[0]).is_some());
    assert_eq!(s.viewable_positions(), vec![0]);
    assert_eq!(s.selected, Some(0));
}
