use owo_colors::OwoColorize;
use room::switcher::{Event, Key, State, Tab};

fn tab(position: usize, name: &str, active: bool) -> Tab {
    Tab { position, name: name.to_string(), active }
}

fn three() -> State {
    let mut s = State::new(true);
    s.tabs = vec![tab(0, "editor", true), tab(1, "build", false), tab(2, "tests", false)];
    s
}

#[test]
fn styled_prompt_placeholder() {
    let s = three();
    assert_eq!(
        s.styled_prompt(),
        "\x1b[1m\x1b[36m>\x1b[39m\x1b[0m \x1b[3m\x1b[2m(filter by index or name)\x1b[0m\x1b[0m"
    );
    assert_eq!(
        s.styled_prompt(),
        format!("{} {}", ">".cyan().bold(), "(filter by index or name)".dimmed().italic())
    );
}

#[test]
fn styled_prompt_filter() {
    let mut s = three();
    s.update(Event::Key(Key::Char('b')));
    assert_eq!(s.styled_prompt(), format!("{} {}", ">".cyan().bold(), "b".dimmed().italic()));
}

#[test]
fn styled_rows_mark_active_and_selected() {
    let mut s = three();
    s.selected = Some(0);
    let lines = s.styled_rows();
    assert_eq!(lines.len(), 3);
    assert_eq!(lines[0], "\x1b[1m\x1b[46m\x1b[1m\x1b[31m1:editor\x1b[39m\x1b[0m\x1b[49m\x1b[0m");
    assert_eq!(lines[1], "2:build");
    s.selected = Some(2);
    let lines = s.styled_rows();
    assert_eq!(lines[0], "1:editor".red().bold().to_string());
    assert_eq!(lines[2], "3:tests".on_cyan().bold().to_string());
}
