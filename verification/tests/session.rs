use navigator::content::ContentWidget;
use navigator::session::{Key, Outcome, Session};
use navigator::widgets::Selectable;

fn session(full_path: bool) -> Session {
    let w = ContentWidget::from_string(
        String::from("Single\nFolder\n\tLeaf\n\tInner\n\t\tDeep\nLast"),
        String::from("\t"),
    )
    .unwrap();
    Session::new(w, full_path)
}

fn press(s: &mut Session, keys: &[Key]) -> Outcome {
    let mut last = Outcome::Continue;
    for k in keys {
        last = s.handle_key(*k);
    }
    last
}

fn committed(o: Outcome) -> Option<String> {
    match o {
        Outcome::Commit(s) => Some(s),
        _ => None,
    }
}

fn names(s: &Session) -> Vec<String> {
    s.content_widget.displayed.iter().map(|e| e.name.clone()).collect()
}

#[test]
fn starts_on_the_list() {
    let s = session(false);
    assert_eq!(s.selected, Selectable::List);
    assert_eq!(s.info_widget.count, 3);
    assert_eq!(s.search_widget.get_content(), "");
}

#[test]
fn return_commits_the_selected_name() {
    let mut s = session(false);
    let o = press(&mut s, &[Key::Down, Key::Char('\n')]);
    assert_eq!(committed(o), Some(String::from("Folder")));
}

#[test]
fn return_commits_the_full_path_where_asked_for() {
    let mut s = session(true);
    assert_eq!(committed(press(&mut s, &[Key::Char('\n')])), Some(String::from("Single")));
    let mut s = session(true);
    let o = press(&mut s, &[Key::Char('j'), Key::Char('l'), Key::Down, Key::Right, Key::Char('\n')]);
    assert_eq!(committed(o), Some(String::from("Folder/Inner/Deep")));
    let mut s = session(false);
    let o = press(&mut s, &[Key::Char('j'), Key::Char('l'), Key::Down, Key::Right, Key::Char('\n')]);
    assert_eq!(committed(o), Some(String::from("Deep")));
}

#[test]
fn q_quits() {
    let mut s = session(false);
    assert!(matches!(press(&mut s, &[Key::Char('q')]), Outcome::Quit));
}

#[test]
fn keys_move_through_the_list() {
    let mut s = session(false);
    press(&mut s, &[Key::Char('G')]);
    assert_eq!(s.content_widget.selected, 2);
    press(&mut s, &[Key::Char('g')]);
    assert_eq!(s.content_widget.selected, 0);
    press(&mut s, &[Key::Char('j'), Key::Char('j'), Key::Char('k')]);
    assert_eq!(s.content_widget.selected, 1);
    press(&mut s, &[Key::Right]);
    assert_eq!(names(&s), vec!["Leaf", "Inner"]);
    assert_eq!(s.info_widget.count, 2);
    press(&mut s, &[Key::Char('h')]);
    assert_eq!(names(&s), vec!["Single", "Folder", "Last"]);
    assert_eq!(s.info_widget.count, 3);
    press(&mut s, &[Key::Char('p')]);
    assert_eq!(s.info_widget.count, 6);
    assert_eq!(names(&s)[3], "Folder/Inner");
    press(&mut s, &[Key::Other, Key::Esc, Key::Backspace, Key::Char('x')]);
    assert_eq!(s.info_widget.count, 6);
    assert_eq!(s.selected, Selectable::List);
}

#[test]
fn typing_searches() {
    let mut s = session(false);
    press(&mut s, &[Key::Char('/')]);
    assert_eq!(s.selected, Selectable::Search);
    assert!(matches!(press(&mut s, &[Key::Char('q')]), Outcome::Continue));
    assert_eq!(s.search_widget.get_content(), "q");
    assert!(names(&s).is_empty());
    assert_eq!(s.info_widget.count, 0);
    press(&mut s, &[Key::Char('\n')]);
    assert_eq!(s.selected, Selectable::Search);
    press(&mut s, &[Key::Backspace, Key::Char('L'), Key::Char('a')]);
    assert_eq!(names(&s), vec!["Last"]);
    assert_eq!(s.info_widget.count, 1);
    press(&mut s, &[Key::Char('\n')]);
    assert_eq!(s.selected, Selectable::List);
    assert_eq!(s.search_widget.get_content(), "La");
    assert_eq!(committed(press(&mut s, &[Key::Char('\n')])), Some(String::from("Last")));
}

#[test]
fn escape_gives_the_search_up() {
    let mut s = session(false);
    press(&mut s, &[Key::Char('/'), Key::Char('L'), Key::Esc]);
    assert_eq!(s.selected, Selectable::List);
    assert_eq!(s.search_widget.get_content(), "");
    assert_eq!(names(&s), vec!["Single", "Folder", "Last"]);
    assert_eq!(s.info_widget.count, 3);
}

#[test]
fn an_empty_folder_view_sends_the_focus_to_the_search() {
    let mut s = session(false);
    press(&mut s, &[Key::Char('/'), Key::Char('F'), Key::Char('\n')]);
    assert_eq!(s.selected, Selectable::List);
    assert_eq!(names(&s), vec!["Folder"]);
    press(&mut s, &[Key::Right]);
    assert!(names(&s).is_empty());
    assert_eq!(s.selected, Selectable::Search);
    assert_eq!(s.info_widget.count, 0);
    assert!(matches!(press(&mut s, &[Key::Char('\n')]), Outcome::Continue));
    assert_eq!(s.selected, Selectable::Search);
}

#[test]
fn nothing_is_committed_where_nothing_is_shown() {
    let w = ContentWidget::new(vec![vec![]]);
    let mut s = Session::new(w, true);
    assert!(matches!(press(&mut s, &[Key::Char('\n')]), Outcome::Continue));
    assert_eq!(s.selected, Selectable::List);
}
