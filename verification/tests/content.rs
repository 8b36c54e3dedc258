use navigator::content::{ContentWidget, DisplayMode};
use navigator::entry::{Entry, Segment, Style};
use navigator::error::NavigatorError;
use navigator::widgets::{Direction, ListWidget};

fn fixture() -> ContentWidget {
    match ContentWidget::from_string(
        String::from(
            "Single\nFolder\n\tSingle\n\tFolder\n\t\tFolder\n\t\t\tSingle\n\tFolder\n\t\tSingle\nSingle",
        ),
        String::from("\t"),
    ) {
        Ok(w) => w,
        Err(e) => panic!("{:?}", e),
    }
}

fn names(list: &Vec<Entry>) -> Vec<String> {
    list.iter().map(|e| e.name.clone()).collect()
}

fn texts(row: &Vec<Segment>) -> Vec<(String, Style)> {
    row.iter().map(|s| (s.text.clone(), s.style)).collect()
}

fn path_of(w: &ContentWidget) -> Vec<(String, usize)> {
    w.path.clone()
}

#[test]
fn starts_at_the_root() {
    let w = fixture();
    assert_eq!(names(w.displayed()), vec!["Single", "Folder", "Single"]);
    assert_eq!(w.selected_index(), 0);
    assert_eq!(path_of(&w), vec![(String::new(), 0)]);
    assert_eq!(w.mode, DisplayMode::Structured);
    assert_eq!(w.get_path(), "");
    assert_eq!(w.get_name(), Ok(String::from("Single")));
}

#[test]
fn malformed_text_gives_no_pane() {
    assert_eq!(
        ContentWidget::from_string(String::from("Single"), String::from("\t")).err(),
        Some(NavigatorError::MalformedInput)
    );
}

#[test]
fn scrolling_stops_at_both_ends() {
    let mut w = fixture();
    w.scroll(Direction::Up);
    assert_eq!(w.selected_index(), 0);
    w.scroll(Direction::Down);
    assert_eq!(w.selected_index(), 1);
    w.scroll(Direction::Down);
    w.scroll(Direction::Down);
    w.scroll(Direction::Down);
    assert_eq!(w.selected_index(), 2);
    w.scroll(Direction::Up);
    assert_eq!(w.selected_index(), 1);
    w.select_last();
    assert_eq!(w.selected_index(), 2);
    w.select_first();
    assert_eq!(w.selected_index(), 0);
}

#[test]
fn scrolling_in_an_empty_list_moves_nothing() {
    let mut w = fixture();
    w.apply_search(String::from("nothing matches this"));
    assert!(w.displayed().is_empty());
    w.scroll(Direction::Down);
    assert_eq!(w.selected_index(), 0);
    w.scroll(Direction::Up);
    assert_eq!(w.selected_index(), 0);
    w.select_last();
    assert_eq!(w.selected_index(), 0);
    assert_eq!(w.get_name(), Err(NavigatorError::EmptySelection));
}

#[test]
fn entering_and_leaving_folders() {
    let mut w = fixture();
    w.expand();
    assert_eq!(path_of(&w), vec![(String::new(), 0)]);
    assert_eq!(names(w.displayed()), vec!["Single", "Folder", "Single"]);
    w.scroll(Direction::Down);
    w.expand();
    assert_eq!(path_of(&w), vec![(String::new(), 0), (String::from("Folder"), 1)]);
    assert_eq!(names(w.displayed()), vec!["Single", "Folder", "Folder"]);
    assert_eq!(w.selected_index(), 0);
    assert_eq!(w.get_path(), "Folder");
    w.select_last();
    w.expand();
    assert_eq!(
        path_of(&w),
        vec![(String::new(), 0), (String::from("Folder"), 1), (String::from("Folder"), 4)]
    );
    assert_eq!(names(w.displayed()), vec!["Single"]);
    assert_eq!(w.get_path(), "Folder/Folder");
    assert_eq!(w.get_title(true, String::from("P")), " /Folder/Folder ");
    assert_eq!(w.get_title(false, String::from("P")), " P /Folder/Folder ");
    w.back();
    assert_eq!(path_of(&w), vec![(String::new(), 0), (String::from("Folder"), 1)]);
    assert_eq!(w.selected_index(), 0);
    w.back();
    w.back();
    w.back();
    assert_eq!(path_of(&w), vec![(String::new(), 0)]);
    assert_eq!(names(w.displayed()), vec!["Single", "Folder", "Single"]);
    assert_eq!(w.get_title(true, String::from("P")), " / ");
}

#[test]
fn the_root_stays_whatever_is_done() {
    let mut w = fixture();
    let steps = [0, 1, 1, 0, 2, 0, 1, 1, 1, 1, 2, 0, 0, 0, 1, 2, 2, 1, 1, 1];
    for s in steps {
        match s {
            0 => w.expand(),
            1 => w.back(),
            _ => w.scroll(Direction::Down),
        }
        assert!(w.path.len() >= 1);
        assert_eq!(w.path[0], (String::new(), 0));
        assert!(w.displayed().is_empty() || w.selected_index() < w.displayed().len());
    }
}

#[test]
fn searching_filters_and_selects_the_first() {
    let mut w = fixture();
    w.scroll(Direction::Down);
    w.apply_search(String::from("Fol"));
    assert_eq!(names(w.displayed()), vec!["Folder"]);
    assert_eq!(w.selected_index(), 0);
    assert_eq!(w.search, "Fol");
    assert_eq!(
        texts(&w.displayed()[0].segments),
        vec![(String::from("Fol"), Style::Matched), (String::from("der"), Style::Plain)]
    );
    w.expand();
    assert_eq!(names(w.displayed()), vec!["Folder", "Folder"]);
    assert_eq!(w.displayed()[0].next, Some(2));
    assert_eq!(w.displayed()[1].next, Some(4));
}

#[test]
fn searching_twice_changes_nothing() {
    let mut w = fixture();
    w.apply_search(String::from("S|d"));
    let once: Vec<Vec<(String, Style)>> =
        w.displayed().iter().map(|e| texts(&e.segments)).collect();
    let selected = w.selected_index();
    w.apply_search(String::from("S|d"));
    let twice: Vec<Vec<(String, Style)>> =
        w.displayed().iter().map(|e| texts(&e.segments)).collect();
    assert_eq!(once, twice);
    assert_eq!(selected, w.selected_index());
    assert_eq!(names(w.displayed()), vec!["Single", "Folder", "Single"]);
}

#[test]
fn a_pattern_that_does_not_compile_keeps_what_is_shown() {
    let mut w = fixture();
    w.apply_search(String::from("Fol"));
    w.apply_search(String::from("Fol("));
    assert_eq!(names(w.displayed()), vec!["Folder"]);
    assert_eq!(w.search, "Fol(");
    assert_eq!(
        texts(&w.displayed()[0].segments),
        vec![(String::from("Fol"), Style::Matched), (String::from("der"), Style::Plain)]
    );
}

#[test]
fn the_empty_search_shows_the_whole_scope_and_selects_the_first() {
    let mut w = fixture();
    w.apply_search(String::from("Fol"));
    w.apply_search(String::new());
    assert_eq!(names(w.displayed()), vec!["Single", "Folder", "Single"]);
    assert_eq!(texts(&w.displayed()[1].segments), vec![(String::from("Folder"), Style::Plain)]);
    w.select_last();
    w.apply_search(String::new());
    assert_eq!(w.selected_index(), 0);
}

#[test]
fn full_paths_of_the_current_folder() {
    let mut w = fixture();
    w.scroll(Direction::Down);
    w.expand();
    w.scroll(Direction::Down);
    w.toggle_display_mode();
    assert_eq!(w.mode, DisplayMode::FullPath);
    assert_eq!(w.selected_index(), 0);
    assert_eq!(
        names(w.displayed()),
        vec!["Single", "Folder", "Folder/Folder", "Folder/Folder/Single", "Folder", "Folder/Single"]
    );
    let before = path_of(&w);
    w.scroll(Direction::Down);
    w.expand();
    w.back();
    assert_eq!(path_of(&w), before);
    assert_eq!(w.selected_index(), 1);
    w.apply_search(String::from("r/S"));
    assert_eq!(names(w.displayed()), vec!["Folder/Folder/Single", "Folder/Single"]);
    assert_eq!(
        texts(&w.displayed()[1].segments),
        vec![
            (String::from("Folde"), Style::Plain),
            (String::from("r"), Style::Matched),
            (String::from("/"), Style::Separator),
            (String::from("S"), Style::Matched),
            (String::from("ingle"), Style::Plain)
        ]
    );
    w.toggle_display_mode();
    assert_eq!(w.mode, DisplayMode::Structured);
    assert!(w.displayed().is_empty());
    w.apply_search(String::new());
    assert_eq!(names(w.displayed()), vec!["Single", "Folder", "Folder"]);
}

#[test]
fn full_paths_from_the_root() {
    let mut w = fixture();
    w.toggle_display_mode();
    assert_eq!(w.displayed().len(), 9);
    assert_eq!(w.displayed()[5].name, "Folder/Folder/Folder/Single");
    w.toggle_display_mode();
    w.toggle_display_mode();
    assert_eq!(w.displayed().len(), 9);
}

#[test]
fn the_row_of_the_selection() {
    let mut w = fixture();
    assert_eq!(w.get_selected(10), 0);
    w.select_last();
    assert_eq!(w.get_selected(10), 2);
    assert_eq!(w.get_selected(2), 2);
    assert_eq!(w.get_selected(1), 1);
}

#[test]
fn rows_carry_a_lead() {
    let w = fixture();
    let rows = w.display(10, false, String::from("D"));
    assert_eq!(rows.len(), 3);
    assert_eq!(
        texts(&rows[0]),
        vec![(String::from("    "), Style::Plain), (String::from("Single"), Style::Plain)]
    );
    assert_eq!(
        texts(&rows[1]),
        vec![(String::from("D "), Style::Plain), (String::from("Folder"), Style::Plain)]
    );
    let lame = w.display(10, true, String::from("D"));
    assert_eq!(
        texts(&lame[1]),
        vec![(String::from("    "), Style::Plain), (String::from("Folder"), Style::Plain)]
    );
}

#[test]
fn rows_follow_the_selection() {
    let mut w = fixture();
    w.toggle_display_mode();
    let first = |rows: &Vec<Vec<Segment>>| -> String {
        rows[0].iter().skip(1).map(|s| s.text.clone()).collect()
    };
    let rows = w.display(4, true, String::new());
    assert_eq!(rows.len(), 4);
    assert_eq!(first(&rows), "Single");
    for _ in 0..4 {
        w.scroll(Direction::Down);
    }
    let rows = w.display(4, true, String::new());
    assert_eq!(rows.len(), 4);
    assert_eq!(first(&rows), "Folder/Folder/Folder");
    for _ in 0..3 {
        w.scroll(Direction::Down);
    }
    assert_eq!(w.selected_index(), 7);
    let rows = w.display(4, true, String::new());
    assert_eq!(rows.len(), 6);
    assert_eq!(first(&rows), "Folder/Folder");
}

#[test]
fn an_empty_list_says_so() {
    let mut w = fixture();
    w.apply_search(String::from("nothing matches this"));
    let rows = w.display(10, true, String::new());
    assert_eq!(rows.len(), 1);
    assert_eq!(texts(&rows[0]), vec![(String::from("    Nothing found!"), Style::Plain)]);
    let rows = w.display(10, false, String::new());
    assert_eq!(texts(&rows[0]), vec![(String::from("❎  Nothing found!"), Style::Plain)]);
}

#[test]
fn a_folder_without_children_is_still_a_folder() {
    let all = vec![vec![Entry::new(String::from("empty"), Some(1), None)], vec![]];
    assert!(navigator::forest::is_well_formed(&all));
    let mut w = ContentWidget::new(all);
    w.expand();
    assert_eq!(path_of(&w), vec![(String::new(), 0), (String::from("empty"), 1)]);
    assert!(w.displayed().is_empty());
    assert_eq!(w.get_name(), Err(NavigatorError::EmptySelection));
    w.back();
    assert_eq!(names(w.displayed()), vec!["empty"]);
}
