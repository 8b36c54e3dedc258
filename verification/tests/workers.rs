use std::cell::RefCell;

use navigator::content::ContentWidget;
use navigator::entry::Entry;
use navigator::fanout::{apply, apply_with, fan_out, search_chunks, split_chunks};
use navigator::pattern::Pattern;
use navigator::search::filter_and_style;
use navigator::session::{Key, Session};

fn scope(n: usize) -> Vec<Entry> {
    (0..n).map(|i| Entry::new(format!("line {}", i), None, None)).collect()
}

fn names(list: &Vec<Entry>) -> Vec<String> {
    list.iter().map(|e| e.name.clone()).collect()
}

#[test]
fn a_scope_is_cut_into_its_chunks() {
    let chunks = split_chunks(&scope(45));
    assert_eq!(chunks.len(), 2);
    assert_eq!(chunks[0].len(), 22);
    assert_eq!(chunks[1].len(), 23);
    assert_eq!(chunks[1][0].name, "line 22");
    assert_eq!(split_chunks(&scope(3)).len(), 1);
    assert_eq!(split_chunks(&scope(0)).len(), 1);
}

#[test]
fn workers_get_the_chunks_of_a_large_scope_only() {
    let sizes: RefCell<Vec<Vec<usize>>> = RefCell::new(Vec::new());
    let workers = |pattern: &Pattern, chunks: Vec<Vec<Entry>>| -> Vec<Vec<Entry>> {
        sizes.borrow_mut().push(chunks.iter().map(|c| c.len()).collect());
        search_chunks(pattern, chunks)
    };
    let small = scope(20);
    let shown = apply_with(&small, "1", &workers).unwrap();
    assert_eq!(names(&shown), names(&apply(&small, "1").unwrap()));
    assert!(sizes.borrow().is_empty());
    let large = scope(61);
    let shown = apply_with(&large, "1", &workers).unwrap();
    assert_eq!(names(&shown), names(&apply(&large, "1").unwrap()));
    assert_eq!(*sizes.borrow(), vec![vec![20, 20, 21]]);
    let _ = apply_with(&large, "", &workers).unwrap();
    assert!(apply_with(&large, "(", &workers).is_err());
    assert_eq!(sizes.borrow().len(), 1);
}

#[test]
fn results_are_joined_in_the_order_of_the_chunks() {
    let pattern = Pattern::compile("[05]$").unwrap();
    let list = scope(100);
    let backwards = |pattern: &Pattern, chunks: Vec<Vec<Entry>>| -> Vec<Vec<Entry>> {
        // the last chunk is searched first, and each result is put in its place
        let mut parts: Vec<Vec<Entry>> = chunks.iter().map(|_| Vec::new()).collect();
        for i in (0..chunks.len()).rev() {
            parts[i] = filter_and_style(pattern, &chunks[i]);
        }
        parts
    };
    let shown = fan_out(&pattern, &list, &backwards);
    let expected: Vec<String> = (0..100).filter(|i| i % 5 == 0).map(|i| format!("line {}", i)).collect();
    assert_eq!(names(&shown), expected);
    assert_eq!(names(&shown), names(&filter_and_style(&pattern, &list)));
}

#[test]
fn a_session_searches_with_the_workers_it_is_given() {
    let text: String = (0..50).map(|i| format!("row {}", i)).collect::<Vec<String>>().join("\n");
    let w = ContentWidget::from_string(text, String::from("\t")).unwrap();
    let mut session = Session::new(w, false);
    let calls: RefCell<usize> = RefCell::new(0);
    let workers = |pattern: &Pattern, chunks: Vec<Vec<Entry>>| -> Vec<Vec<Entry>> {
        *calls.borrow_mut() += 1;
        search_chunks(pattern, chunks)
    };
    session.handle_key_with(Key::Char('/'), &workers);
    session.handle_key_with(Key::Char('7'), &workers);
    assert_eq!(*calls.borrow(), 1);
    assert_eq!(names(&session.content_widget.displayed), vec!["row 7", "row 17", "row 27", "row 37", "row 47"]);
    assert_eq!(session.info_widget.count, 5);
}
