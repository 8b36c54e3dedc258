use navigator::entry::{Entry, Style};
use navigator::error::NavigatorError;
use navigator::fanout::{apply, copy_chunk, filter_and_style_chunked, join_chunks, plan_chunks};
use navigator::flatten::flatten_forest;
use navigator::parser::from_separator;
use navigator::pattern::Pattern;
use navigator::search::{filter_and_style, find_all, style_hits};

fn leaves(names: &[&str]) -> Vec<Entry> {
    names.iter().map(|n| Entry::new(String::from(*n), None, None)).collect()
}

fn plain(list: &Vec<Entry>) -> Vec<(String, Option<usize>, Vec<(String, Style)>, Vec<(usize, Style)>)> {
    list.iter()
        .map(|e| {
            (
                e.name.clone(),
                e.next,
                e.segments.iter().map(|s| (s.text.clone(), s.style)).collect(),
                e.marks.clone(),
            )
        })
        .collect()
}

fn pattern(source: &str) -> Pattern {
    match Pattern::compile(source) {
        Ok(p) => p,
        Err(e) => panic!("{:?}", e),
    }
}

#[test]
fn entries_without_a_match_are_dropped() {
    let list = leaves(&["apple", "banana", "cherry"]);
    let shown = filter_and_style(&pattern("an"), &list);
    assert_eq!(shown.len(), 1);
    assert_eq!(shown[0].name, "banana");
    let segments: Vec<(String, Style)> =
        shown[0].segments.iter().map(|s| (s.text.clone(), s.style)).collect();
    assert_eq!(
        segments,
        vec![
            (String::from("b"), Style::Plain),
            (String::from("an"), Style::Matched),
            (String::from("an"), Style::Matched),
            (String::from("a"), Style::Plain)
        ]
    );
}

#[test]
fn the_order_of_the_scope_is_kept() {
    let list = leaves(&["b1", "a", "b2", "c", "b3"]);
    let shown = filter_and_style(&pattern("b"), &list);
    let names: Vec<String> = shown.iter().map(|e| e.name.clone()).collect();
    assert_eq!(names, vec!["b1", "b2", "b3"]);
}

#[test]
fn the_matches_are_those_of_the_pattern() {
    let list = leaves(&["abcabc", "xyz", "αβγ"]);
    let spans = find_all(&pattern("bc|γ"), &list);
    assert_eq!(spans, vec![vec![(1, 3), (4, 6)], vec![], vec![(4, 6)]]);
}

#[test]
fn hits_are_chosen_by_the_spans_given() {
    let list = leaves(&["abc", "def", "ghi"]);
    let shown = style_hits(&list, &vec![vec![], vec![(1, 2)]]);
    assert_eq!(shown.len(), 1);
    assert_eq!(shown[0].name, "def");
    let segments: Vec<(String, Style)> =
        shown[0].segments.iter().map(|s| (s.text.clone(), s.style)).collect();
    assert_eq!(
        segments,
        vec![
            (String::from("d"), Style::Plain),
            (String::from("e"), Style::Matched),
            (String::from("f"), Style::Plain)
        ]
    );
}

#[test]
fn a_match_across_a_separator_leaves_the_separator_as_it_is() {
    let all = from_separator(String::from("dir\n\tfile"), String::from("\t")).unwrap();
    let flat = flatten_forest(&all, 0);
    let shown = filter_and_style(&pattern("r/f"), &flat);
    assert_eq!(shown.len(), 1);
    let segments: Vec<(String, Style)> =
        shown[0].segments.iter().map(|s| (s.text.clone(), s.style)).collect();
    assert_eq!(
        segments,
        vec![
            (String::from("di"), Style::Plain),
            (String::from("r"), Style::Matched),
            (String::from("/"), Style::Separator),
            (String::from("f"), Style::Matched),
            (String::from("ile"), Style::Plain)
        ]
    );
    let text: String = shown[0].segments.iter().map(|s| s.text.clone()).collect();
    assert_eq!(text, "dir/file");
}

#[test]
fn a_pattern_that_matches_the_empty_text_keeps_every_entry_whole() {
    let list = leaves(&["abc", ""]);
    let shown = filter_and_style(&pattern("x*"), &list);
    assert_eq!(shown.len(), 2);
    for e in &shown {
        let text: String = e.segments.iter().map(|s| s.text.clone()).collect();
        assert_eq!(text, e.name);
    }
}

#[test]
fn the_empty_pattern_shows_the_scope_as_it_is() {
    let list = leaves(&["a", "b"]);
    let shown = apply(&list, "").unwrap();
    assert_eq!(plain(&shown), plain(&list));
}

#[test]
fn a_pattern_that_does_not_compile_is_refused() {
    let list = leaves(&["a", "b"]);
    assert_eq!(apply(&list, "(").err(), Some(NavigatorError::InvalidRegex));
    assert_eq!(Pattern::compile("a{2,1}").err(), Some(NavigatorError::InvalidRegex));
    assert!(Pattern::compile("a+").is_ok());
    assert_eq!(Pattern::compile("a+").unwrap().source(), "a+");
}

#[test]
fn chunks_for_small_and_large_scopes() {
    assert_eq!(plan_chunks(0), vec![(0, 0)]);
    assert_eq!(plan_chunks(7), vec![(0, 7)]);
    assert_eq!(plan_chunks(20), vec![(0, 20)]);
    assert_eq!(plan_chunks(21), vec![(0, 21)]);
    assert_eq!(plan_chunks(40), vec![(0, 20), (20, 40)]);
    assert_eq!(plan_chunks(45), vec![(0, 22), (22, 45)]);
    let big = plan_chunks(419);
    assert_eq!(big.len(), 20);
    assert_eq!(big[0], (0, 20));
    assert_eq!(big[18], (360, 380));
    assert_eq!(big[19], (380, 419));
    let huge = plan_chunks(1000);
    assert_eq!(huge.len(), 20);
    assert_eq!(huge[19], (950, 1000));
}

#[test]
fn chunks_follow_one_another() {
    for len in [0usize, 1, 19, 20, 21, 39, 40, 41, 399, 400, 401, 1234] {
        let plan = plan_chunks(len);
        assert!(plan.len() >= 1 && plan.len() <= 20);
        assert_eq!(plan[0].0, 0);
        assert_eq!(plan[plan.len() - 1].1, len);
        for i in 0..plan.len() {
            assert!(plan[i].0 <= plan[i].1);
            if i + 1 < plan.len() {
                assert_eq!(plan[i].1, plan[i + 1].0);
            }
        }
    }
}

fn synthetic(n: usize) -> Vec<Entry> {
    (0..n).map(|i| Entry::new(format!("entry {} of the scope", i * 7 % 13), None, None)).collect()
}

#[test]
fn searching_in_chunks_equals_searching_in_one_go() {
    let p = pattern("1|of");
    for n in [0usize, 5, 19, 20, 21, 50, 137, 420] {
        let scope = synthetic(n);
        let serial = filter_and_style(&p, &scope);
        let chunked = filter_and_style_chunked(&p, &scope);
        assert_eq!(plain(&serial), plain(&chunked));
        assert_eq!(plain(&apply(&scope, "1|of").unwrap()), plain(&serial));
    }
}

#[test]
fn chunked_search_keeps_the_order_of_the_scope() {
    let scope = synthetic(100);
    let shown = filter_and_style_chunked(&pattern("entry (1|3) "), &scope);
    let expected: Vec<String> = scope
        .iter()
        .map(|e| e.name.clone())
        .filter(|n| n.starts_with("entry 1 ") || n.starts_with("entry 3 "))
        .collect();
    let names: Vec<String> = shown.iter().map(|e| e.name.clone()).collect();
    assert_eq!(names, expected);
    assert!(!names.is_empty());
}

#[test]
fn chunks_are_copied_and_joined_in_order() {
    let scope = leaves(&["a", "b", "c", "d", "e"]);
    let first = copy_chunk(&scope, 0, 2);
    let second = copy_chunk(&scope, 2, 5);
    assert_eq!(first.len(), 2);
    assert_eq!(second[0].name, "c");
    let joined = join_chunks(vec![first, Vec::new(), second]);
    assert_eq!(plain(&joined), plain(&scope));
}

#[test]
fn full_paths_that_are_not_ascii_keep_their_separators() {
    let all = from_separator(String::from("Grüße\n\tÄpfel\n\tBirne"), String::from("\t")).unwrap();
    let flat = flatten_forest(&all, 0);
    let shown = filter_and_style(&pattern("e/Ä|rn"), &flat);
    assert_eq!(shown.len(), 2);
    let segments = |e: &Entry| -> Vec<(String, Style)> {
        e.segments.iter().map(|s| (s.text.clone(), s.style)).collect()
    };
    assert_eq!(
        segments(&shown[0]),
        vec![
            (String::from("Grüß"), Style::Plain),
            (String::from("e"), Style::Matched),
            (String::from("/"), Style::Separator),
            (String::from("Ä"), Style::Matched),
            (String::from("pfel"), Style::Plain)
        ]
    );
    assert_eq!(
        segments(&shown[1]),
        vec![
            (String::from("Grüße"), Style::Plain),
            (String::from("/"), Style::Separator),
            (String::from("Bi"), Style::Plain),
            (String::from("rn"), Style::Matched),
            (String::from("e"), Style::Plain)
        ]
    );
    assert_eq!(shown[0].marks, vec![(7, Style::Separator)]);
}
