use navigator::entry::{Entry, Style};
use navigator::flatten::flatten_forest;
use navigator::forest::is_well_formed;
use navigator::parser::from_separator;

fn fixture() -> Vec<Vec<Entry>> {
    from_separator(
        String::from(
            "Single\nFolder\n\tSingle\n\tFolder\n\t\tFolder\n\t\t\tSingle\n\tFolder\n\t\tSingle\nSingle",
        ),
        String::from("\t"),
    )
    .unwrap()
}

fn names(list: &Vec<Entry>) -> Vec<String> {
    list.iter().map(|e| e.name.clone()).collect()
}

#[test]
fn flat_list_goes_depth_first() {
    let all = fixture();
    assert!(is_well_formed(&all));
    let flat = flatten_forest(&all, 0);
    assert_eq!(
        names(&flat),
        vec![
            "Single",
            "Folder",
            "Folder/Single",
            "Folder/Folder",
            "Folder/Folder/Folder",
            "Folder/Folder/Folder/Single",
            "Folder/Folder",
            "Folder/Folder/Single",
            "Single"
        ]
    );
    assert!(flat.iter().all(|e| e.next.is_none()));
}

#[test]
fn flat_list_of_an_inner_folder() {
    let all = fixture();
    let flat = flatten_forest(&all, 2);
    assert_eq!(names(&flat), vec!["Folder", "Folder/Single"]);
}

#[test]
fn separators_are_marked_and_styled() {
    let all = fixture();
    let flat = flatten_forest(&all, 0);
    let deep = &flat[5];
    assert_eq!(
        deep.marks,
        vec![(6, Style::Separator), (13, Style::Separator), (20, Style::Separator)]
    );
    let shown: Vec<(String, Style)> =
        deep.segments.iter().map(|s| (s.text.clone(), s.style)).collect();
    assert_eq!(
        shown,
        vec![
            (String::from("Folder"), Style::Plain),
            (String::from("/"), Style::Separator),
            (String::from("Folder"), Style::Plain),
            (String::from("/"), Style::Separator),
            (String::from("Folder"), Style::Plain),
            (String::from("/"), Style::Separator),
            (String::from("Single"), Style::Plain)
        ]
    );
    let text: String = deep.segments.iter().map(|s| s.text.clone()).collect();
    assert_eq!(text, deep.name);
}

#[test]
fn marks_are_byte_offsets() {
    let all = from_separator(String::from("äö\n\tü"), String::from("\t")).unwrap();
    let flat = flatten_forest(&all, 0);
    assert_eq!(names(&flat), vec!["äö", "äö/ü"]);
    assert_eq!(flat[1].marks, vec![(4, Style::Separator)]);
    assert_eq!(&flat[1].name[4..5], "/");
}

#[test]
fn every_mark_stands_at_a_separator() {
    let all = from_separator(
        String::from("日本\n\tß\n\t\tleaf\n\t\t€\n\t\t\tx\nlast"),
        String::from("\t"),
    )
    .unwrap();
    let flat = flatten_forest(&all, 0);
    assert_eq!(names(&flat), vec!["日本", "日本/ß", "日本/ß/leaf", "日本/ß/€", "日本/ß/€/x", "last"]);
    assert_eq!(
        flat[4].marks,
        vec![(6, Style::Separator), (9, Style::Separator), (13, Style::Separator)]
    );
    for e in &flat {
        let mut before = None;
        for (offset, style) in &e.marks {
            assert_eq!(*style, Style::Separator);
            assert_eq!(e.name.as_bytes()[*offset], b'/');
            assert!(before.map_or(true, |b| b < *offset));
            before = Some(*offset);
        }
        assert_eq!(e.marks.len(), e.name.matches('/').count());
    }
}

#[test]
fn well_formedness_is_checked() {
    let empty: Vec<Vec<Entry>> = Vec::new();
    assert!(!is_well_formed(&empty));
    let dangling = vec![vec![Entry::new(String::from("a"), Some(1), None)]];
    assert!(!is_well_formed(&dangling));
    let backwards = vec![
        vec![Entry::new(String::from("a"), Some(1), None)],
        vec![Entry::new(String::from("b"), Some(0), None)],
    ];
    assert!(!is_well_formed(&backwards));
    let fine = vec![vec![Entry::new(String::from("a"), Some(1), None)], vec![]];
    assert!(is_well_formed(&fine));
}
