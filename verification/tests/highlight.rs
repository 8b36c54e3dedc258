use navigator::entry::{Entry, Segment, Style};
use navigator::highlight::style_segments;
use navigator::offsets::{char_counts, to_char_marks, to_char_spans};
use navigator::search::style_entry;

fn shown(segments: &Vec<Segment>) -> Vec<(String, Style)> {
    segments.iter().map(|s| (s.text.clone(), s.style)).collect()
}

fn piece(text: &str, style: Style) -> (String, Style) {
    (String::from(text), style)
}

#[test]
fn a_match_at_the_start() {
    let r = style_segments("hello world", &vec![(0, 5)], &vec![]);
    assert_eq!(shown(&r), vec![piece("hello", Style::Matched), piece(" world", Style::Plain)]);
}

#[test]
fn a_match_in_the_middle() {
    let r = style_segments("hello world", &vec![(3, 8)], &vec![]);
    assert_eq!(
        shown(&r),
        vec![piece("hel", Style::Plain), piece("lo wo", Style::Matched), piece("rld", Style::Plain)]
    );
}

#[test]
fn no_match_is_one_plain_segment() {
    let r = style_segments("hello", &vec![], &vec![]);
    assert_eq!(shown(&r), vec![piece("hello", Style::Plain)]);
}

#[test]
fn an_empty_name_has_no_segment() {
    let r = style_segments("", &vec![(0, 0)], &vec![]);
    assert!(r.is_empty());
}

#[test]
fn matches_side_by_side_stay_apart() {
    let r = style_segments("aab", &vec![(0, 1), (1, 2)], &vec![]);
    assert_eq!(
        shown(&r),
        vec![piece("a", Style::Matched), piece("a", Style::Matched), piece("b", Style::Plain)]
    );
}

#[test]
fn a_separator_keeps_its_style_inside_a_match() {
    let r = style_segments("a/b", &vec![(0, 3)], &vec![(1, Style::Separator)]);
    assert_eq!(
        shown(&r),
        vec![piece("a", Style::Matched), piece("/", Style::Separator), piece("b", Style::Matched)]
    );
}

#[test]
fn a_separator_keeps_its_style_right_behind_a_match() {
    let r = style_segments("ab/cd", &vec![(1, 2), (4, 5)], &vec![(2, Style::Separator)]);
    assert_eq!(
        shown(&r),
        vec![
            piece("a", Style::Plain),
            piece("b", Style::Matched),
            piece("/", Style::Separator),
            piece("c", Style::Plain),
            piece("d", Style::Matched)
        ]
    );
}

#[test]
fn a_separator_at_the_start() {
    let r = style_segments("/x", &vec![(1, 2)], &vec![(0, Style::Separator)]);
    assert_eq!(shown(&r), vec![piece("/", Style::Separator), piece("x", Style::Matched)]);
}

#[test]
fn an_empty_match_cuts_but_does_not_color() {
    let r = style_segments("abcd", &vec![(2, 2)], &vec![]);
    assert_eq!(shown(&r), vec![piece("ab", Style::Plain), piece("cd", Style::Plain)]);
}

#[test]
fn segments_spell_the_name() {
    let name = "one/two/three";
    let marks = vec![(3, Style::Separator), (7, Style::Separator)];
    for spans in [vec![], vec![(0, 13)], vec![(2, 5)], vec![(0, 0), (1, 1), (13, 13)], vec![(5, 2)]] {
        let r = style_segments(name, &spans, &marks);
        let text: String = r.iter().map(|s| s.text.clone()).collect();
        assert_eq!(text, name);
        assert!(r.iter().all(|s| !s.text.is_empty()));
        assert_eq!(r.iter().filter(|s| s.style == Style::Separator).count(), 2);
    }
}

#[test]
fn byte_offsets_turn_into_character_positions() {
    assert_eq!(to_char_spans("αβγδ", &vec![(4, 6)]), vec![(2, 3)]);
    assert_eq!(to_char_spans("a€b", &vec![(0, 1), (1, 4), (4, 5)]), vec![(0, 1), (1, 2), (2, 3)]);
    assert_eq!(to_char_spans("abc", &vec![(1, 99)]), vec![(1, 3)]);
    assert_eq!(to_char_spans("", &vec![(0, 0)]), vec![(0, 0)]);
}

#[test]
fn an_entry_is_drawn_anew_with_byte_spans() {
    let e = Entry::new(String::from("αβγδ"), Some(3), None);
    let styled = style_entry(&e, &vec![(4, 6)]);
    assert_eq!(styled.name, "αβγδ");
    assert_eq!(styled.next, Some(3));
    assert_eq!(
        shown(&styled.segments),
        vec![piece("αβ", Style::Plain), piece("γ", Style::Matched), piece("δ", Style::Plain)]
    );
}

#[test]
fn marks_turn_into_character_positions() {
    assert_eq!(
        to_char_marks("äö/ü", &vec![(4, Style::Separator)]),
        vec![(2, Style::Separator)]
    );
    assert_eq!(
        to_char_marks("a/b/c", &vec![(1, Style::Separator), (3, Style::Matched)]),
        vec![(1, Style::Separator), (3, Style::Matched)]
    );
    assert_eq!(char_counts("a€b"), vec![0, 1, 2, 2, 2, 3]);
    assert_eq!(char_counts(""), vec![0]);
}

#[test]
fn a_mark_is_a_byte_offset() {
    let r = style_segments("äö/ü", &vec![], &vec![(4, Style::Separator)]);
    assert_eq!(
        shown(&r),
        vec![piece("äö", Style::Plain), piece("/", Style::Separator), piece("ü", Style::Plain)]
    );
}

#[test]
fn matches_and_marks_are_byte_offsets_into_the_same_name() {
    let r = style_segments("äö/ü", &vec![(2, 7)], &vec![(4, Style::Separator)]);
    assert_eq!(
        shown(&r),
        vec![
            piece("ä", Style::Plain),
            piece("ö", Style::Matched),
            piece("/", Style::Separator),
            piece("ü", Style::Matched)
        ]
    );
}

#[test]
fn an_entry_keeps_its_marks_when_it_is_drawn_anew() {
    let mut e = Entry::new(String::from("äö/ü"), None, None);
    e.marks = vec![(4, Style::Separator)];
    let styled = style_entry(&e, &vec![(5, 7)]);
    assert_eq!(styled.marks, vec![(4, Style::Separator)]);
    assert_eq!(
        shown(&styled.segments),
        vec![piece("äö", Style::Plain), piece("/", Style::Separator), piece("ü", Style::Matched)]
    );
}
