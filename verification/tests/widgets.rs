use navigator::config::{read_config, Config};
use navigator::text::decimal_string;
use navigator::widgets::{Emphasis, InfoWidget, ParagraphWidget, SearchWidget};

#[test]
fn search_box_takes_and_gives_characters() {
    let mut w = SearchWidget::new();
    assert_eq!(w.get_content(), "");
    w.add('a');
    w.add('ß');
    w.add('c');
    assert_eq!(w.get_content(), "aßc");
    w.pop();
    assert_eq!(w.get_content(), "aß");
    w.pop();
    w.pop();
    w.pop();
    assert_eq!(w.get_content(), "");
    w.add('x');
    w.clear();
    assert_eq!(w.get_content(), "");
}

#[test]
fn search_box_titles() {
    let w = SearchWidget::new();
    assert_eq!(w.get_title(true, String::from("P")), " Search ");
    assert_eq!(w.get_title(false, String::from("P")), " P Search ");
}

#[test]
fn search_box_marks_a_pattern_that_does_not_compile() {
    let mut w = SearchWidget::new();
    w.add('a');
    assert!(w.is_valid());
    let shown = w.display(false, String::new());
    assert_eq!(shown.text, "a");
    assert_eq!(shown.emphasis, Emphasis::Normal);
    w.add('(');
    assert!(!w.is_valid());
    let shown = w.display(false, String::new());
    assert_eq!(shown.text, "a(");
    assert_eq!(shown.emphasis, Emphasis::Invalid);
}

#[test]
fn counter_shows_its_number() {
    let mut w = InfoWidget::new(7);
    assert_eq!(w.count, 7);
    assert_eq!(w.get_title(false, String::from("P")), "");
    assert_eq!(w.display(false, String::new()).text, "7 ");
    w.update(1203);
    assert_eq!(w.count, 1203);
    assert_eq!(w.display(true, String::new()).text, "1203 ");
    assert_eq!(w.display(true, String::new()).emphasis, Emphasis::Normal);
}

#[test]
fn numbers_in_decimal() {
    assert_eq!(decimal_string(0), "0");
    assert_eq!(decimal_string(9), "9");
    assert_eq!(decimal_string(10), "10");
    assert_eq!(decimal_string(4096), "4096");
    assert_eq!(decimal_string(usize::MAX), usize::MAX.to_string());
}

#[test]
fn default_configuration() {
    let c = read_config(None, false);
    assert_eq!(c.prefixes.search, "🔍 ");
    assert_eq!(c.prefixes.list, "📂 ");
    assert_eq!(c.prefixes.folder, "📁 ");
    assert_eq!(c.theme.selected.fg, None);
    assert_eq!(c.theme.selected.bg, None);
    assert_eq!(c.theme.default.fg, Some([100, 100, 100]));
    assert_eq!(c.theme.default.bg, None);
    assert_eq!(c.selector, "> ");
    assert!(!c.lame);
    assert!(read_config(None, true).lame);
}

#[test]
fn given_configuration_is_kept() {
    let mut given = Config::standard();
    given.selector = String::from("* ");
    given.theme.selected.bg = Some([1, 2, 3]);
    let c = read_config(Some(given.clone()), false);
    assert_eq!(c.selector, "* ");
    assert_eq!(c.theme.selected.bg, Some([1, 2, 3]));
    assert!(!c.lame);
    assert!(read_config(Some(given.clone()), true).lame);
    given.lame = true;
    assert!(read_config(Some(given), false).lame);
}
