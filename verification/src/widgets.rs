//! The panes of the interface: the search box, the counter and what they
//! have in common.

use crate::entry::Segment;
use crate::pattern::{pattern_compiles, Pattern};
use crate::text::{decimal, decimal_string, pop_char, push_char};
use vstd::prelude::*;
use vstd::string::StringExecFns;

verus! {

/// Which pane of the interface receives key presses.
#[derive(Clone, Copy, Debug, PartialEq, Eq, Structural)]
pub enum Selectable {
    Search,
    List,
}

/// The two ways in which the selection moves through a list.
#[derive(Clone, Copy, Debug, PartialEq, Eq, Structural)]
pub enum Direction {
    Up,
    Down,
}

/// How a paragraph is drawn.
#[derive(Clone, Copy, Debug, PartialEq, Eq, Structural)]
pub enum Emphasis {
    /// As ordinary text.
    Normal,
    /// As something that is not in order.
    Invalid,
}

/// The text of a pane.
#[derive(Clone, Debug)]
pub struct Paragraph {
    pub text: String,
    pub emphasis: Emphasis,
}

/// What a `Paragraph` stands for.
pub struct ParagraphView {
    pub text: Seq<char>,
    pub emphasis: Emphasis,
}

impl DeepView for Paragraph {
    type V = ParagraphView;

    open spec fn deep_view(&self) -> ParagraphView {
        ParagraphView { text: self.text@, emphasis: self.emphasis }
    }
}

/// A pane that shows one paragraph of text under a title.
pub trait ParagraphWidget {
    /// The title of the pane. It carries `prefix` unless `lame` is set.
    fn get_title(&self, lame: bool, prefix: String) -> String;

    /// The text in the pane.
    fn display(&self, lame: bool, prefix: String) -> Paragraph;
}

/// A pane that shows a list of rows under a title. It is `height` rows high.
pub trait ListWidget {
    /// The row of the pane on which the selection is drawn.
    fn get_selected(&self, height: u16) -> usize;

    /// The title of the pane. It carries `prefix` unless `lame` is set.
    fn get_title(&self, lame: bool, prefix: String) -> String;

    /// The rows in the pane, each as styled segments. Folders carry `prefix`
    /// unless `lame` is set.
    fn display(&self, height: u16, lame: bool, prefix: String) -> Vec<Vec<Segment>>;
}

/// The search box: the pattern as it was typed so far.
pub struct SearchWidget {
    pub content: String,
}

impl SearchWidget {
    /// An empty search box.
    pub fn new() -> (w: Self)
        ensures
            w.content@ == Seq::<char>::empty(),
    {
        Self { content: String::new() }
    }

    /// Types `c` behind what is there.
    pub fn add(&mut self, c: char)
        ensures
            final(self).content@ == old(self).content@.push(c),
    {
        push_char(&mut self.content, c);
    }

    /// Deletes the last character, if there is one.
    pub fn pop(&mut self)
        ensures
            final(self).content@ == if old(self).content@.len() > 0 {
                old(self).content@.drop_last()
            } else {
                old(self).content@
            },
    {
        let _ = pop_char(&mut self.content);
    }

    /// What was typed so far.
    pub fn get_content(&self) -> (s: String)
        ensures
            s@ == self.content@,
    {
        self.content.clone()
    }

    /// Empties the search box.
    pub fn clear(&mut self)
        ensures
            final(self).content@ == Seq::<char>::empty(),
    {
        self.content = String::new();
    }

    /// Whether what was typed compiles as a pattern.
    pub fn is_valid(&self) -> (b: bool)
        ensures
            b == pattern_compiles(self.content@),
    {
        Pattern::compile(self.content.as_str()).is_ok()
    }
}

/// The title of the search box.
pub open spec fn search_title(lame: bool, prefix: Seq<char>) -> Seq<char> {
    if lame {
        " Search "@
    } else {
        " "@ + prefix + " Search "@
    }
}

/// What the search box shows: the pattern, marked as invalid where it does
/// not compile.
pub open spec fn search_display(content: Seq<char>) -> ParagraphView {
    ParagraphView {
        text: content,
        emphasis: if pattern_compiles(content) {
            Emphasis::Normal
        } else {
            Emphasis::Invalid
        },
    }
}

impl ParagraphWidget for SearchWidget {
    fn get_title(&self, lame: bool, prefix: String) -> (title: String)
        ensures
            title@ == search_title(lame, prefix@),
    {
        if lame {
            String::from_str(" Search ")
        } else {
            let mut title = String::from_str(" ");
            title.append(prefix.as_str());
            title.append(" Search ");
            title
        }
    }

    fn display(&self, _lame: bool, _prefix: String) -> (shown: Paragraph)
        ensures
            shown.deep_view() == search_display(self.content@),
    {
        let emphasis = if self.is_valid() {
            Emphasis::Normal
        } else {
            Emphasis::Invalid
        };
        Paragraph { text: self.content.clone(), emphasis }
    }
}

/// The counter: how many entries are shown.
pub struct InfoWidget {
    pub count: usize,
}

impl InfoWidget {
    /// A counter that shows `count`.
    pub fn new(count: usize) -> (w: Self)
        ensures
            w.count == count,
    {
        Self { count }
    }

    /// Sets the counter to `new_count`.
    pub fn update(&mut self, new_count: usize)
        ensures
            final(self).count == new_count,
    {
        self.count = new_count;
    }
}

/// What the counter shows: the number in decimal and a blank.
pub open spec fn info_display(count: nat) -> ParagraphView {
    ParagraphView { text: decimal(count).push(' '), emphasis: Emphasis::Normal }
}

impl ParagraphWidget for InfoWidget {
    fn get_title(&self, _lame: bool, _prefix: String) -> (title: String)
        ensures
            title@ == Seq::<char>::empty(),
    {
        String::new()
    }

    fn display(&self, _lame: bool, _prefix: String) -> (shown: Paragraph)
        ensures
            shown.deep_view() == info_display(self.count as nat),
    {
        let mut text = decimal_string(self.count);
        push_char(&mut text, ' ');
        Paragraph { text, emphasis: Emphasis::Normal }
    }
}

} // verus!
