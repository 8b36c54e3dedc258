//! One run of the interface: which pane has the focus, and what each key does.
//!
//! The session decides; whoever runs it reads the keys, draws the panes and
//! prints the outcome.

use crate::content::{
    backed, expanded, full_path, joined, entered_names, scrolled, searched, toggled, ContentWidget,
    Navigation,
};
use crate::entry::Entry;
use crate::fanout::{search_chunks, searches_chunks};
use crate::pattern::Pattern;
use crate::text::push_char;
use crate::widgets::{Direction, InfoWidget, SearchWidget, Selectable};
use vstd::prelude::*;
use vstd::string::StringExecFns;

verus! {

/// A key that was pressed.
#[derive(Clone, Copy, Debug, PartialEq, Eq, Structural)]
pub enum Key {
    /// A character; the return key is the line break.
    Char(char),
    Backspace,
    Esc,
    Up,
    Down,
    Left,
    Right,
    /// Any other key.
    Other,
}

/// What a key leads to.
#[derive(Clone, Debug)]
pub enum Outcome {
    /// The session goes on.
    Continue,
    /// The session ends without a choice.
    Quit,
    /// The session ends, and this is what was chosen.
    Commit(String),
}

/// What an `Outcome` stands for.
pub enum OutcomeView {
    Continue,
    Quit,
    Commit(Seq<char>),
}

impl DeepView for Outcome {
    type V = OutcomeView;

    open spec fn deep_view(&self) -> OutcomeView {
        match self {
            Outcome::Continue => OutcomeView::Continue,
            Outcome::Quit => OutcomeView::Quit,
            Outcome::Commit(s) => OutcomeView::Commit(s@),
        }
    }
}

/// The panes and the focus.
pub struct Session {
    pub selected: Selectable,
    pub search_widget: SearchWidget,
    pub content_widget: ContentWidget,
    pub info_widget: InfoWidget,
    /// Whether a choice is given with the path that leads to it.
    pub full_path: bool,
}

/// What a `Session` stands for.
pub struct SessionView {
    pub focus: Selectable,
    pub typed: Seq<char>,
    pub nav: Navigation,
    pub count: int,
    pub full_path: bool,
}

impl View for Session {
    type V = SessionView;

    open spec fn view(&self) -> SessionView {
        SessionView {
            focus: self.selected,
            typed: self.search_widget.content@,
            nav: self.content_widget@,
            count: self.info_widget.count as int,
            full_path: self.full_path,
        }
    }
}

/// The session with the list pane as `nav`, the counter brought up to date,
/// and the focus on the search box where nothing is shown.
pub open spec fn moved(s: SessionView, nav: Navigation) -> SessionView {
    SessionView {
        nav,
        count: nav.displayed.len() as int,
        focus: if nav.displayed.len() == 0 {
            Selectable::Search
        } else {
            s.focus
        },
        ..s
    }
}

/// The session with the search box holding `typed`, the search applied and
/// the counter brought up to date.
pub open spec fn typed(s: SessionView, typed: Seq<char>) -> SessionView {
    let nav = searched(s.nav, typed);
    SessionView { typed, nav, count: nav.displayed.len() as int, ..s }
}

/// The session after `key` was pressed.
///
/// While the search box has the focus, the return key hands the focus to the
/// list if anything is shown; a character is typed and a backspace deletes
/// one, and the search is applied; escape empties the box, applies the empty
/// search and hands the focus to the list.
///
/// While the list has the focus, the arrows and `k`, `j`, `l`, `h` move the
/// selection, enter a folder and leave it; `p` switches between folders and
/// full paths; `g` and `G` select the first and the last entry; `/` hands
/// the focus to the search box. Where entering, leaving or switching leaves
/// nothing to show, the focus goes to the search box by itself.
pub open spec fn pressed(s: SessionView, key: Key) -> SessionView {
    match s.focus {
        Selectable::Search => match key {
            Key::Char(c) => if c == '\n' {
                if s.nav.displayed.len() > 0 {
                    SessionView { focus: Selectable::List, ..s }
                } else {
                    s
                }
            } else {
                typed(s, s.typed.push(c))
            },
            Key::Backspace => typed(
                s,
                if s.typed.len() > 0 {
                    s.typed.drop_last()
                } else {
                    s.typed
                },
            ),
            Key::Esc => typed(SessionView { focus: Selectable::List, ..s }, Seq::empty()),
            _ => s,
        },
        Selectable::List => match key {
            Key::Up => SessionView { nav: scrolled(s.nav, Direction::Up), ..s },
            Key::Down => SessionView { nav: scrolled(s.nav, Direction::Down), ..s },
            Key::Right => moved(s, expanded(s.nav)),
            Key::Left => moved(s, backed(s.nav)),
            Key::Char(c) => if c == 'k' {
                SessionView { nav: scrolled(s.nav, Direction::Up), ..s }
            } else if c == 'j' {
                SessionView { nav: scrolled(s.nav, Direction::Down), ..s }
            } else if c == 'l' {
                moved(s, expanded(s.nav))
            } else if c == 'h' {
                moved(s, backed(s.nav))
            } else if c == 'p' {
                moved(s, toggled(s.nav))
            } else if c == 'g' {
                SessionView { nav: Navigation { selected: 0, ..s.nav }, ..s }
            } else if c == 'G' {
                SessionView {
                    nav: Navigation {
                        selected: if s.nav.displayed.len() == 0 {
                            0
                        } else {
                            s.nav.displayed.len() - 1
                        },
                        ..s.nav
                    },
                    ..s
                }
            } else if c == '/' {
                SessionView { focus: Selectable::Search, ..s }
            } else {
                s
            },
            _ => s,
        },
    }
}

/// What is chosen when the selected entry is committed: its name, behind
/// the path that leads to it where the session was asked for full paths.
pub open spec fn choice(s: SessionView) -> Seq<char> {
    let name = s.nav.displayed[s.nav.selected].name;
    if s.full_path {
        joined(entered_names(s.nav).push(name), '/')
    } else {
        name
    }
}

/// What pressing `key` leads to. While the list has the focus, the return
/// key commits the selected entry, if there is one, and `q` quits. Every
/// other key lets the session go on.
pub open spec fn outcome(s: SessionView, key: Key) -> OutcomeView {
    if s.focus == Selectable::List && key == Key::Char('\n') && s.nav.displayed.len() > 0 {
        OutcomeView::Commit(choice(s))
    } else if s.focus == Selectable::List && key == Key::Char('q') {
        OutcomeView::Quit
    } else {
        OutcomeView::Continue
    }
}

impl Session {
    /// What holds of a session at all times.
    pub open spec fn wf(&self) -> bool {
        self.content_widget.wf()
    }

    /// A session on `content_widget`, with the focus on the list, an empty
    /// search box and the counter up to date.
    pub fn new(content_widget: ContentWidget, full_path: bool) -> (s: Self)
        requires
            content_widget.wf(),
        ensures
            s.wf(),
            s@ == (SessionView {
                focus: Selectable::List,
                typed: Seq::empty(),
                nav: content_widget@,
                count: content_widget@.displayed.len() as int,
                full_path,
            }),
    {
        let count = content_widget.displayed.len();
        Session {
            selected: Selectable::List,
            search_widget: SearchWidget::new(),
            content_widget,
            info_widget: InfoWidget::new(count),
            full_path,
        }
    }

    /// Applies what the search box holds and brings the counter up to date.
    fn search_again<W: Fn(&Pattern, Vec<Vec<Entry>>) -> Vec<Vec<Entry>>>(&mut self, workers: &W)
        requires
            old(self).wf(),
            searches_chunks(workers),
        ensures
            final(self).wf(),
            final(self)@ == typed(old(self)@, old(self)@.typed),
    {
        self.content_widget.apply_search_with(self.search_widget.get_content(), workers);
        self.info_widget.update(self.content_widget.displayed.len());
    }

    /// Brings the counter up to date and moves the focus to the search box
    /// where nothing is shown.
    fn settle(&mut self)
        requires
            old(self).wf(),
        ensures
            final(self).wf(),
            final(self)@ == moved(old(self)@, old(self)@.nav),
    {
        self.info_widget.update(self.content_widget.displayed.len());
        if self.content_widget.displayed.len() == 0 {
            self.selected = Selectable::Search;
        }
    }

    /// What is chosen when the selected entry is committed.
    fn chosen(&self) -> (s: String)
        requires
            self.wf(),
            self@.nav.displayed.len() > 0,
        ensures
            s@ == choice(self@),
    {
        let at = self.content_widget.selected;
        assert(self@.nav.displayed[at as int] == self.content_widget.displayed[at as int].deep_view());
        let name = self.content_widget.displayed[at].name.clone();
        if self.full_path {
            let mut out = self.content_widget.get_path();
            let ghost names = entered_names(self@.nav);
            assert(names.push(name@).drop_last() =~= names);
            if self.content_widget.path.len() > 1 {
                push_char(&mut out, '/');
                out.append(name.as_str());
                assert(out@ =~= joined(names.push(name@), '/'));
                out
            } else {
                assert(names.len() == 0);
                name
            }
        } else {
            name
        }
    }

    /// Does what `key` asks for; see `pressed` and `outcome`.
    pub fn handle_key(&mut self, key: Key) -> (r: Outcome)
        requires
            old(self).wf(),
        ensures
            final(self).wf(),
            r.deep_view() == outcome(old(self)@, key),
            final(self)@ == pressed(old(self)@, key),
    {
        self.handle_key_with(key, &search_chunks)
    }

    /// Does what `key` asks for; see `pressed` and `outcome`. The chunks of a
    /// large scope are searched by `workers`.
    pub fn handle_key_with<W: Fn(&Pattern, Vec<Vec<Entry>>) -> Vec<Vec<Entry>>>(&mut self, key: Key, workers: &W) -> (r: Outcome)
        requires
            old(self).wf(),
            searches_chunks(workers),
        ensures
            final(self).wf(),
            r.deep_view() == outcome(old(self)@, key),
            final(self)@ == pressed(old(self)@, key),
    {
        match self.selected {
            Selectable::Search => {
                match key {
                    Key::Char(c) => {
                        if c == '\n' {
                            if self.content_widget.displayed.len() > 0 {
                                self.selected = Selectable::List;
                            }
                        } else {
                            self.search_widget.add(c);
                            self.search_again(workers);
                        }
                    },
                    Key::Backspace => {
                        self.search_widget.pop();
                        self.search_again(workers);
                    },
                    Key::Esc => {
                        self.selected = Selectable::List;
                        self.search_widget.clear();
                        self.search_again(workers);
                    },
                    _ => {},
                }
                Outcome::Continue
            },
            Selectable::List => {
                match key {
                    Key::Up => {
                        self.content_widget.scroll(Direction::Up);
                    },
                    Key::Down => {
                        self.content_widget.scroll(Direction::Down);
                    },
                    Key::Right => {
                        self.content_widget.expand_with(workers);
                        self.settle();
                    },
                    Key::Left => {
                        self.content_widget.back_with(workers);
                        self.settle();
                    },
                    Key::Char(c) => {
                        if c == 'k' {
                            self.content_widget.scroll(Direction::Up);
                        } else if c == 'j' {
                            self.content_widget.scroll(Direction::Down);
                        } else if c == 'l' {
                            self.content_widget.expand_with(workers);
                            self.settle();
                        } else if c == 'h' {
                            self.content_widget.back_with(workers);
                            self.settle();
                        } else if c == 'p' {
                            self.content_widget.toggle_display_mode_with(workers);
                            self.settle();
                        } else if c == 'g' {
                            self.content_widget.select_first();
                        } else if c == 'G' {
                            self.content_widget.select_last();
                        } else if c == '/' {
                            self.selected = Selectable::Search;
                        } else if c == '\n' {
                            if self.content_widget.displayed.len() > 0 {
                                return Outcome::Commit(self.chosen());
                            }
                        } else if c == 'q' {
                            return Outcome::Quit;
                        }
                    },
                    _ => {},
                }
                Outcome::Continue
            },
        }
    }
}

} // verus!
