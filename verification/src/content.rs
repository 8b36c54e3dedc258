//! The list pane: where in the forest one stands, what is shown there and
//! which entry is selected.

use crate::entry::{
    duplicate_entries, segments_text, Entry, EntryView, Segment, SegmentView, Style,
};
use crate::error::NavigatorError;
use crate::fanout::{apply_with, search_chunks, searches_chunks};
use crate::flatten::{flatten, flatten_forest, law_flatten_entries, trail_start};
use crate::forest::forest_wf;
use crate::parser::{from_separator, parse};
use crate::pattern::{pattern_compiles, Pattern};
use crate::search::{apply_result, found, hits, lemma_hits_cover};
use crate::text::push_char;
use crate::widgets::{Direction, ListWidget};
use vstd::string::StringExecFns;
use vstd::prelude::*;

verus! {

/// The two ways to look at a folder.
#[derive(Clone, Copy, Debug, PartialEq, Eq, Structural)]
pub enum DisplayMode {
    /// The entries of the folder itself.
    Structured,
    /// Everything in and below the folder, each entry with its full path.
    FullPath,
}

/// The forest, and the flat list of one of its folders once it was asked for.
pub struct Content {
    /// The sibling lists; the root list is the first.
    pub all: Vec<Vec<Entry>>,
    /// The flat list of the folder `flattened`, kept for the next time.
    pub all_with_path: Vec<Entry>,
    /// The list that `all_with_path` is the flat list of.
    pub flattened: Option<usize>,
}

/// The list pane.
pub struct ContentWidget {
    pub content: Content,
    /// The entries that are shown: the scope, filtered by the search.
    pub displayed: Vec<Entry>,
    /// The position of the selected entry in `displayed`.
    pub selected: usize,
    /// The folders that were entered, each with its name and its list; the
    /// first stands for the root.
    pub path: Vec<(String, usize)>,
    /// The pattern of the last search.
    pub search: String,
    pub mode: DisplayMode,
}

/// What a `ContentWidget` stands for.
pub struct Navigation {
    pub forest: Seq<Seq<EntryView>>,
    pub displayed: Seq<EntryView>,
    pub selected: int,
    pub path: Seq<(Seq<char>, int)>,
    pub search: Seq<char>,
    pub mode: DisplayMode,
}

/// The entered folders with their names as character sequences.
pub open spec fn path_view(path: Seq<(String, usize)>) -> Seq<(Seq<char>, int)> {
    Seq::new(path.len(), |i: int| (path[i].0@, path[i].1 as int))
}

impl View for ContentWidget {
    type V = Navigation;

    open spec fn view(&self) -> Navigation {
        Navigation {
            forest: self.content.all.deep_view(),
            displayed: self.displayed.deep_view(),
            selected: self.selected as int,
            path: path_view(self.path@),
            search: self.search@,
            mode: self.mode,
        }
    }
}

/// Whether every child reference in `list` points into a forest of `len` lists.
pub open spec fn refs_valid(list: Seq<EntryView>, len: int) -> bool {
    forall|i: int|
        0 <= i < list.len() ==> match (#[trigger] list[i]).next {
            Some(j) => 0 <= j < len,
            None => true,
        }
}

/// What holds of the pane at all times: the forest is well formed; the path
/// begins at the root and leads through lists that exist; the selection
/// points at an entry that is shown, or is zero where nothing is shown; and
/// every folder that is shown can be entered.
pub open spec fn nav_wf(n: Navigation) -> bool {
    &&& forest_wf(n.forest)
    &&& n.path.len() >= 1
    &&& n.path[0] == (Seq::<char>::empty(), 0int)
    &&& forall|k: int| 0 <= k < n.path.len() ==> 0 <= (#[trigger] n.path[k]).1 < n.forest.len()
    &&& (n.selected == 0 || 0 <= n.selected < n.displayed.len())
    &&& refs_valid(n.displayed, n.forest.len() as int)
}

/// The list that the pane stands in.
pub open spec fn current_list(n: Navigation) -> int {
    n.path.last().1
}

/// The scope: what the pane shows when nothing is searched for.
pub open spec fn scope(n: Navigation) -> Seq<EntryView> {
    match n.mode {
        DisplayMode::Structured => n.forest[current_list(n)],
        DisplayMode::FullPath => flatten(n.forest, current_list(n)),
    }
}

/// The pane as it is first shown: at the root, with the first entry selected
/// and nothing searched for.
pub open spec fn initial(forest: Seq<Seq<EntryView>>) -> Navigation {
    Navigation {
        forest,
        displayed: forest[0],
        selected: 0,
        path: seq![(Seq::<char>::empty(), 0int)],
        search: Seq::empty(),
        mode: DisplayMode::Structured,
    }
}

/// The pane after a search for `keyword`. The pattern is remembered. Where it
/// does not compile, nothing else changes; else the scope is shown anew,
/// filtered by the pattern, and the first entry is selected.
pub open spec fn searched(n: Navigation, keyword: Seq<char>) -> Navigation {
    match apply_result(scope(n), keyword) {
        Some(shown) => Navigation { displayed: shown, selected: 0, search: keyword, ..n },
        None => Navigation { search: keyword, ..n },
    }
}

/// The pane after an attempt to enter the selected entry. Where the folders
/// are shown one by one and the selected entry is a folder, the folder is
/// entered, the first entry selected and the last search applied to the new
/// scope. Else nothing changes.
pub open spec fn expanded(n: Navigation) -> Navigation {
    if n.mode == DisplayMode::Structured && 0 <= n.selected < n.displayed.len() {
        match n.displayed[n.selected].next {
            Some(child) => searched(
                Navigation {
                    path: n.path.push((n.displayed[n.selected].name, child)),
                    selected: 0,
                    ..n
                },
                n.search,
            ),
            None => n,
        }
    } else {
        n
    }
}

/// The pane after an attempt to leave the current folder. Where the folders
/// are shown one by one and the pane is not at the root, the folder is left,
/// the first entry selected and the last search applied to the new scope.
/// Else nothing changes.
pub open spec fn backed(n: Navigation) -> Navigation {
    if n.mode == DisplayMode::Structured && n.path.len() > 1 {
        searched(Navigation { path: n.path.drop_last(), selected: 0, ..n }, n.search)
    } else {
        n
    }
}

/// The pane after the selection moved one entry up or down. It stops at the
/// first and at the last entry.
pub open spec fn scrolled(n: Navigation, direction: Direction) -> Navigation {
    match direction {
        Direction::Up => if n.selected > 0 {
            Navigation { selected: n.selected - 1, ..n }
        } else {
            n
        },
        Direction::Down => if n.selected + 1 < n.displayed.len() {
            Navigation { selected: n.selected + 1, ..n }
        } else {
            n
        },
    }
}

/// The other way to look at a folder.
pub open spec fn other_mode(mode: DisplayMode) -> DisplayMode {
    match mode {
        DisplayMode::Structured => DisplayMode::FullPath,
        DisplayMode::FullPath => DisplayMode::Structured,
    }
}

/// The pane after the switch to the other way of looking at the current
/// folder: the first entry is selected and the last search applied to the
/// new scope.
pub open spec fn toggled(n: Navigation) -> Navigation {
    searched(Navigation { mode: other_mode(n.mode), selected: 0, ..n }, n.search)
}

/// The names in `names`, with `sep` between one and the next.
pub open spec fn joined(names: Seq<Seq<char>>, sep: char) -> Seq<char>
    decreases names.len(),
{
    if names.len() == 0 {
        Seq::empty()
    } else if names.len() == 1 {
        names[0]
    } else {
        joined(names.drop_last(), sep).push(sep) + names.last()
    }
}

/// The names of the folders that were entered, the root apart.
pub open spec fn entered_names(n: Navigation) -> Seq<Seq<char>> {
    Seq::new(
        if n.path.len() > 0 {
            (n.path.len() - 1) as nat
        } else {
            0
        },
        |i: int| n.path[i + 1].0,
    )
}

/// The path from the root to the current folder: the names of the folders
/// that were entered, joined by `/`.
pub open spec fn full_path(n: Navigation) -> Seq<char> {
    joined(entered_names(n), '/')
}

/// What is shown after a search refers to what the scope refers to.
pub proof fn lemma_hits_refs(list: Seq<EntryView>, spans: Seq<Seq<(usize, usize)>>, len: int)
    requires
        refs_valid(list, len),
    ensures
        refs_valid(hits(list, spans), len),
    decreases list.len(),
{
    if list.len() > 0 {
        assert forall|i: int| 0 <= i < list.drop_last().len() implies match (
        #[trigger] list.drop_last()[i]).next {
            Some(j) => 0 <= j < len,
            None => true,
        } by {
            assert(list.drop_last()[i] == list[i]);
        }
        lemma_hits_refs(list.drop_last(), spans, len);
        assert(list.last() == list[list.len() - 1]);
    }
}

/// Every folder in the scope can be entered.
pub proof fn lemma_scope_refs(n: Navigation)
    requires
        forest_wf(n.forest),
        n.path.len() >= 1,
        0 <= current_list(n) < n.forest.len(),
    ensures
        refs_valid(scope(n), n.forest.len() as int),
{
    match n.mode {
        DisplayMode::Structured => {
            let list = n.forest[current_list(n)];
            assert forall|i: int| 0 <= i < list.len() implies match (#[trigger] list[i]).next {
                Some(j) => 0 <= j < n.forest.len(),
                None => true,
            } by {
                assert(list[i] == n.forest[current_list(n)][i]);
            }
        },
        DisplayMode::FullPath => {
            law_flatten_entries(n.forest, current_list(n), 0, trail_start());
        },
    }
}

/// A search keeps the pane in order.
pub proof fn lemma_searched_wf(n: Navigation, keyword: Seq<char>)
    requires
        nav_wf(n),
    ensures
        nav_wf(searched(n, keyword)),
{
    lemma_scope_refs(n);
    if keyword.len() > 0 {
        lemma_hits_refs(scope(n), found(keyword, scope(n)), n.forest.len() as int);
    }
}

/// Entering a folder keeps the pane in order.
pub proof fn lemma_expanded_wf(n: Navigation)
    requires
        nav_wf(n),
    ensures
        nav_wf(expanded(n)),
{
    if n.mode == DisplayMode::Structured && 0 <= n.selected < n.displayed.len() {
        match n.displayed[n.selected].next {
            Some(child) => {
                let entered = Navigation {
                    path: n.path.push((n.displayed[n.selected].name, child)),
                    selected: 0,
                    ..n
                };
                assert(nav_wf(entered));
                lemma_searched_wf(entered, n.search);
            },
            None => {},
        }
    }
}

/// Leaving a folder keeps the pane in order.
pub proof fn lemma_backed_wf(n: Navigation)
    requires
        nav_wf(n),
    ensures
        nav_wf(backed(n)),
{
    if n.mode == DisplayMode::Structured && n.path.len() > 1 {
        let left = Navigation { path: n.path.drop_last(), selected: 0, ..n };
        assert(nav_wf(left));
        lemma_searched_wf(left, n.search);
    }
}

/// The switch to the other way of looking keeps the pane in order.
pub proof fn lemma_toggled_wf(n: Navigation)
    requires
        nav_wf(n),
    ensures
        nav_wf(toggled(n)),
{
    let switched = Navigation { mode: other_mode(n.mode), selected: 0, ..n };
    assert(nav_wf(switched));
    lemma_searched_wf(switched, n.search);
}

impl ContentWidget {
    /// What holds of the pane at all times, and of the flat list that it
    /// keeps: it is the flat list of the folder it is kept for, which is the
    /// current folder while full paths are shown.
    pub open spec fn wf(&self) -> bool {
        &&& nav_wf(self@)
        &&& match self.content.flattened {
            Some(root) => root < self.content.all.len() && self.content.all_with_path.deep_view()
                == flatten(self@.forest, root as int),
            None => true,
        }
        &&& self.mode == DisplayMode::FullPath ==> self.content.flattened == Some(
            self.path@.last().1,
        )
    }

    /// The pane for the forest `all`, as it is first shown.
    pub fn new(all: Vec<Vec<Entry>>) -> (w: Self)
        requires
            forest_wf(all.deep_view()),
        ensures
            w.wf(),
            w@ == initial(all.deep_view()),
    {
        let displayed = duplicate_entries(&all[0]);
        let mut path: Vec<(String, usize)> = Vec::new();
        path.push((String::new(), 0));
        let w = ContentWidget {
            content: Content { all, all_with_path: Vec::new(), flattened: None },
            displayed,
            selected: 0,
            path,
            search: String::new(),
            mode: DisplayMode::Structured,
        };
        assert(w@.path =~= initial(w@.forest).path);
        assert(w@.forest[0] == w.content.all[0].deep_view());
        proof {
            lemma_scope_refs(initial(w@.forest));
        }
        w
    }

    /// The pane for the forest that `string` describes with the separator
    /// `sep`. Fails with `MalformedInput` where the text cannot be read.
    pub fn from_string(string: String, sep: String) -> (r: Result<Self, NavigatorError>)
        ensures
            match parse(string@, sep@) {
                Some(forest) => r matches Ok(w) && w.wf() && w@ == initial(forest),
                None => r matches Err(e) && e == NavigatorError::MalformedInput,
            },
    {
        match from_separator(string, sep) {
            Ok(all) => Ok(Self::new(all)),
            Err(e) => Err(e),
        }
    }

    /// The index of the list that the pane stands in.
    fn current(&self) -> (at: usize)
        requires
            self.wf(),
        ensures
            at == current_list(self@),
            at < self.content.all.len(),
    {
        assert(self@.path[self.path.len() - 1] == (
            self.path[self.path.len() - 1].0@,
            self.path[self.path.len() - 1].1 as int,
        ));
        self.path[self.path.len() - 1].1
    }

    /// The scope: what the pane shows when nothing is searched for.
    pub fn get_current_folder(&self) -> (list: &Vec<Entry>)
        requires
            self.wf(),
        ensures
            list.deep_view() == scope(self@),
    {
        let at = self.current();
        match self.mode {
            DisplayMode::Structured => {
                assert(self@.forest[at as int] == self.content.all[at as int].deep_view());
                &self.content.all[at]
            },
            DisplayMode::FullPath => &self.content.all_with_path,
        }
    }

    /// Searches the scope for `keyword` and shows what matches; see
    /// `searched`. The chunks of a large scope are searched by `workers`.
    pub fn apply_search_with<W: Fn(&Pattern, Vec<Vec<Entry>>) -> Vec<Vec<Entry>>>(&mut self, keyword: String, workers: &W)
        requires
            old(self).wf(),
            searches_chunks(workers),
        ensures
            final(self).wf(),
            final(self)@ == searched(old(self)@, keyword@),
    {
        proof {
            lemma_searched_wf(self@, keyword@);
        }
        let outcome = apply_with(self.get_current_folder(), keyword.as_str(), workers);
        self.search = keyword;
        match outcome {
            Ok(shown) => {
                self.selected = 0;
                self.displayed = shown;
            },
            Err(_) => {},
        }
    }

    /// Searches the scope for `keyword` and shows what matches; see `searched`.
    pub fn apply_search(&mut self, keyword: String)
        requires
            old(self).wf(),
        ensures
            final(self).wf(),
            final(self)@ == searched(old(self)@, keyword@),
    {
        self.apply_search_with(keyword, &search_chunks);
    }

    /// Enters the selected entry, if it is a folder; see `expanded`. The
    /// chunks of a large scope are searched by `workers`.
    pub fn expand_with<W: Fn(&Pattern, Vec<Vec<Entry>>) -> Vec<Vec<Entry>>>(&mut self, workers: &W)
        requires
            old(self).wf(),
            searches_chunks(workers),
        ensures
            final(self).wf(),
            final(self)@ == expanded(old(self)@),
    {
        proof {
            lemma_expanded_wf(self@);
        }
        match self.mode {
            DisplayMode::Structured => {
                if self.selected < self.displayed.len() {
                    assert(self@.displayed[self.selected as int]
                        == self.displayed[self.selected as int].deep_view());
                    match self.displayed[self.selected].next {
                        Some(child) => {
                            let name = self.displayed[self.selected].name.clone();
                            let ghost before = self@;
                            self.path.push((name, child));
                            self.selected = 0;
                            assert(self@.path =~= before.path.push(
                                (before.displayed[before.selected].name, child as int),
                            ));
                            let keyword = self.search.clone();
                            self.apply_search_with(keyword, workers);
                        },
                        None => {},
                    }
                }
            },
            DisplayMode::FullPath => {},
        }
    }

    /// Enters the selected entry, if it is a folder; see `expanded`.
    pub fn expand(&mut self)
        requires
            old(self).wf(),
        ensures
            final(self).wf(),
            final(self)@ == expanded(old(self)@),
    {
        self.expand_with(&search_chunks);
    }

    /// Leaves the current folder, unless it is the root; see `backed`. The
    /// chunks of a large scope are searched by `workers`.
    pub fn back_with<W: Fn(&Pattern, Vec<Vec<Entry>>) -> Vec<Vec<Entry>>>(&mut self, workers: &W)
        requires
            old(self).wf(),
            searches_chunks(workers),
        ensures
            final(self).wf(),
            final(self)@ == backed(old(self)@),
    {
        proof {
            lemma_backed_wf(self@);
        }
        match self.mode {
            DisplayMode::Structured => {
                if self.path.len() != 1 {
                    let ghost before = self@;
                    let _ = self.path.pop();
                    self.selected = 0;
                    assert(self@.path =~= before.path.drop_last());
                    let keyword = self.search.clone();
                    self.apply_search_with(keyword, workers);
                }
            },
            DisplayMode::FullPath => {},
        }
    }

    /// Leaves the current folder, unless it is the root; see `backed`.
    pub fn back(&mut self)
        requires
            old(self).wf(),
        ensures
            final(self).wf(),
            final(self)@ == backed(old(self)@),
    {
        self.back_with(&search_chunks);
    }

    /// Moves the selection one entry up or down; see `scrolled`.
    pub fn scroll(&mut self, direction: Direction)
        requires
            old(self).wf(),
        ensures
            final(self).wf(),
            final(self)@ == scrolled(old(self)@, direction),
    {
        match direction {
            Direction::Up => {
                if self.selected > 0 {
                    self.selected -= 1;
                }
            },
            Direction::Down => {
                if self.selected < self.displayed.len() && self.selected + 1
                    < self.displayed.len() {
                    self.selected += 1;
                }
            },
        }
    }

    /// Selects the first entry.
    pub fn select_first(&mut self)
        requires
            old(self).wf(),
        ensures
            final(self).wf(),
            final(self)@ == (Navigation { selected: 0, ..old(self)@ }),
    {
        self.selected = 0;
    }

    /// Selects the last entry, or none where nothing is shown.
    pub fn select_last(&mut self)
        requires
            old(self).wf(),
        ensures
            final(self).wf(),
            final(self)@ == (Navigation {
                selected: if old(self)@.displayed.len() == 0 {
                    0
                } else {
                    old(self)@.displayed.len() - 1
                },
                ..old(self)@
            }),
    {
        self.selected = if self.displayed.len() == 0 {
            0
        } else {
            self.displayed.len() - 1
        };
    }

    /// Switches between the two ways of looking at the current folder; see
    /// `toggled`. The flat list of a folder is made when it is first asked
    /// for and kept until that of another folder is asked for. The chunks of
    /// a large scope are searched by `workers`.
    pub fn toggle_display_mode_with<W: Fn(&Pattern, Vec<Vec<Entry>>) -> Vec<Vec<Entry>>>(&mut self, workers: &W)
        requires
            old(self).wf(),
            searches_chunks(workers),
        ensures
            final(self).wf(),
            final(self)@ == toggled(old(self)@),
    {
        proof {
            lemma_toggled_wf(self@);
        }
        match self.mode {
            DisplayMode::Structured => {
                let root = self.current();
                let kept: bool = match self.content.flattened {
                    Some(r) => r == root,
                    None => false,
                };
                if !kept {
                    self.content.all_with_path = flatten_forest(&self.content.all, root);
                    self.content.flattened = Some(root);
                }
                self.mode = DisplayMode::FullPath;
            },
            DisplayMode::FullPath => {
                self.mode = DisplayMode::Structured;
            },
        }
        self.selected = 0;
        let keyword = self.search.clone();
        self.apply_search_with(keyword, workers);
    }

    /// Switches between the two ways of looking at the current folder; see
    /// `toggled`.
    pub fn toggle_display_mode(&mut self)
        requires
            old(self).wf(),
        ensures
            final(self).wf(),
            final(self)@ == toggled(old(self)@),
    {
        self.toggle_display_mode_with(&search_chunks);
    }

    /// The name of the selected entry. Fails with `EmptySelection` where
    /// nothing is shown.
    pub fn get_name(&self) -> (r: Result<String, NavigatorError>)
        requires
            self.wf(),
        ensures
            match r {
                Ok(name) => self@.displayed.len() > 0 && name@
                    == self@.displayed[self@.selected].name,
                Err(e) => self@.displayed.len() == 0 && e == NavigatorError::EmptySelection,
            },
    {
        if self.displayed.len() == 0 {
            Err(NavigatorError::EmptySelection)
        } else {
            assert(self@.displayed[self.selected as int]
                == self.displayed[self.selected as int].deep_view());
            Ok(self.displayed[self.selected].name.clone())
        }
    }

    /// The path from the root to the current folder; see `full_path`.
    pub fn get_path(&self) -> (path: String)
        ensures
            path@ == full_path(self@),
    {
        let mut output = String::new();
        let mut i: usize = 1;
        let ghost names = entered_names(self@);
        assert(names.take(0) =~= Seq::empty());
        while i < self.path.len()
            invariant
                1 <= i,
                names == entered_names(self@),
                i <= self.path.len() || self.path.len() == 0,
                self.path.len() > 0 ==> output@ == joined(names.take(i - 1), '/'),
                self.path.len() == 0 ==> output@ == Seq::<char>::empty(),
            decreases self.path.len() - i,
        {
            assert(names.take(i as int).drop_last() =~= names.take(i - 1));
            assert(names.take(i as int).last() == self.path[i as int].0@);
            if i > 1 {
                push_char(&mut output, '/');
            }
            output.append(self.path[i].0.as_str());
            assert(output@ =~= joined(names.take(i as int), '/'));
            i += 1;
        }
        if self.path.len() > 0 {
            assert(names.take(names.len() as int) =~= names);
        } else {
            assert(names =~= Seq::empty());
        }
        output
    }

    /// The entries that are shown.
    pub fn displayed(&self) -> (list: &Vec<Entry>)
        ensures
            list.deep_view() == self@.displayed,
    {
        &self.displayed
    }

    /// The position of the selected entry.
    pub fn selected_index(&self) -> (i: usize)
        ensures
            i == self@.selected,
    {
        self.selected
    }
}

/// The title of the list pane: the path to the current folder behind a slash.
pub open spec fn list_title(n: Navigation, lame: bool, prefix: Seq<char>) -> Seq<char> {
    if lame {
        " /"@ + full_path(n) + " "@
    } else {
        " "@ + prefix + " /"@ + full_path(n) + " "@
    }
}

/// The part of a list of `len` entries that a pane of `height` rows shows
/// when the entry at `selected` is selected: where it begins and ends. The
/// list is shown from its beginning until the selection leaves the pane;
/// from then on it is shown from the selection on, or, near its end, from
/// `height` entries before the selection.
pub open spec fn window(selected: int, len: int, height: int) -> (int, int) {
    if selected < height {
        (
            0,
            if height < len {
                height
            } else {
                len
            },
        )
    } else if selected + height > len {
        (
            if selected - height < len {
                selected - height
            } else {
                len
            },
            len,
        )
    } else {
        (selected, selected + height)
    }
}

/// What stands before an entry in its row: the prefix and a blank before a
/// folder, unless `lame` is set, and four blanks else.
pub open spec fn row_lead(e: EntryView, lame: bool, prefix: Seq<char>) -> SegmentView {
    SegmentView {
        text: if !lame && e.next is Some {
            prefix.push(' ')
        } else {
            "    "@
        },
        style: Style::Plain,
    }
}

/// The row of an entry: its lead and its segments.
pub open spec fn row(e: EntryView, lame: bool, prefix: Seq<char>) -> Seq<SegmentView> {
    seq![row_lead(e, lame, prefix)] + e.segments
}

/// The one row that says that nothing is shown.
pub open spec fn nothing_found(lame: bool) -> Seq<Seq<SegmentView>> {
    seq![
        seq![
            SegmentView {
                text: if lame {
                    "    Nothing found!"@
                } else {
                    "❎  Nothing found!"@
                },
                style: Style::Plain,
            },
        ],
    ]
}

/// The rows of a pane of `height` rows: those of the entries in the window,
/// or the one that says that nothing is shown.
pub open spec fn rows(n: Navigation, height: int, lame: bool, prefix: Seq<char>) -> Seq<
    Seq<SegmentView>,
> {
    let (from, to) = window(n.selected, n.displayed.len() as int, height);
    if to <= from {
        nothing_found(lame)
    } else {
        Seq::new((to - from) as nat, |i: int| row(n.displayed[from + i], lame, prefix))
    }
}

/// The row of `entry`.
fn make_row(entry: &Entry, lame: bool, prefix: &String) -> (r: Vec<Segment>)
    ensures
        r.deep_view() == row(entry.deep_view(), lame, prefix@),
{
    let mut lead = String::new();
    if !lame && entry.next.is_some() {
        lead.append(prefix.as_str());
        push_char(&mut lead, ' ');
        assert(lead@ =~= prefix@.push(' '));
    } else {
        lead.append("    ");
        assert(lead@ =~= "    "@);
    }
    let mut r: Vec<Segment> = Vec::new();
    r.push(Segment::new(lead, Style::Plain));
    let mut i: usize = 0;
    while i < entry.segments.len()
        invariant
            i <= entry.segments.len(),
            r.len() == i + 1,
            r[0].deep_view() == row_lead(entry.deep_view(), lame, prefix@),
            forall|j: int| 0 <= j < i ==> r[j + 1].deep_view() == entry.segments[j].deep_view(),
        decreases entry.segments.len() - i,
    {
        r.push(entry.segments[i].duplicate());
        i += 1;
    }
    assert(r.deep_view() =~= row(entry.deep_view(), lame, prefix@));
    r
}

impl ListWidget for ContentWidget {
    /// The row on which the selection is drawn: the selected position while
    /// it is inside the pane, and the height of the pane else.
    fn get_selected(&self, height: u16) -> (at: usize)
        ensures
            at == if self@.selected < height {
                self@.selected
            } else {
                height as int
            },
    {
        if self.selected < height as usize {
            self.selected
        } else {
            height as usize
        }
    }

    fn get_title(&self, lame: bool, prefix: String) -> (title: String)
        ensures
            title@ == list_title(self@, lame, prefix@),
    {
        let path = self.get_path();
        let mut title = String::new();
        if lame {
            title.append(" /");
        } else {
            title.append(" ");
            title.append(prefix.as_str());
            title.append(" /");
        }
        title.append(path.as_str());
        title.append(" ");
        assert(title@ =~= list_title(self@, lame, prefix@));
        title
    }

    fn display(&self, height: u16, lame: bool, prefix: String) -> (shown: Vec<Vec<Segment>>)
        ensures
            shown.deep_view() == rows(self@, height as int, lame, prefix@),
    {
        let len: usize = self.displayed.len();
        let max: usize = height as usize;
        let from: usize;
        let to: usize;
        if self.selected < max {
            from = 0;
            to = if max < len {
                max
            } else {
                len
            };
        } else if self.selected > len || max > len - self.selected {
            from = if self.selected - max < len {
                self.selected - max
            } else {
                len
            };
            to = len;
        } else {
            from = self.selected;
            to = self.selected + max;
        }
        assert((from as int, to as int) == window(self@.selected, len as int, height as int));
        let mut shown: Vec<Vec<Segment>> = Vec::new();
        if to <= from {
            let mut text = String::new();
            if lame {
                text.append("    Nothing found!");
            } else {
                text.append("❎  Nothing found!");
            }
            let mut only: Vec<Segment> = Vec::new();
            only.push(Segment::new(text, Style::Plain));
            shown.push(only);
            assert(shown.deep_view() =~~= nothing_found(lame));
            return shown;
        }
        let mut i: usize = from;
        while i < to
            invariant
                from <= i <= to <= self.displayed.len(),
                shown.len() == i - from,
                forall|j: int|
                    0 <= j < i - from ==> (#[trigger] shown[j]).deep_view() == row(
                        self.displayed[from + j].deep_view(),
                        lame,
                        prefix@,
                    ),
            decreases to - i,
        {
            shown.push(make_row(&self.displayed[i], lame, &prefix));
            i += 1;
        }
        assert(shown.deep_view() =~~= rows(self@, height as int, lame, prefix@));
        shown
    }
}

/// One thing that can be done to the pane.
pub enum Step {
    Expand,
    Back,
    Scroll(Direction),
    Toggle,
    Search(Seq<char>),
}

/// The pane after `step` was taken.
pub open spec fn after(n: Navigation, step: Step) -> Navigation {
    match step {
        Step::Expand => expanded(n),
        Step::Back => backed(n),
        Step::Scroll(direction) => scrolled(n, direction),
        Step::Toggle => toggled(n),
        Step::Search(keyword) => searched(n, keyword),
    }
}

/// The pane after all of `steps` were taken, one after the other.
pub open spec fn after_all(n: Navigation, steps: Seq<Step>) -> Navigation
    decreases steps.len(),
{
    if steps.len() == 0 {
        n
    } else {
        after(after_all(n, steps.drop_last()), steps.last())
    }
}

/// Whatever is done to the pane, and in whatever order, the path begins at
/// the root and never gets empty, the selection stays inside what is shown,
/// and every folder that is shown can be entered.
pub proof fn law_navigation_invariant(n: Navigation, steps: Seq<Step>)
    requires
        nav_wf(n),
    ensures
        nav_wf(after_all(n, steps)),
        after_all(n, steps).path.len() >= 1,
        after_all(n, steps).path[0] == (Seq::<char>::empty(), 0int),
    decreases steps.len(),
{
    if steps.len() > 0 {
        law_navigation_invariant(n, steps.drop_last());
        let before = after_all(n, steps.drop_last());
        match steps.last() {
            Step::Expand => lemma_expanded_wf(before),
            Step::Back => lemma_backed_wf(before),
            Step::Scroll(direction) => {},
            Step::Toggle => lemma_toggled_wf(before),
            Step::Search(keyword) => lemma_searched_wf(before, keyword),
        }
    }
}

/// Leaving a folder never takes the root from the path.
pub proof fn law_back_keeps_root(n: Navigation)
    requires
        nav_wf(n),
    ensures
        backed(n).path.len() >= 1,
        backed(n).path[0] == n.path[0],
{
}

/// Searching twice for the same pattern shows what searching once shows:
/// nothing builds up from one search to the next.
pub proof fn law_search_idempotent(n: Navigation, keyword: Seq<char>)
    ensures
        searched(searched(n, keyword), keyword) == searched(n, keyword),
{
    assert(scope(searched(n, keyword)) == scope(n));
}

/// What a search shows spells the names it shows: the segments of every
/// entry that is shown after a search for a pattern, joined, are its name.
pub proof fn law_searched_segments_cover(n: Navigation, keyword: Seq<char>)
    requires
        keyword.len() > 0,
        pattern_compiles(keyword),
    ensures
        forall|i: int|
            0 <= i < searched(n, keyword).displayed.len() ==> segments_text(
                (#[trigger] searched(n, keyword).displayed[i]).segments,
            ) == searched(n, keyword).displayed[i].name,
{
    lemma_hits_cover(scope(n), found(keyword, scope(n)));
}

} // verus!
