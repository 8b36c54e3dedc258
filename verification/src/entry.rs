//! Entries: the nodes of the hierarchy, and the styled pieces they are shown as.

use vstd::prelude::*;

verus! {

/// How a piece of an entry's name is drawn.
#[derive(Clone, Copy, Debug, PartialEq, Eq, Structural)]
pub enum Style {
    /// Ordinary text.
    Plain,
    /// Text that the search pattern matched.
    Matched,
    /// A separator that joins two names of a full path.
    Separator,
}

/// A run of text in one style.
#[derive(Clone, Debug)]
pub struct Segment {
    pub text: String,
    pub style: Style,
}

/// What a `Segment` stands for.
pub struct SegmentView {
    pub text: Seq<char>,
    pub style: Style,
}

impl DeepView for Segment {
    type V = SegmentView;

    open spec fn deep_view(&self) -> SegmentView {
        SegmentView { text: self.text@, style: self.style }
    }
}

/// A node: a leaf, or a folder that refers to the list of its children.
#[derive(Clone, Debug)]
pub struct Entry {
    /// The text of the entry.
    pub name: String,
    /// The index of the sibling list that holds the children, if this is a folder.
    pub next: Option<usize>,
    /// The pieces that the name is drawn as.
    pub segments: Vec<Segment>,
    /// Where in `name` the separators stand that join the names of a full
    /// path: the offset of each into the bytes of `name`, with the style it
    /// is drawn in.
    pub marks: Vec<(usize, Style)>,
}

/// What an `Entry` stands for.
pub struct EntryView {
    pub name: Seq<char>,
    pub next: Option<int>,
    pub segments: Seq<SegmentView>,
    pub marks: Seq<(int, Style)>,
}

/// The child reference as a mathematical integer.
pub open spec fn next_view(next: Option<usize>) -> Option<int> {
    match next {
        Some(i) => Some(i as int),
        None => None,
    }
}

/// The marks with their offsets as mathematical integers.
pub open spec fn marks_view(marks: Seq<(usize, Style)>) -> Seq<(int, Style)> {
    Seq::new(marks.len(), |i: int| (marks[i].0 as int, marks[i].1))
}

impl DeepView for Entry {
    type V = EntryView;

    open spec fn deep_view(&self) -> EntryView {
        EntryView {
            name: self.name@,
            next: next_view(self.next),
            segments: self.segments.deep_view(),
            marks: marks_view(self.marks@),
        }
    }
}

/// The single plain segment that shows `name` when nothing is highlighted.
pub open spec fn plain_segments(name: Seq<char>) -> Seq<SegmentView> {
    seq![SegmentView { text: name, style: Style::Plain }]
}

/// An entry named `name` with child reference `next`, drawn plainly.
pub open spec fn plain_entry(name: Seq<char>, next: Option<int>) -> EntryView {
    EntryView { name, next, segments: plain_segments(name), marks: Seq::empty() }
}

/// The texts of `segments`, joined in order.
pub open spec fn segments_text(segments: Seq<SegmentView>) -> Seq<char>
    decreases segments.len(),
{
    if segments.len() == 0 {
        Seq::empty()
    } else {
        segments_text(segments.drop_last()) + segments.last().text
    }
}

impl Segment {
    /// A segment with the given text and style.
    pub fn new(text: String, style: Style) -> (s: Self)
        ensures
            s.deep_view() == (SegmentView { text: text@, style }),
    {
        Segment { text, style }
    }

    /// A copy of this segment.
    pub fn duplicate(&self) -> (s: Self)
        ensures
            s.deep_view() == self.deep_view(),
    {
        Segment { text: self.text.clone(), style: self.style }
    }
}

/// A copy of `segments`.
pub fn duplicate_segments(segments: &Vec<Segment>) -> (copy: Vec<Segment>)
    ensures
        copy.deep_view() == segments.deep_view(),
{
    let mut copy: Vec<Segment> = Vec::new();
    let mut i: usize = 0;
    while i < segments.len()
        invariant
            i <= segments.len(),
            copy.len() == i,
            forall|j: int| 0 <= j < i ==> copy[j].deep_view() == segments[j].deep_view(),
        decreases segments.len() - i,
    {
        copy.push(segments[i].duplicate());
        i += 1;
    }
    assert(copy.deep_view() =~= segments.deep_view());
    copy
}

/// A copy of `marks`.
pub fn duplicate_marks(marks: &Vec<(usize, Style)>) -> (copy: Vec<(usize, Style)>)
    ensures
        copy@ == marks@,
{
    let mut copy: Vec<(usize, Style)> = Vec::new();
    let mut i: usize = 0;
    while i < marks.len()
        invariant
            i <= marks.len(),
            copy@ == marks@.take(i as int),
        decreases marks.len() - i,
    {
        let m: (usize, Style) = marks[i];
        copy.push(m);
        assert(marks@.take(i + 1) =~= marks@.take(i as int).push(m));
        i += 1;
    }
    assert(marks@.take(marks.len() as int) =~= marks@);
    copy
}

impl Entry {
    /// An entry with the given name and child reference. It is drawn as
    /// `segments` where they are given, and as its name in plain style
    /// otherwise; it has no marks.
    pub fn new(name: String, next: Option<usize>, segments: Option<Vec<Segment>>) -> (e: Self)
        ensures
            e.deep_view() == (EntryView {
                name: name@,
                next: next_view(next),
                segments: match segments {
                    Some(s) => s.deep_view(),
                    None => plain_segments(name@),
                },
                marks: Seq::empty(),
            }),
    {
        let shown: Vec<Segment> = match segments {
            Some(s) => s,
            None => {
                let mut v: Vec<Segment> = Vec::new();
                v.push(Segment::new(name.clone(), Style::Plain));
                assert(v.deep_view() =~= plain_segments(name@));
                v
            },
        };
        let e = Entry { name, next, segments: shown, marks: Vec::new() };
        assert(e.deep_view().marks =~= Seq::empty());
        e
    }

    /// A copy of this entry.
    pub fn duplicate(&self) -> (e: Self)
        ensures
            e.deep_view() == self.deep_view(),
    {
        Entry {
            name: self.name.clone(),
            next: self.next,
            segments: duplicate_segments(&self.segments),
            marks: duplicate_marks(&self.marks),
        }
    }
}

/// A copy of `entries`.
pub fn duplicate_entries(entries: &Vec<Entry>) -> (copy: Vec<Entry>)
    ensures
        copy.deep_view() == entries.deep_view(),
{
    let mut copy: Vec<Entry> = Vec::new();
    let mut i: usize = 0;
    while i < entries.len()
        invariant
            i <= entries.len(),
            copy.len() == i,
            forall|j: int| 0 <= j < i ==> copy[j].deep_view() == entries[j].deep_view(),
        decreases entries.len() - i,
    {
        copy.push(entries[i].duplicate());
        i += 1;
    }
    assert(copy.deep_view() =~= entries.deep_view());
    copy
}

} // verus!
