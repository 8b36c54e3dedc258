//! Filtering a scope by a pattern and highlighting what matched.
//!
//! Entries whose name has no match are dropped. The others keep their order
//! and are drawn anew. A large scope is worked on in chunks, which changes
//! nothing in the result.

use crate::entry::{duplicate_marks, segments_text, Entry, EntryView, Style};
use crate::flatten::{joint_at, law_joint_position, marks_at_joints};
use crate::highlight::{
    law_segments_cover, lemma_mark_style, lemma_mark_style_found, mark_style, style_at,
    style_segments, styled_segments,
};
use crate::offsets::{char_index, char_marks, char_spans};
use crate::pattern::{find_spans, pattern_compiles, pattern_spans, Pattern};
use vstd::prelude::*;
use vstd::utf8::encode_utf8;

verus! {

/// A scope of more entries than this is worked on in chunks, and in no more
/// chunks than this.
pub const FAN_OUT: usize = 20;

/// The entry `e` drawn anew, with `spans` as the matches in its name. The
/// matches and the marks of the entry are offsets into the bytes of the name.
pub open spec fn restyled(e: EntryView, spans: Seq<(usize, usize)>) -> EntryView {
    EntryView {
        segments: styled_segments(e.name, char_spans(e.name, spans), char_marks(e.name, e.marks)),
        ..e
    }
}

/// Those of `list` that have a match, each drawn anew. The matches of the
/// entry at position `i` are `spans[i]`; an entry without any is dropped.
pub open spec fn hits(list: Seq<EntryView>, spans: Seq<Seq<(usize, usize)>>) -> Seq<EntryView>
    decreases list.len(),
{
    if list.len() == 0 {
        Seq::empty()
    } else {
        let before = hits(list.drop_last(), spans);
        let i = list.len() - 1;
        if i < spans.len() && spans[i].len() > 0 {
            before.push(restyled(list.last(), spans[i]))
        } else {
            before
        }
    }
}

/// The matches of the pattern `source` in the name of each entry of `list`.
pub open spec fn found(source: Seq<char>, list: Seq<EntryView>) -> Seq<Seq<(usize, usize)>> {
    Seq::new(list.len(), |i: int| pattern_spans(source, list[i].name))
}

/// What a search for the pattern `source` shows of `list`.
pub open spec fn search_result(list: Seq<EntryView>, source: Seq<char>) -> Seq<EntryView> {
    hits(list, found(source, list))
}

/// What a search for `pattern` shows of `scope`: all of it for the empty
/// pattern, nothing at all (`None`) for a pattern that does not compile, and
/// else the entries that match, highlighted.
pub open spec fn apply_result(scope: Seq<EntryView>, pattern: Seq<char>) -> Option<
    Seq<EntryView>,
> {
    if pattern.len() == 0 {
        Some(scope)
    } else if !pattern_compiles(pattern) {
        None
    } else {
        Some(search_result(scope, pattern))
    }
}

/// Draws `entry` anew, with `spans` as the matches in its name, given as
/// offsets into the bytes of the name. Name, child reference and marks stay.
pub fn style_entry(entry: &Entry, spans: &Vec<(usize, usize)>) -> (styled: Entry)
    ensures
        styled.deep_view() == restyled(entry.deep_view(), spans@),
{
    Entry {
        name: entry.name.clone(),
        next: entry.next,
        segments: style_segments(entry.name.as_str(), spans, &entry.marks),
        marks: duplicate_marks(&entry.marks),
    }
}

/// Whether `s1` and `s2` say the same of the entry at position `i`.
pub open spec fn agree_at(s1: Seq<Seq<(usize, usize)>>, s2: Seq<Seq<(usize, usize)>>, i: int) -> bool {
    if i < s1.len() {
        i < s2.len() && s1[i] == s2[i]
    } else {
        i >= s2.len()
    }
}

/// Only the matches of the entries that are there count.
pub proof fn lemma_hits_agree(
    list: Seq<EntryView>,
    s1: Seq<Seq<(usize, usize)>>,
    s2: Seq<Seq<(usize, usize)>>,
)
    requires
        forall|i: int| 0 <= i < list.len() ==> #[trigger] agree_at(s1, s2, i),
    ensures
        hits(list, s1) == hits(list, s2),
    decreases list.len(),
{
    if list.len() > 0 {
        assert forall|i: int| 0 <= i < list.drop_last().len() implies #[trigger] agree_at(
            s1,
            s2,
            i,
        ) by {
            assert(agree_at(s1, s2, i));
        }
        lemma_hits_agree(list.drop_last(), s1, s2);
        assert(agree_at(s1, s2, list.len() - 1));
    }
}

/// The hits of two lists, one after the other, are the hits of the two
/// lists joined.
pub proof fn lemma_hits_add(
    a: Seq<EntryView>,
    sa: Seq<Seq<(usize, usize)>>,
    b: Seq<EntryView>,
    sb: Seq<Seq<(usize, usize)>>,
)
    requires
        sa.len() == a.len(),
    ensures
        hits(a + b, sa + sb) == hits(a, sa) + hits(b, sb),
    decreases b.len(),
{
    if b.len() == 0 {
        assert(a + b =~= a);
        assert forall|i: int| 0 <= i < a.len() implies #[trigger] agree_at(sa + sb, sa, i) by {
            assert((sa + sb)[i] == sa[i]);
        }
        lemma_hits_agree(a, sa + sb, sa);
        assert(hits(a, sa) + hits(b, sb) =~= hits(a, sa));
    } else {
        let i = b.len() - 1;
        assert((a + b).drop_last() =~= a + b.drop_last());
        lemma_hits_add(a, sa, b.drop_last(), sb);
        assert((a + b).last() == b.last());
        if i < sb.len() {
            assert((sa + sb)[a.len() + i] == sb[i]);
        }
        if i < sb.len() && sb[i].len() > 0 {
            assert(hits(a + b, sa + sb) =~= hits(a, sa) + hits(b, sb));
        }
    }
}

/// A search in two lists, one after the other, shows what a search in the
/// two lists joined shows.
pub proof fn lemma_search_add(a: Seq<EntryView>, b: Seq<EntryView>, source: Seq<char>)
    ensures
        search_result(a + b, source) == search_result(a, source) + search_result(b, source),
{
    assert(found(source, a + b) =~= found(source, a) + found(source, b));
    lemma_hits_add(a, found(source, a), b, found(source, b));
}

/// A separator keeps its style whatever matches: where the marks of a name
/// stand at its `/`, the character that a mark points at is a `/` and is
/// drawn as a separator, for any matches at all.
pub proof fn law_separators_keep_style(
    name: Seq<char>,
    spans: Seq<(int, int)>,
    marks: Seq<(int, Style)>,
    i: int,
)
    requires
        marks_at_joints(name, marks),
        0 <= i < marks.len(),
    ensures
        ({
            let k = char_index(encode_utf8(name), marks[i].0) as int;
            &&& 0 <= k < name.len()
            &&& name[k] == '/'
            &&& style_at(spans, char_marks(name, marks), k) == Style::Separator
        }),
{
    let joint = choose|joint: int| joint_at(name, marks[i].0, joint);
    law_joint_position(name, marks[i].0, joint);
    let in_chars = char_marks(name, marks);
    assert(in_chars[i].0 == joint);
    lemma_mark_style(in_chars, joint, 0);
    lemma_mark_style_found(in_chars, joint, 0);
    let found = choose|j: int|
        0 <= j < in_chars.len() && (#[trigger] in_chars[j]) == (
            joint,
            mark_style(in_chars, joint, 0).unwrap(),
        );
    assert(in_chars[found].1 == marks[found].1);
}

/// The segments of every hit spell its name, and none of them is empty.
pub proof fn lemma_hits_cover(list: Seq<EntryView>, spans: Seq<Seq<(usize, usize)>>)
    ensures
        forall|i: int|
            0 <= i < hits(list, spans).len() ==> {
                let e = #[trigger] hits(list, spans)[i];
                &&& segments_text(e.segments) == e.name
                &&& forall|k: int| 0 <= k < e.segments.len() ==> (#[trigger] e.segments[k]).text.len() > 0
            },
    decreases list.len(),
{
    if list.len() > 0 {
        lemma_hits_cover(list.drop_last(), spans);
        let i = list.len() - 1;
        if i < spans.len() && spans[i].len() > 0 {
            let e = list.last();
            law_segments_cover(e.name, char_spans(e.name, spans[i]), char_marks(e.name, e.marks));
        }
    }
}

/// Every entry that a search shows is drawn so that its segments spell its
/// name: each character is shown once, in its place.
pub proof fn law_search_segments_cover(list: Seq<EntryView>, source: Seq<char>)
    ensures
        forall|i: int|
            0 <= i < search_result(list, source).len() ==> {
                let e = #[trigger] search_result(list, source)[i];
                &&& segments_text(e.segments) == e.name
                &&& forall|k: int| 0 <= k < e.segments.len() ==> (#[trigger] e.segments[k]).text.len() > 0
            },
{
    lemma_hits_cover(list, found(source, list));
}

/// Those of `list` that have a match, each drawn anew: the matches of the
/// entry at position `i` are `spans[i]`, given as offsets into the bytes of
/// its name.
pub fn style_hits(list: &Vec<Entry>, spans: &Vec<Vec<(usize, usize)>>) -> (shown: Vec<Entry>)
    ensures
        shown.deep_view() == hits(list.deep_view(), spans.deep_view()),
{
    let mut shown: Vec<Entry> = Vec::new();
    let mut i: usize = 0;
    assert(list.deep_view().take(0) =~= Seq::empty());
    assert(shown.deep_view() =~= Seq::empty());
    while i < list.len()
        invariant
            i <= list.len(),
            shown.deep_view() == hits(list.deep_view().take(i as int), spans.deep_view()),
        decreases list.len() - i,
    {
        let ghost before = shown.deep_view();
        assert(list.deep_view().take(i + 1).drop_last() =~= list.deep_view().take(i as int));
        assert(list.deep_view().take(i + 1).last() == list[i as int].deep_view());
        if i < spans.len() && spans[i].len() > 0 {
            assert(spans.deep_view()[i as int] =~= spans[i as int]@);
            shown.push(style_entry(&list[i], &spans[i]));
            assert(shown.deep_view() =~= before.push(
                restyled(list[i as int].deep_view(), spans[i as int]@),
            ));
        } else {
            if i < spans.len() {
                assert(spans.deep_view()[i as int] =~= spans[i as int]@);
            }
        }
        i += 1;
    }
    assert(list.deep_view().take(list.len() as int) =~= list.deep_view());
    shown
}

/// The matches of `pattern` in the name of each entry of `list`.
pub fn find_all(pattern: &Pattern, list: &Vec<Entry>) -> (spans: Vec<Vec<(usize, usize)>>)
    ensures
        spans.deep_view() == found(pattern@, list.deep_view()),
{
    let mut spans: Vec<Vec<(usize, usize)>> = Vec::new();
    let mut i: usize = 0;
    while i < list.len()
        invariant
            i <= list.len(),
            spans.len() == i,
            forall|j: int| 0 <= j < i ==> (#[trigger] spans[j])@ == pattern_spans(pattern@, list[j].name@),
        decreases list.len() - i,
    {
        spans.push(find_spans(pattern, list[i].name.as_str()));
        i += 1;
    }
    assert(spans.deep_view() =~~= found(pattern@, list.deep_view()));
    spans
}

/// Searches `list` for `pattern` in one go: the entries that match, in
/// their order, highlighted.
pub fn filter_and_style(pattern: &Pattern, list: &Vec<Entry>) -> (shown: Vec<Entry>)
    ensures
        shown.deep_view() == search_result(list.deep_view(), pattern@),
{
    let spans = find_all(pattern, list);
    style_hits(list, &spans)
}

} // verus!
