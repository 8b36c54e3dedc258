//! Cutting a name into styled segments.
//!
//! Every character of a name has one style: that of the mark which stands at
//! its position, or else the style of matched text where a match covers it,
//! or else the plain style. The name is cut wherever a match or a mark begins
//! or ends, and each piece becomes a segment.
//!
//! Matches and marks come as offsets into the bytes of the name. The rules
//! above are stated over positions counted in characters, which the offsets
//! are turned into first.

use crate::entry::{marks_view, segments_text, Segment, SegmentView, Style};
use crate::offsets::{char_marks, char_spans, to_char_marks, to_char_spans};
use crate::text::{string_of, to_chars};
use vstd::prelude::*;

verus! {

/// Spans with their ends as mathematical integers.
pub open spec fn spans_view(spans: Seq<(usize, usize)>) -> Seq<(int, int)> {
    Seq::new(spans.len(), |i: int| (spans[i].0 as int, spans[i].1 as int))
}

/// The style of the first of `marks`, from index `from` on, that stands at
/// position `at`.
pub open spec fn mark_style(marks: Seq<(int, Style)>, at: int, from: int) -> Option<Style>
    decreases marks.len() - from,
{
    if from < 0 || from >= marks.len() {
        None
    } else if marks[from].0 == at {
        Some(marks[from].1)
    } else {
        mark_style(marks, at, from + 1)
    }
}

/// Whether one of `spans` covers position `at`.
pub open spec fn in_span(spans: Seq<(int, int)>, at: int) -> bool {
    exists|k: int| 0 <= k < spans.len() && (#[trigger] spans[k]).0 <= at < spans[k].1
}

/// The style of the character at position `at`: a mark goes before a match,
/// and a match before plain text.
pub open spec fn style_at(spans: Seq<(int, int)>, marks: Seq<(int, Style)>, at: int) -> Style {
    match mark_style(marks, at, 0) {
        Some(style) => style,
        None => if in_span(spans, at) {
            Style::Matched
        } else {
            Style::Plain
        },
    }
}

/// Whether a span begins or ends at position `at`.
pub open spec fn span_edge(spans: Seq<(int, int)>, at: int) -> bool {
    exists|k: int| 0 <= k < spans.len() && ((#[trigger] spans[k]).0 == at || spans[k].1 == at)
}

/// Whether a mark stands at position `at` or just before it.
pub open spec fn mark_edge(marks: Seq<(int, Style)>, at: int) -> bool {
    exists|k: int| 0 <= k < marks.len() && ((#[trigger] marks[k]).0 == at || marks[k].0 + 1 == at)
}

/// Whether the name is cut before position `at`.
pub open spec fn is_cut(spans: Seq<(int, int)>, marks: Seq<(int, Style)>, at: int) -> bool {
    span_edge(spans, at) || mark_edge(marks, at)
}

/// The segments of the first `upto` characters of `name`. A character at a
/// cut begins a new segment; any other joins the segment before it.
pub open spec fn pieces(
    name: Seq<char>,
    spans: Seq<(int, int)>,
    marks: Seq<(int, Style)>,
    upto: nat,
) -> Seq<SegmentView>
    decreases upto,
{
    if upto == 0 {
        Seq::empty()
    } else {
        let before = pieces(name, spans, marks, (upto - 1) as nat);
        let at = upto - 1;
        if at == 0 || is_cut(spans, marks, at) {
            before.push(SegmentView { text: seq![name[at]], style: style_at(spans, marks, at) })
        } else {
            before.drop_last().push(
                SegmentView { text: before.last().text.push(name[at]), style: before.last().style },
            )
        }
    }
}

/// The segments that `name` is drawn as when `spans` are matched and `marks`
/// are the separators in it.
pub open spec fn styled_segments(
    name: Seq<char>,
    spans: Seq<(int, int)>,
    marks: Seq<(int, Style)>,
) -> Seq<SegmentView> {
    pieces(name, spans, marks, name.len())
}

/// The style of each character that `segments` show, in order.
pub open spec fn segment_styles(segments: Seq<SegmentView>) -> Seq<Style>
    decreases segments.len(),
{
    if segments.len() == 0 {
        Seq::empty()
    } else {
        segment_styles(segments.drop_last()) + Seq::new(
            segments.last().text.len(),
            |i: int| segments.last().style,
        )
    }
}

/// A mark style is found exactly where a mark stands.
pub proof fn lemma_mark_style(marks: Seq<(int, Style)>, at: int, from: int)
    requires
        0 <= from,
    ensures
        mark_style(marks, at, from) is Some <==> exists|k: int|
            from <= k < marks.len() && (#[trigger] marks[k]).0 == at,
    decreases marks.len() - from,
{
    if from < marks.len() {
        lemma_mark_style(marks, at, from + 1);
        if marks[from].0 == at {
        } else if mark_style(marks, at, from + 1) is Some {
            let k = choose|k: int| from + 1 <= k < marks.len() && (#[trigger] marks[k]).0 == at;
            assert(from <= k < marks.len() && marks[k].0 == at);
        } else {
            assert forall|k: int| from <= k < marks.len() implies (#[trigger] marks[k]).0 != at by {
                if k > from {
                    assert(from + 1 <= k);
                }
            }
        }
    }
}

/// The style that is found for a position is that of a mark at the position.
pub proof fn lemma_mark_style_found(marks: Seq<(int, Style)>, at: int, from: int)
    requires
        0 <= from,
        mark_style(marks, at, from) is Some,
    ensures
        exists|k: int|
            from <= k < marks.len() && (#[trigger] marks[k]) == (
                at,
                mark_style(marks, at, from).unwrap(),
            ),
    decreases marks.len() - from,
{
    if marks[from].0 == at {
        assert(marks[from] == (at, mark_style(marks, at, from).unwrap()));
    } else {
        lemma_mark_style_found(marks, at, from + 1);
        let k = choose|k: int|
            from + 1 <= k < marks.len() && (#[trigger] marks[k]) == (
                at,
                mark_style(marks, at, from + 1).unwrap(),
            );
        assert(from <= k < marks.len());
    }
}

/// The style changes only at a cut.
pub proof fn lemma_style_changes_at_cut(spans: Seq<(int, int)>, marks: Seq<(int, Style)>, at: int)
    requires
        !is_cut(spans, marks, at),
    ensures
        style_at(spans, marks, at) == style_at(spans, marks, at - 1),
{
    lemma_mark_style(marks, at, 0);
    lemma_mark_style(marks, at - 1, 0);
    if mark_style(marks, at, 0) is Some {
        let k = choose|k: int| 0 <= k < marks.len() && (#[trigger] marks[k]).0 == at;
        assert(mark_edge(marks, at));
    } else if mark_style(marks, at - 1, 0) is Some {
        let k = choose|k: int| 0 <= k < marks.len() && (#[trigger] marks[k]).0 == at - 1;
        assert(marks[k].0 + 1 == at);
        assert(mark_edge(marks, at));
    } else if in_span(spans, at) && !in_span(spans, at - 1) {
        let k = choose|k: int| 0 <= k < spans.len() && (#[trigger] spans[k]).0 <= at < spans[k].1;
        assert(spans[k].0 == at);
        assert(span_edge(spans, at));
    } else if !in_span(spans, at) && in_span(spans, at - 1) {
        let k = choose|k: int|
            0 <= k < spans.len() && (#[trigger] spans[k]).0 <= at - 1 < spans[k].1;
        assert(spans[k].1 == at);
        assert(span_edge(spans, at));
    }
}

/// What holds of the segments of every part of a name: they spell it, none
/// is empty, and each character is shown in its style.
pub proof fn lemma_pieces(
    name: Seq<char>,
    spans: Seq<(int, int)>,
    marks: Seq<(int, Style)>,
    upto: nat,
)
    requires
        upto <= name.len(),
    ensures
        segments_text(pieces(name, spans, marks, upto)) == name.take(upto as int),
        segment_styles(pieces(name, spans, marks, upto)) == Seq::new(
            upto,
            |i: int| style_at(spans, marks, i),
        ),
        forall|k: int|
            0 <= k < pieces(name, spans, marks, upto).len() ==> (#[trigger] pieces(
                name,
                spans,
                marks,
                upto,
            )[k]).text.len() > 0,
        upto > 0 ==> pieces(name, spans, marks, upto).len() > 0 && pieces(
            name,
            spans,
            marks,
            upto,
        ).last().style == style_at(spans, marks, upto - 1),
        pieces(name, spans, marks, upto).len() <= upto,
    decreases upto,
{
    let now = pieces(name, spans, marks, upto);
    if upto == 0 {
        assert(name.take(0) =~= Seq::empty());
        assert(segment_styles(now) =~= Seq::new(0, |i: int| style_at(spans, marks, i)));
    } else {
        let at = upto - 1;
        let before = pieces(name, spans, marks, at as nat);
        lemma_pieces(name, spans, marks, at as nat);
        assert(name.take(upto as int) =~= name.take(at).push(name[at]));
        if at == 0 || is_cut(spans, marks, at) {
            assert(now.drop_last() =~= before);
            assert(segments_text(now) =~= segments_text(before) + seq![name[at]]);
            assert(segment_styles(now) =~= Seq::new(upto, |i: int| style_at(spans, marks, i)));
        } else {
            lemma_style_changes_at_cut(spans, marks, at);
            let last = before.last();
            assert(now.drop_last() =~= before.drop_last());
            assert(segments_text(before) == segments_text(before.drop_last()) + last.text);
            assert(segments_text(now) =~= segments_text(before.drop_last()) + last.text.push(
                name[at],
            ));
            assert(segment_styles(before) == segment_styles(before.drop_last()) + Seq::new(
                last.text.len(),
                |i: int| last.style,
            ));
            let head = segment_styles(before.drop_last());
            assert(segment_styles(now) =~= head + Seq::new(
                last.text.len() + 1,
                |i: int| last.style,
            ));
            assert(head.len() + last.text.len() == at) by {
                assert(segment_styles(before).len() == at);
            }
            assert forall|i: int| 0 <= i < upto implies segment_styles(now)[i] == style_at(
                spans,
                marks,
                i,
            ) by {
                if i < at {
                    assert(segment_styles(before)[i] == style_at(spans, marks, i));
                    if i < head.len() {
                        assert(segment_styles(before)[i] == head[i]);
                    } else {
                        assert(segment_styles(before)[i] == last.style);
                    }
                }
            }
            assert(segment_styles(now) =~= Seq::new(upto, |i: int| style_at(spans, marks, i)));
        }
    }
}

/// The segments of a name spell the name: every character is shown once, in
/// its place.
pub proof fn law_segments_cover(name: Seq<char>, spans: Seq<(int, int)>, marks: Seq<(int, Style)>)
    ensures
        segments_text(styled_segments(name, spans, marks)) == name,
        forall|k: int|
            0 <= k < styled_segments(name, spans, marks).len() ==> (#[trigger] styled_segments(
                name,
                spans,
                marks,
            )[k]).text.len() > 0,
{
    lemma_pieces(name, spans, marks, name.len());
    assert(name.take(name.len() as int) =~= name);
}

/// The segments of a name show every character in its style: that of a mark
/// where one stands, else matched where a match covers it, else plain.
pub proof fn law_segment_styles(name: Seq<char>, spans: Seq<(int, int)>, marks: Seq<(int, Style)>)
    ensures
        segment_styles(styled_segments(name, spans, marks)) == Seq::new(
            name.len(),
            |i: int| style_at(spans, marks, i),
        ),
{
    lemma_pieces(name, spans, marks, name.len());
}

/// The style of the first of `marks` that stands at `at`.
fn mark_style_here(marks: &Vec<(usize, Style)>, at: usize) -> (style: Option<Style>)
    ensures
        style == mark_style(marks_view(marks@), at as int, 0),
{
    let mut k: usize = 0;
    while k < marks.len()
        invariant
            k <= marks.len(),
            mark_style(marks_view(marks@), at as int, 0) == mark_style(
                marks_view(marks@),
                at as int,
                k as int,
            ),
        decreases marks.len() - k,
    {
        if marks[k].0 == at {
            return Some(marks[k].1);
        }
        k += 1;
    }
    None
}

/// Whether one of `spans` covers `at`.
fn in_span_here(spans: &Vec<(usize, usize)>, at: usize) -> (b: bool)
    ensures
        b == in_span(spans_view(spans@), at as int),
{
    let mut k: usize = 0;
    while k < spans.len()
        invariant
            k <= spans.len(),
            forall|j: int|
                0 <= j < k ==> !((#[trigger] spans_view(spans@)[j]).0 <= at < spans_view(
                    spans@,
                )[j].1),
        decreases spans.len() - k,
    {
        if spans[k].0 <= at && at < spans[k].1 {
            assert(spans_view(spans@)[k as int].0 <= at < spans_view(spans@)[k as int].1);
            return true;
        }
        k += 1;
    }
    false
}

/// The style of the character at `at`.
fn style_here(spans: &Vec<(usize, usize)>, marks: &Vec<(usize, Style)>, at: usize) -> (style: Style)
    ensures
        style == style_at(spans_view(spans@), marks_view(marks@), at as int),
{
    match mark_style_here(marks, at) {
        Some(style) => style,
        None => if in_span_here(spans, at) {
            Style::Matched
        } else {
            Style::Plain
        },
    }
}

/// Whether the name is cut before `at`.
fn cut_here(spans: &Vec<(usize, usize)>, marks: &Vec<(usize, Style)>, at: usize) -> (b: bool)
    ensures
        b == is_cut(spans_view(spans@), marks_view(marks@), at as int),
{
    let mut k: usize = 0;
    while k < spans.len()
        invariant
            k <= spans.len(),
            forall|j: int|
                0 <= j < k ==> !((#[trigger] spans_view(spans@)[j]).0 == at || spans_view(
                    spans@,
                )[j].1 == at),
        decreases spans.len() - k,
    {
        if spans[k].0 == at || spans[k].1 == at {
            assert(spans_view(spans@)[k as int].0 == at || spans_view(spans@)[k as int].1 == at);
            return true;
        }
        k += 1;
    }
    let mut m: usize = 0;
    while m < marks.len()
        invariant
            m <= marks.len(),
            !span_edge(spans_view(spans@), at as int),
            forall|j: int|
                0 <= j < m ==> !((#[trigger] marks_view(marks@)[j]).0 == at || marks_view(
                    marks@,
                )[j].0 + 1 == at),
        decreases marks.len() - m,
    {
        if marks[m].0 == at || (at > 0 && marks[m].0 == at - 1) {
            assert(marks_view(marks@)[m as int].0 == at || marks_view(marks@)[m as int].0 + 1
                == at);
            return true;
        }
        m += 1;
    }
    false
}

/// Cuts `name` into segments: `spans` are the matches in it and `marks` the
/// separators, both as positions counted in characters.
fn cut_segments(name: &str, spans: &Vec<(usize, usize)>, marks: &Vec<(usize, Style)>) -> (r:
    Vec<Segment>)
    ensures
        r.deep_view() == styled_segments(name@, spans_view(spans@), marks_view(marks@)),
{
    let chars = to_chars(name);
    let ghost s = spans_view(spans@);
    let ghost m = marks_view(marks@);
    let mut done: Vec<Segment> = Vec::new();
    if chars.len() == 0 {
        assert(done.deep_view() =~= styled_segments(name@, s, m));
        return done;
    }
    let mut start: usize = 0;
    let mut style: Style = style_here(spans, marks, 0);
    let mut i: usize = 1;
    assert(pieces(name@, s, m, 0) =~= Seq::empty());
    assert(chars@.subrange(0, 1) =~= seq![name@[0]]);
    assert(pieces(name@, s, m, 1) =~= done.deep_view().push(
        SegmentView { text: chars@.subrange(0, 1), style },
    ));
    while i < chars.len()
        invariant
            chars@ == name@,
            s == spans_view(spans@),
            m == marks_view(marks@),
            start < i <= chars.len(),
            pieces(name@, s, m, i as nat) == done.deep_view().push(
                SegmentView { text: chars@.subrange(start as int, i as int), style },
            ),
        decreases chars.len() - i,
    {
        let ghost before = pieces(name@, s, m, i as nat);
        let ghost shown = done.deep_view();
        if cut_here(spans, marks, i) {
            done.push(Segment::new(string_of(&chars, start, i), style));
            assert(done.deep_view() =~= before);
            start = i;
            style = style_here(spans, marks, i);
            assert(chars@.subrange(i as int, i + 1) =~= seq![name@[i as int]]);
        } else {
            assert(before.drop_last() =~= shown);
            assert(chars@.subrange(start as int, i + 1) =~= chars@.subrange(
                start as int,
                i as int,
            ).push(name@[i as int]));
        }
        i += 1;
    }
    let ghost shown = done.deep_view();
    done.push(Segment::new(string_of(&chars, start, i), style));
    assert(done.deep_view() =~= shown.push(
        SegmentView { text: chars@.subrange(start as int, i as int), style },
    ));
    done
}

/// Cuts `name` into segments: `spans` are the matches in it and `marks` the
/// separators, both as offsets into the bytes of `name`.
pub fn style_segments(name: &str, spans: &Vec<(usize, usize)>, marks: &Vec<(usize, Style)>) -> (r:
    Vec<Segment>)
    ensures
        r.deep_view() == styled_segments(
            name@,
            char_spans(name@, spans@),
            char_marks(name@, marks_view(marks@)),
        ),
{
    let spans_in_chars = to_char_spans(name, spans);
    let marks_in_chars = to_char_marks(name, marks);
    assert(spans_view(spans_in_chars@) =~= char_spans(name@, spans@));
    cut_segments(name, &spans_in_chars, &marks_in_chars)
}

} // verus!
