//! Full paths: a folder and everything below it, laid out as one flat list.
//!
//! Each entry of the flat list is named by the names of its ancestors and its
//! own, joined by `/`, and marks the byte at which each `/` stands. The list
//! goes depth first: an entry, then what is below it, then its next sibling.

use crate::entry::{
    duplicate_marks, duplicate_segments, Entry, EntryView, Segment, SegmentView, Style,
};
use crate::forest::forest_wf;
use crate::offsets::{
    char_index, law_char_index_of_prefix, law_slash_byte, lemma_char_index_monotone,
};
use crate::text::push_char;
use vstd::prelude::*;
use vstd::string::StringExecFns;
use vstd::utf8::encode_utf8;

verus! {

/// What the entries of one folder have in common: the path that leads to the
/// folder, ending in a separator, as a name, as segments and as marks.
pub struct Trail {
    pub name: Seq<char>,
    pub segments: Seq<SegmentView>,
    pub marks: Seq<(int, Style)>,
}

/// The trail of the folder that the flattening starts from.
pub open spec fn trail_start() -> Trail {
    Trail { name: Seq::empty(), segments: Seq::empty(), marks: Seq::empty() }
}

/// The segment that shows `name` in plain style.
pub open spec fn plain_segment(name: Seq<char>) -> SegmentView {
    SegmentView { text: name, style: Style::Plain }
}

/// The segment that shows the separator between two names.
pub open spec fn separator_segment() -> SegmentView {
    SegmentView { text: seq!['/'], style: Style::Separator }
}

/// The entry of the flat list that stands for `e` below `trail`. It is a leaf
/// whatever `e` is.
pub open spec fn path_entry(trail: Trail, e: EntryView) -> EntryView {
    EntryView {
        name: trail.name + e.name,
        next: None,
        segments: trail.segments.push(plain_segment(e.name)),
        marks: trail.marks,
    }
}

/// The trail of the folder `e` that stands below `trail`: its path, a
/// separator, and a mark where the separator stands, which is behind the
/// bytes of the path.
pub open spec fn descend(trail: Trail, e: EntryView) -> Trail {
    Trail {
        name: (trail.name + e.name).push('/'),
        segments: trail.segments.push(plain_segment(e.name)).push(separator_segment()),
        marks: trail.marks.push(
            (encode_utf8(trail.name + e.name).len() as int, Style::Separator),
        ),
    }
}

/// The flat list of the entries of list `list` from position `k` on, each
/// followed by what is below it.
pub open spec fn flatten_from(forest: Seq<Seq<EntryView>>, list: int, k: int, trail: Trail) -> Seq<
    EntryView,
>
    decreases forest.len() - list, forest[list].len() - k,
{
    if 0 <= list < forest.len() && 0 <= k < forest[list].len() {
        let e = forest[list][k];
        let below = match e.next {
            Some(j) => if list < j < forest.len() {
                flatten_from(forest, j, 0, descend(trail, e))
            } else {
                Seq::empty()
            },
            None => Seq::empty(),
        };
        seq![path_entry(trail, e)] + below + flatten_from(forest, list, k + 1, trail)
    } else {
        Seq::empty()
    }
}

/// The flat list of everything in and below list `start`.
pub open spec fn flatten(forest: Seq<Seq<EntryView>>, start: int) -> Seq<EntryView> {
    flatten_from(forest, start, 0, trail_start())
}

/// The number of entries in and below list `list`, from position `k` on.
pub open spec fn count_from(forest: Seq<Seq<EntryView>>, list: int, k: int) -> nat
    decreases forest.len() - list, forest[list].len() - k,
{
    if 0 <= list < forest.len() && 0 <= k < forest[list].len() {
        let below = match forest[list][k].next {
            Some(j) => if list < j < forest.len() {
                count_from(forest, j, 0)
            } else {
                0
            },
            None => 0,
        };
        1 + below + count_from(forest, list, k + 1)
    } else {
        0
    }
}

/// The flat list holds each entry in and below the list once.
pub proof fn law_flatten_len(forest: Seq<Seq<EntryView>>, list: int, k: int, trail: Trail)
    ensures
        flatten_from(forest, list, k, trail).len() == count_from(forest, list, k),
    decreases forest.len() - list, forest[list].len() - k,
{
    if 0 <= list < forest.len() && 0 <= k < forest[list].len() {
        let e = forest[list][k];
        match e.next {
            Some(j) => {
                if list < j < forest.len() {
                    law_flatten_len(forest, j, 0, descend(trail, e));
                }
            },
            None => {},
        }
        law_flatten_len(forest, list, k + 1, trail);
    }
}

/// Every entry of the flat list is a leaf whose segments spell its name.
pub proof fn law_flatten_entries(forest: Seq<Seq<EntryView>>, list: int, k: int, trail: Trail)
    requires
        crate::entry::segments_text(trail.segments) == trail.name,
    ensures
        forall|i: int|
            0 <= i < flatten_from(forest, list, k, trail).len() ==> {
                let e = #[trigger] flatten_from(forest, list, k, trail)[i];
                e.next is None && crate::entry::segments_text(e.segments) == e.name
            },
    decreases forest.len() - list, forest[list].len() - k,
{
    if 0 <= list < forest.len() && 0 <= k < forest[list].len() {
        let e = forest[list][k];
        let own = path_entry(trail, e);
        assert(own.segments.drop_last() =~= trail.segments);
        assert(crate::entry::segments_text(own.segments) == own.name);
        let down = descend(trail, e);
        assert(down.segments.drop_last() =~= own.segments);
        assert(down.segments.last().text == seq!['/']);
        assert(down.name =~= own.name + seq!['/']);
        assert(crate::entry::segments_text(down.segments) == down.name);
        let below = match e.next {
            Some(j) => if list < j < forest.len() {
                flatten_from(forest, j, 0, down)
            } else {
                Seq::empty()
            },
            None => Seq::empty(),
        };
        match e.next {
            Some(j) => {
                if list < j < forest.len() {
                    law_flatten_entries(forest, j, 0, down);
                }
            },
            None => {},
        }
        law_flatten_entries(forest, list, k + 1, trail);
        let rest = flatten_from(forest, list, k + 1, trail);
        let all = flatten_from(forest, list, k, trail);
        assert(all == seq![own] + below + rest);
        assert forall|i: int| 0 <= i < all.len() implies {
            let x = #[trigger] all[i];
            x.next is None && crate::entry::segments_text(x.segments) == x.name
        } by {
            if i == 0 {
            } else if i < 1 + below.len() {
                assert(all[i] == below[i - 1]);
            } else {
                assert(all[i] == rest[i - 1 - below.len()]);
            }
        }
    }
}

/// Whether `offset` is the byte offset in `name` at which the character at
/// position `k` begins, and that character is a `/`.
pub open spec fn joint_at(name: Seq<char>, offset: int, k: int) -> bool {
    0 <= k < name.len() && name[k] == '/' && offset == encode_utf8(name.take(k)).len()
}

/// Whether `marks` are separator marks that stand, each further on than the
/// one before it, at the bytes of `name` that are its `/`.
pub open spec fn marks_at_joints(name: Seq<char>, marks: Seq<(int, Style)>) -> bool {
    &&& forall|i: int|
        0 <= i < marks.len() ==> (#[trigger] marks[i]).1 == Style::Separator && exists|k: int|
            joint_at(name, marks[i].0, k)
    &&& forall|i: int, j: int|
        0 <= i < j < marks.len() ==> (#[trigger] marks[i]).0 < (#[trigger] marks[j]).0
}

/// The more characters, the more bytes: a longer beginning of a text has
/// more bytes than a shorter one.
pub proof fn lemma_prefix_bytes_grow(text: Seq<char>, a: int, b: int)
    requires
        0 <= a < b <= text.len(),
    ensures
        encode_utf8(text.take(a)).len() < encode_utf8(text.take(b)).len(),
{
    let bytes = encode_utf8(text);
    law_char_index_of_prefix(text, a);
    law_char_index_of_prefix(text, b);
    if encode_utf8(text.take(a)).len() >= encode_utf8(text.take(b)).len() {
        lemma_char_index_monotone(
            bytes,
            encode_utf8(text.take(b)).len() as int,
            encode_utf8(text.take(a)).len() as int,
        );
    }
}

/// A mark at a `/` of a name points at the byte `/` among the bytes of the
/// name, and is, counted in characters, the position of that `/`.
pub proof fn law_joint_position(name: Seq<char>, offset: int, k: int)
    requires
        joint_at(name, offset, k),
    ensures
        0 <= offset < encode_utf8(name).len(),
        encode_utf8(name)[offset] == 47u8,
        char_index(encode_utf8(name), offset) == k,
{
    law_char_index_of_prefix(name, k);
    law_slash_byte(name, k);
}

/// Marks at the `/` of a name stay marks at its `/` when the name goes on.
pub proof fn lemma_joints_extend(name: Seq<char>, marks: Seq<(int, Style)>, more: Seq<char>)
    requires
        marks_at_joints(name, marks),
    ensures
        marks_at_joints(name + more, marks),
{
    assert forall|i: int| 0 <= i < marks.len() implies (#[trigger] marks[i]).1
        == Style::Separator && exists|k: int| joint_at(name + more, marks[i].0, k) by {
        let k = choose|k: int| joint_at(name, marks[i].0, k);
        assert((name + more).take(k) =~= name.take(k));
        assert(joint_at(name + more, marks[i].0, k));
    }
}

/// The marks of a trail stand at the `/` of its name, and so do those of
/// the trail one folder further down.
pub proof fn lemma_joints_descend(trail: Trail, e: EntryView)
    requires
        marks_at_joints(trail.name, trail.marks),
    ensures
        marks_at_joints(path_entry(trail, e).name, path_entry(trail, e).marks),
        marks_at_joints(descend(trail, e).name, descend(trail, e).marks),
{
    let path = trail.name + e.name;
    let down = descend(trail, e);
    lemma_joints_extend(trail.name, trail.marks, e.name);
    lemma_joints_extend(path, trail.marks, seq!['/']);
    assert(down.name =~= path + seq!['/']);
    let at = encode_utf8(path).len() as int;
    assert(down.name.take(path.len() as int) =~= path);
    assert(joint_at(down.name, at, path.len() as int));
    assert forall|i: int| 0 <= i < down.marks.len() implies (#[trigger] down.marks[i]).1
        == Style::Separator && exists|k: int| joint_at(down.name, down.marks[i].0, k) by {
        if i < trail.marks.len() {
            assert(down.marks[i] == trail.marks[i]);
            let k = choose|k: int| joint_at(path + seq!['/'], trail.marks[i].0, k);
            assert(joint_at(down.name, down.marks[i].0, k));
        } else {
            assert(joint_at(down.name, down.marks[i].0, path.len() as int));
        }
    }
    assert forall|i: int, j: int| 0 <= i < j < down.marks.len() implies (
    #[trigger] down.marks[i]).0 < (#[trigger] down.marks[j]).0 by {
        assert(down.marks[i] == trail.marks[i]);
        if j < trail.marks.len() {
            assert(down.marks[j] == trail.marks[j]);
        } else {
            let k = choose|k: int| joint_at(trail.name, trail.marks[i].0, k);
            assert(down.name.take(k) =~= trail.name.take(k));
            lemma_prefix_bytes_grow(down.name, k, path.len() as int);
        }
    }
}

/// Every entry of the flat list marks the `/` that join the names of its
/// path, and nothing else: its marks are separator marks at the byte
/// offsets of those `/`, in rising order.
pub proof fn law_flatten_marks(forest: Seq<Seq<EntryView>>, list: int, k: int, trail: Trail)
    requires
        marks_at_joints(trail.name, trail.marks),
    ensures
        forall|i: int|
            0 <= i < flatten_from(forest, list, k, trail).len() ==> marks_at_joints(
                (#[trigger] flatten_from(forest, list, k, trail)[i]).name,
                flatten_from(forest, list, k, trail)[i].marks,
            ),
    decreases forest.len() - list, forest[list].len() - k,
{
    if 0 <= list < forest.len() && 0 <= k < forest[list].len() {
        let e = forest[list][k];
        let own = path_entry(trail, e);
        let down = descend(trail, e);
        lemma_joints_descend(trail, e);
        let below = match e.next {
            Some(j) => if list < j < forest.len() {
                flatten_from(forest, j, 0, down)
            } else {
                Seq::empty()
            },
            None => Seq::empty(),
        };
        match e.next {
            Some(j) => {
                if list < j < forest.len() {
                    law_flatten_marks(forest, j, 0, down);
                }
            },
            None => {},
        }
        law_flatten_marks(forest, list, k + 1, trail);
        let rest = flatten_from(forest, list, k + 1, trail);
        let all = flatten_from(forest, list, k, trail);
        assert(all == seq![own] + below + rest);
        assert forall|i: int| 0 <= i < all.len() implies marks_at_joints(
            (#[trigger] all[i]).name,
            all[i].marks,
        ) by {
            if i == 0 {
            } else if i < 1 + below.len() {
                assert(all[i] == below[i - 1]);
            } else {
                assert(all[i] == rest[i - 1 - below.len()]);
            }
        }
    }
}

/// Whether a name, segments and marks held in memory are those of `trail`.
pub open spec fn holds_trail(
    name: &String,
    segments: &Vec<Segment>,
    marks: &Vec<(usize, Style)>,
    trail: Trail,
) -> bool {
    &&& name@ == trail.name
    &&& segments.deep_view() == trail.segments
    &&& crate::entry::marks_view(marks@) == trail.marks
}

/// Appends to `out` the flat list of everything in and below list `list`,
/// found under the path that `name`, `segments` and `marks` hold.
fn flatten_list(
    forest: &Vec<Vec<Entry>>,
    list: usize,
    name: &String,
    segments: &Vec<Segment>,
    marks: &Vec<(usize, Style)>,
    out: &mut Vec<Entry>,
    Ghost(trail): Ghost<Trail>,
)
    requires
        forest_wf(forest.deep_view()),
        list < forest.len(),
        holds_trail(name, segments, marks, trail),
    ensures
        final(out).deep_view() == old(out).deep_view() + flatten_from(
            forest.deep_view(),
            list as int,
            0,
            trail,
        ),
    decreases forest.len() - list,
{
    let ghost f = forest.deep_view();
    let ghost before = out.deep_view();
    let mut k: usize = 0;
    assert(out.deep_view() + flatten_from(f, list as int, 0, trail) =~= before + flatten_from(
        f,
        list as int,
        0,
        trail,
    ));
    while k < forest[list].len()
        invariant
            forest_wf(f),
            f == forest.deep_view(),
            list < forest.len(),
            k <= forest[list as int].len(),
            holds_trail(name, segments, marks, trail),
            out.deep_view() + flatten_from(f, list as int, k as int, trail) == before
                + flatten_from(f, list as int, 0, trail),
        decreases forest[list as int].len() - k,
    {
        let entry = &forest[list][k];
        let ghost e = f[list as int][k as int];
        assert(f[list as int] == forest[list as int].deep_view());
        assert(e == entry.deep_view());
        let ghost shown = out.deep_view();
        let ghost rest = flatten_from(f, list as int, k + 1, trail);

        let mut path = name.clone();
        path.append(entry.name.as_str());
        let mut shown_as = duplicate_segments(segments);
        shown_as.push(Segment::new(entry.name.clone(), Style::Plain));
        assert(shown_as.deep_view() =~= path_entry(trail, e).segments);
        let own = Entry {
            name: path.clone(),
            next: None,
            segments: duplicate_segments(&shown_as),
            marks: duplicate_marks(marks),
        };
        assert(own.deep_view() == path_entry(trail, e));
        out.push(own);
        assert(out.deep_view() =~= shown.push(path_entry(trail, e)));
        match entry.next {
            Some(j) => {
                assert(e.next == Some(j as int));
                assert(list < j < forest.len());
                let at: usize = path.as_str().as_bytes().len();
                push_char(&mut path, '/');
                let mut separator = String::new();
                push_char(&mut separator, '/');
                shown_as.push(Segment::new(separator, Style::Separator));
                let mut marked = duplicate_marks(marks);
                marked.push((at, Style::Separator));
                assert(shown_as.deep_view() =~= descend(trail, e).segments);
                assert(crate::entry::marks_view(marked@) =~= descend(trail, e).marks);
                let ghost below = flatten_from(f, j as int, 0, descend(trail, e));
                flatten_list(forest, j, &path, &shown_as, &marked, out, Ghost(descend(trail, e)));
                assert(out.deep_view() + rest =~= shown + (seq![path_entry(trail, e)] + below
                    + rest));
            },
            None => {
                assert(out.deep_view() + rest =~= shown + (seq![path_entry(trail, e)]
                    + Seq::empty() + rest));
            },
        }
        k += 1;
    }
    assert(out.deep_view() + Seq::<EntryView>::empty() =~= out.deep_view());
}

/// The flat list of everything in and below list `start` of `forest`: each
/// entry with its full path as its name.
pub fn flatten_forest(forest: &Vec<Vec<Entry>>, start: usize) -> (flat: Vec<Entry>)
    requires
        forest_wf(forest.deep_view()),
        start < forest.len(),
    ensures
        flat.deep_view() == flatten(forest.deep_view(), start as int),
{
    let mut flat: Vec<Entry> = Vec::new();
    let name = String::new();
    let segments: Vec<Segment> = Vec::new();
    let marks: Vec<(usize, Style)> = Vec::new();
    assert(segments.deep_view() =~= trail_start().segments);
    assert(crate::entry::marks_view(marks@) =~= trail_start().marks);
    assert(flat.deep_view() =~= Seq::empty());
    flatten_list(forest, start, &name, &segments, &marks, &mut flat, Ghost(trail_start()));
    assert(Seq::<EntryView>::empty() + flatten(forest.deep_view(), start as int) =~= flatten(
        forest.deep_view(),
        start as int,
    ));
    flat
}

} // verus!
