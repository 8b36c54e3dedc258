//! Reading indented text as a forest.
//!
//! The text is cut into lines. The depth of a line is the number of
//! separators it begins with, and its name is what follows them. A line is a
//! folder when the line after it is deeper; the lines that follow go into the
//! folder's list until a shallower line closes it.

use crate::entry::{plain_entry, Entry, EntryView};
use crate::error::NavigatorError;
use crate::forest::{entries_in, forest_wf, total_entries};
use crate::text::{occurs_at, string_of, to_chars};
use vstd::prelude::*;

verus! {

/// The lines of `text`: the pieces between its line breaks. A text with `n`
/// line breaks has `n + 1` lines, some of which may be empty.
pub open spec fn split_lines(text: Seq<char>) -> Seq<Seq<char>>
    decreases text.len(),
{
    if text.len() == 0 {
        seq![Seq::empty()]
    } else {
        let before = split_lines(text.drop_last());
        if text.last() == '\n' {
            before.push(Seq::empty())
        } else {
            before.drop_last().push(before.last().push(text.last()))
        }
    }
}

/// The number of separators that `line` begins with. No line begins with an
/// empty separator.
pub open spec fn indent_depth(line: Seq<char>, sep: Seq<char>) -> nat
    decreases line.len(),
{
    if sep.len() > 0 && sep.is_prefix_of(line) {
        1 + indent_depth(line.skip(sep.len() as int), sep)
    } else {
        0
    }
}

/// What is left of `line` when the separators it begins with are taken away.
pub open spec fn strip_indent(line: Seq<char>, sep: Seq<char>) -> Seq<char>
    decreases line.len(),
{
    if sep.len() > 0 && sep.is_prefix_of(line) {
        strip_indent(line.skip(sep.len() as int), sep)
    } else {
        line
    }
}

/// The forest while it is being built.
pub struct Outline {
    /// The sibling lists made so far.
    pub lists: Seq<Seq<EntryView>>,
    /// The list that the next entry goes into.
    pub current: int,
    /// The lists that hold the folders which are still open, outermost first.
    pub open: Seq<int>,
}

/// The outline before any line is placed: an empty root list.
pub open spec fn outline_start() -> Outline {
    Outline { lists: seq![Seq::empty()], current: 0, open: Seq::empty() }
}

/// The lists of `o` with `e` added to the current one.
pub open spec fn with_entry(o: Outline, e: EntryView) -> Seq<Seq<EntryView>> {
    o.lists.update(o.current, o.lists[o.current].push(e))
}

/// Places a line of depth `depth` that is followed by one of depth `next_depth`.
///
/// Before a deeper line it becomes a folder with a new, empty list, which
/// becomes current. Before a line that is shallower by `d` it is a leaf, and
/// the `d` innermost open folders are closed: the list that holds the
/// outermost of them becomes current. There is no result where fewer than `d`
/// folders are open. Otherwise it is a leaf and nothing else changes.
pub open spec fn place(o: Outline, name: Seq<char>, depth: nat, next_depth: nat) -> Option<
    Outline,
> {
    if next_depth > depth {
        let child = o.lists.len() as int;
        Some(
            Outline {
                lists: with_entry(o, plain_entry(name, Some(child))).push(Seq::empty()),
                current: child,
                open: o.open.push(o.current),
            },
        )
    } else if next_depth < depth {
        let closed = depth - next_depth;
        if closed > o.open.len() {
            None
        } else {
            Some(
                Outline {
                    lists: with_entry(o, plain_entry(name, None)),
                    current: o.open[o.open.len() - closed],
                    open: o.open.take(o.open.len() - closed),
                },
            )
        }
    } else {
        Some(Outline { lists: with_entry(o, plain_entry(name, None)), ..o })
    }
}

/// The outline after the first `k` of `lines` are placed, each with a look at
/// the line that follows it.
pub open spec fn outline_after(lines: Seq<Seq<char>>, sep: Seq<char>, k: nat) -> Option<Outline>
    decreases k,
{
    if k == 0 {
        Some(outline_start())
    } else {
        match outline_after(lines, sep, (k - 1) as nat) {
            Some(o) => place(
                o,
                strip_indent(lines[k - 1], sep),
                indent_depth(lines[k - 1], sep),
                indent_depth(lines[k as int], sep),
            ),
            None => None,
        }
    }
}

/// The forest that `lines` describe: all lines but the last are placed with a
/// look at their successor, and the last line is a leaf.
pub open spec fn parse_lines(lines: Seq<Seq<char>>, sep: Seq<char>) -> Option<
    Seq<Seq<EntryView>>,
>
    recommends
        lines.len() >= 1,
{
    match outline_after(lines, sep, (lines.len() - 1) as nat) {
        Some(o) => Some(with_entry(o, plain_entry(strip_indent(lines.last(), sep), None))),
        None => None,
    }
}

/// The forest that `text` describes with separator `sep`, or `None` where the
/// text has no line break or closes more folders than are open.
pub open spec fn parse(text: Seq<char>, sep: Seq<char>) -> Option<Seq<Seq<EntryView>>> {
    let lines = split_lines(text);
    if lines.len() < 2 {
        None
    } else {
        parse_lines(lines, sep)
    }
}

/// What holds of an outline at every step of the building.
pub open spec fn outline_wf(o: Outline) -> bool {
    &&& forest_wf(o.lists)
    &&& 0 <= o.current < o.lists.len()
    &&& forall|i: int| 0 <= i < o.open.len() ==> 0 <= #[trigger] o.open[i] < o.lists.len()
}

/// Adding an entry to one list adds one to the number of entries.
pub proof fn lemma_entries_in_update(
    forest: Seq<Seq<EntryView>>,
    at: int,
    e: EntryView,
    n: nat,
)
    requires
        0 <= at < forest.len(),
        n <= forest.len(),
    ensures
        entries_in(forest.update(at, forest[at].push(e)), n) == entries_in(forest, n) + if at < n {
            1nat
        } else {
            0nat
        },
    decreases n,
{
    if n > 0 {
        lemma_entries_in_update(forest, at, e, (n - 1) as nat);
    }
}

/// A new list behind the others leaves the entries of the others as they are.
pub proof fn lemma_entries_in_push(forest: Seq<Seq<EntryView>>, list: Seq<EntryView>, n: nat)
    requires
        n <= forest.len(),
    ensures
        entries_in(forest.push(list), n) == entries_in(forest, n),
    decreases n,
{
    if n > 0 {
        lemma_entries_in_push(forest, list, (n - 1) as nat);
    }
}

/// Adding an entry to the current list keeps a forest well formed, where the
/// entry is a leaf or refers to the list that comes next.
pub proof fn lemma_with_entry(o: Outline, e: EntryView)
    requires
        outline_wf(o),
        e.next is None || e.next == Some(o.lists.len() as int),
    ensures
        with_entry(o, e).len() == o.lists.len(),
        total_entries(with_entry(o, e)) == total_entries(o.lists) + 1,
        e.next is None ==> forest_wf(with_entry(o, e)),
        forest_wf(with_entry(o, e).push(Seq::empty())),
        total_entries(with_entry(o, e).push(Seq::empty())) == total_entries(o.lists) + 1,
{
    let added = with_entry(o, e);
    lemma_entries_in_update(o.lists, o.current, e, o.lists.len());
    lemma_entries_in_push(added, Seq::empty(), added.len());
    assert forall|i: int, k: int| 0 <= i < added.len() && 0 <= k < added[i].len() implies match (
    #[trigger] added[i][k]).next {
        Some(j) => i < j < added.len() + 1,
        None => true,
    } by {
        if i == o.current && k == o.lists[i].len() {
        } else {
            assert(added[i][k] == o.lists[i][k]);
        }
    }
    let grown = added.push(Seq::empty());
    assert forall|i: int, k: int| 0 <= i < grown.len() && 0 <= k < grown[i].len() implies match (
    #[trigger] grown[i][k]).next {
        Some(j) => i < j < grown.len(),
        None => true,
    } by {
        assert(grown[i][k] == added[i][k]);
    }
    if e.next is None {
        assert forall|i: int, k: int|
            0 <= i < added.len() && 0 <= k < added[i].len() implies match (
        #[trigger] added[i][k]).next {
            Some(j) => i < j < added.len(),
            None => true,
        } by {
            if i == o.current && k == o.lists[i].len() {
            } else {
                assert(added[i][k] == o.lists[i][k]);
            }
        }
    }
}

/// Placing a line keeps the outline in order and adds one entry.
pub proof fn lemma_place_wf(o: Outline, name: Seq<char>, depth: nat, next_depth: nat)
    requires
        outline_wf(o),
        place(o, name, depth, next_depth) is Some,
    ensures
        outline_wf(place(o, name, depth, next_depth).unwrap()),
        total_entries(place(o, name, depth, next_depth).unwrap().lists) == total_entries(o.lists)
            + 1,
{
    if next_depth > depth {
        lemma_with_entry(o, plain_entry(name, Some(o.lists.len() as int)));
    } else {
        lemma_with_entry(o, plain_entry(name, None));
    }
}

/// Every outline that the building reaches is in order, and holds one entry
/// for each line placed.
pub proof fn lemma_outline_after_wf(lines: Seq<Seq<char>>, sep: Seq<char>, k: nat)
    requires
        outline_after(lines, sep, k) is Some,
    ensures
        outline_wf(outline_after(lines, sep, k).unwrap()),
        total_entries(outline_after(lines, sep, k).unwrap().lists) == k,
    decreases k,
{
    if k == 0 {
        assert(entries_in(outline_start().lists, 1) == entries_in(outline_start().lists, 0)
            + outline_start().lists[0].len());
    } else {
        lemma_outline_after_wf(lines, sep, (k - 1) as nat);
        let o = outline_after(lines, sep, (k - 1) as nat).unwrap();
        lemma_place_wf(
            o,
            strip_indent(lines[k - 1], sep),
            indent_depth(lines[k - 1], sep),
            indent_depth(lines[k as int], sep),
        );
    }
}

/// The start and end of each line of `chars`.
fn line_ranges(chars: &Vec<char>) -> (ranges: Vec<(usize, usize)>)
    ensures
        ranges.len() == split_lines(chars@).len(),
        forall|k: int|
            0 <= k < ranges.len() ==> {
                &&& (#[trigger] ranges[k]).0 <= ranges[k].1 <= chars.len()
                &&& chars@.subrange(ranges[k].0 as int, ranges[k].1 as int) == split_lines(
                    chars@,
                )[k]
            },
{
    let mut ranges: Vec<(usize, usize)> = Vec::new();
    let mut start: usize = 0;
    let mut i: usize = 0;
    assert(chars@.take(0) =~= Seq::empty());
    assert(chars@.subrange(0, 0) =~= Seq::empty());
    while i < chars.len()
        invariant
            start <= i <= chars.len(),
            split_lines(chars@.take(i as int)).len() == ranges.len() + 1,
            split_lines(chars@.take(i as int)).last() == chars@.subrange(start as int, i as int),
            forall|k: int|
                0 <= k < ranges.len() ==> {
                    &&& (#[trigger] ranges[k]).0 <= ranges[k].1 <= chars.len()
                    &&& chars@.subrange(ranges[k].0 as int, ranges[k].1 as int) == split_lines(
                        chars@.take(i as int),
                    )[k]
                },
        decreases chars.len() - i,
    {
        let ghost before = split_lines(chars@.take(i as int));
        assert(chars@.take(i + 1).drop_last() =~= chars@.take(i as int));
        assert(chars@.take(i + 1).last() == chars@[i as int]);
        if chars[i] == '\n' {
            ranges.push((start, i));
            start = i + 1;
            assert(chars@.subrange(start as int, start as int) =~= Seq::empty());
        } else {
            assert(chars@.subrange(start as int, i + 1) =~= chars@.subrange(
                start as int,
                i as int,
            ).push(chars@[i as int]));
        }
        i += 1;
    }
    assert(chars@.take(chars.len() as int) =~= chars@);
    ranges.push((start, i));
    ranges
}

/// Measures the indentation of the line that `chars` holds from `start` to
/// `end`: its depth, and where its name begins.
fn measure_indent(chars: &Vec<char>, start: usize, end: usize, sep: &Vec<char>) -> (r: (
    usize,
    usize,
))
    requires
        start <= end <= chars.len(),
    ensures
        r.0 == indent_depth(chars@.subrange(start as int, end as int), sep@),
        start <= r.1 <= end,
        chars@.subrange(r.1 as int, end as int) == strip_indent(
            chars@.subrange(start as int, end as int),
            sep@,
        ),
{
    let ghost line = chars@.subrange(start as int, end as int);
    let mut depth: usize = 0;
    let mut at: usize = start;
    if sep.len() == 0 {
        return (0, start);
    }
    while occurs_at(chars, at, end, sep)
        invariant
            sep.len() > 0,
            start <= at <= end <= chars.len(),
            depth <= at - start,
            line == chars@.subrange(start as int, end as int),
            indent_depth(line, sep@) == depth + indent_depth(
                chars@.subrange(at as int, end as int),
                sep@,
            ),
            strip_indent(line, sep@) == strip_indent(chars@.subrange(at as int, end as int), sep@),
        decreases end - at,
    {
        assert(chars@.subrange(at as int, end as int).skip(sep@.len() as int) =~= chars@.subrange(
            at + sep@.len(),
            end as int,
        ));
        at += sep.len();
        depth += 1;
    }
    (depth, at)
}

/// Adds `e` to the list at index `at`.
fn append_to(all: &mut Vec<Vec<Entry>>, at: usize, e: Entry)
    requires
        at < old(all).len(),
    ensures
        final(all).deep_view() == old(all).deep_view().update(
            at as int,
            old(all).deep_view()[at as int].push(e.deep_view()),
        ),
{
    all[at].push(e);
    assert(final(all).deep_view() =~~= old(all).deep_view().update(
        at as int,
        old(all).deep_view()[at as int].push(e.deep_view()),
    ));
}

/// Whether the lists, the current index and the open folders that the parser
/// holds are those of `o`.
pub open spec fn holds_outline(
    all: Vec<Vec<Entry>>,
    current: usize,
    path: Vec<usize>,
    o: Outline,
) -> bool {
    &&& all.deep_view() == o.lists
    &&& current == o.current
    &&& path.len() == o.open.len()
    &&& forall|i: int| 0 <= i < path.len() ==> #[trigger] path[i] == o.open[i]
}

/// Reads `string` as a forest, with `sep` as the token that indents a line by
/// one level.
///
/// Fails with `MalformedInput` where the text has no line break, and where a
/// line closes more folders than are open.
pub fn from_separator(string: String, sep: String) -> (r: Result<Vec<Vec<Entry>>, NavigatorError>)
    ensures
        match parse(string@, sep@) {
            Some(forest) => r matches Ok(all) && all.deep_view() == forest,
            None => r matches Err(e) && e == NavigatorError::MalformedInput,
        },
        r matches Ok(all) ==> forest_wf(all.deep_view()),
{
    let chars = to_chars(string.as_str());
    let sepc = to_chars(sep.as_str());
    let ranges = line_ranges(&chars);
    let ghost lines = split_lines(string@);
    if ranges.len() < 2 {
        return Err(NavigatorError::MalformedInput);
    }
    let mut all: Vec<Vec<Entry>> = Vec::new();
    all.push(Vec::new());
    let mut current: usize = 0;
    let mut path: Vec<usize> = Vec::new();
    let first = measure_indent(&chars, ranges[0].0, ranges[0].1, &sepc);
    let mut depth: usize = first.0;
    let mut name_at: usize = first.1;
    let mut k: usize = 0;
    assert(all.deep_view() =~~= outline_start().lists);
    while k + 1 < ranges.len()
        invariant
            chars@ == string@,
            sepc@ == sep@,
            lines == split_lines(string@),
            ranges.len() == lines.len(),
            ranges.len() >= 2,
            k < ranges.len(),
            forall|j: int|
                0 <= j < ranges.len() ==> {
                    &&& (#[trigger] ranges[j]).0 <= ranges[j].1 <= chars.len()
                    &&& chars@.subrange(ranges[j].0 as int, ranges[j].1 as int) == lines[j]
                },
            depth == indent_depth(lines[k as int], sep@),
            ranges[k as int].0 <= name_at <= ranges[k as int].1,
            chars@.subrange(name_at as int, ranges[k as int].1 as int) == strip_indent(
                lines[k as int],
                sep@,
            ),
            outline_after(lines, sep@, k as nat) is Some,
            holds_outline(all, current, path, outline_after(lines, sep@, k as nat).unwrap()),
        decreases ranges.len() - k,
    {
        let ghost o = outline_after(lines, sep@, k as nat).unwrap();
        proof {
            lemma_outline_after_wf(lines, sep@, k as nat);
        }
        let name = string_of(&chars, name_at, ranges[k].1);
        let next = measure_indent(&chars, ranges[k + 1].0, ranges[k + 1].1, &sepc);
        let next_depth: usize = next.0;
        let ghost placed = place(o, name@, depth as nat, next_depth as nat);
        assert(outline_after(lines, sep@, (k + 1) as nat) == placed);
        if next_depth > depth {
            let child: usize = all.len();
            append_to(&mut all, current, Entry::new(name, Some(child), None));
            all.push(Vec::new());
            path.push(current);
            current = child;
            assert(all.deep_view() =~~= placed.unwrap().lists);
        } else if next_depth < depth {
            let closed: usize = depth - next_depth;
            if closed > path.len() {
                proof {
                    lemma_outline_none_stays(lines, sep@, (k + 1) as nat, (lines.len() - 1) as nat);
                }
                return Err(NavigatorError::MalformedInput);
            }
            append_to(&mut all, current, Entry::new(name, None, None));
            current = path[path.len() - closed];
            path.truncate(path.len() - closed);
        } else {
            append_to(&mut all, current, Entry::new(name, None, None));
        }
        depth = next_depth;
        name_at = next.1;
        k += 1;
    }
    proof {
        lemma_outline_after_wf(lines, sep@, k as nat);
    }
    let name = string_of(&chars, name_at, ranges[k].1);
    append_to(&mut all, current, Entry::new(name, None, None));
    proof {
        law_parse_well_formed(string@, sep@);
    }
    Ok(all)
}

/// A forest that was read from text is well formed: every folder refers to a
/// list that exists.
pub proof fn law_parse_well_formed(text: Seq<char>, sep: Seq<char>)
    requires
        parse(text, sep) is Some,
    ensures
        forest_wf(parse(text, sep).unwrap()),
{
    let lines = split_lines(text);
    let k = (lines.len() - 1) as nat;
    lemma_outline_after_wf(lines, sep, k);
    lemma_with_entry(
        outline_after(lines, sep, k).unwrap(),
        plain_entry(strip_indent(lines.last(), sep), None),
    );
}

/// A forest that was read from text holds one entry for each line of the
/// text, so one for each line that is not empty where no line is empty.
pub proof fn law_parse_entry_count(text: Seq<char>, sep: Seq<char>)
    requires
        parse(text, sep) is Some,
    ensures
        total_entries(parse(text, sep).unwrap()) == split_lines(text).len(),
        (forall|i: int| 0 <= i < split_lines(text).len() ==> (#[trigger] split_lines(text)[i]).len()
            > 0) ==> total_entries(parse(text, sep).unwrap()) == split_lines(text).filter(
            |line: Seq<char>| line.len() > 0,
        ).len(),
{
    let lines = split_lines(text);
    let k = (lines.len() - 1) as nat;
    lemma_outline_after_wf(lines, sep, k);
    lemma_with_entry(
        outline_after(lines, sep, k).unwrap(),
        plain_entry(strip_indent(lines.last(), sep), None),
    );
    if forall|i: int| 0 <= i < lines.len() ==> (#[trigger] lines[i]).len() > 0 {
        lemma_filter_all(lines, |line: Seq<char>| line.len() > 0);
    }
}

/// A text has more than one line exactly where it holds a line break.
pub proof fn law_lines_and_breaks(text: Seq<char>)
    ensures
        split_lines(text).len() >= 1,
        split_lines(text).len() >= 2 <==> text.contains('\n'),
    decreases text.len(),
{
    if text.len() > 0 {
        let before = text.drop_last();
        law_lines_and_breaks(before);
        if text.last() == '\n' {
            assert(text[text.len() - 1] == '\n');
        } else if before.contains('\n') {
            let i = choose|i: int| 0 <= i < before.len() && before[i] == '\n';
            assert(text[i] == '\n');
        } else if text.contains('\n') {
            let i = choose|i: int| 0 <= i < text.len() && text[i] == '\n';
            assert(before[i] == '\n');
        }
    }
}

/// A filter that every item passes leaves the sequence as it is.
pub proof fn lemma_filter_all<A>(s: Seq<A>, pred: spec_fn(A) -> bool)
    requires
        forall|i: int| 0 <= i < s.len() ==> pred(#[trigger] s[i]),
    ensures
        s.filter(pred) == s,
    decreases s.len(),
{
    reveal(Seq::filter);
    if s.len() > 0 {
        lemma_filter_all(s.drop_last(), pred);
        assert(s.drop_last().push(s.last()) =~= s);
    }
}

/// Once no outline is left, none comes back.
pub proof fn lemma_outline_none_stays(lines: Seq<Seq<char>>, sep: Seq<char>, k: nat, n: nat)
    requires
        k <= n,
        outline_after(lines, sep, k) is None,
    ensures
        outline_after(lines, sep, n) is None,
    decreases n,
{
    if k < n {
        lemma_outline_none_stays(lines, sep, k, (n - 1) as nat);
    }
}

} // verus!
