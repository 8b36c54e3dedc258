//! Indented text, written down from its lines.
//!
//! A line is given by its depth and its name. Written with a separator, it
//! is the separator repeated as often as the depth says, and then the name.
//! This is the way back from what the parser reads, and it shows that the
//! choice of the separator does not matter.

use crate::parser::{indent_depth, outline_after, parse, split_lines, strip_indent};
use vstd::prelude::*;

verus! {

/// The line of depth `depth` and name `name`, written with `sep`.
pub open spec fn indented(depth: nat, name: Seq<char>, sep: Seq<char>) -> Seq<char>
    decreases depth,
{
    if depth == 0 {
        name
    } else {
        sep + indented((depth - 1) as nat, name, sep)
    }
}

/// The lines `lines`, each given by depth and name, written with `sep`.
pub open spec fn written_lines(lines: Seq<(nat, Seq<char>)>, sep: Seq<char>) -> Seq<Seq<char>> {
    Seq::new(lines.len(), |i: int| indented(lines[i].0, lines[i].1, sep))
}

/// `lines`, with a line break between one and the next.
pub open spec fn join_lines(lines: Seq<Seq<char>>) -> Seq<char>
    decreases lines.len(),
{
    if lines.len() == 0 {
        Seq::empty()
    } else if lines.len() == 1 {
        lines[0]
    } else {
        join_lines(lines.drop_last()).push('\n') + lines.last()
    }
}

/// The text of the lines `lines`, each given by depth and name, written
/// with `sep`.
pub open spec fn written(lines: Seq<(nat, Seq<char>)>, sep: Seq<char>) -> Seq<char> {
    join_lines(written_lines(lines, sep))
}

/// A text without a line break is one line.
pub proof fn lemma_split_one_line(line: Seq<char>)
    requires
        !line.contains('\n'),
    ensures
        split_lines(line) == seq![line],
    decreases line.len(),
{
    if line.len() > 0 {
        assert forall|i: int| 0 <= i < line.drop_last().len() implies line.drop_last()[i]
            != '\n' by {
            assert(line.drop_last()[i] == line[i]);
        }
        lemma_split_one_line(line.drop_last());
        assert(line.last() == line[line.len() - 1]);
        assert(line.drop_last().push(line.last()) =~= line);
        assert(seq![line.drop_last()].drop_last().push(line) =~= seq![line]);
    } else {
        assert(line =~= Seq::empty());
    }
}

/// A text, a line break and a line without one are the lines of the text
/// and that line.
pub proof fn lemma_split_append(text: Seq<char>, line: Seq<char>)
    requires
        !line.contains('\n'),
    ensures
        split_lines(text.push('\n') + line) == split_lines(text).push(line),
    decreases line.len(),
{
    let whole = text.push('\n') + line;
    if line.len() == 0 {
        assert(whole =~= text.push('\n'));
        assert(whole.drop_last() =~= text);
        assert(line =~= Seq::empty());
    } else {
        assert forall|i: int| 0 <= i < line.drop_last().len() implies line.drop_last()[i]
            != '\n' by {
            assert(line.drop_last()[i] == line[i]);
        }
        lemma_split_append(text, line.drop_last());
        assert(whole.drop_last() =~= text.push('\n') + line.drop_last());
        assert(whole.last() == line[line.len() - 1]);
        assert(split_lines(text).push(line.drop_last()).drop_last() =~= split_lines(text));
        assert(line.drop_last().push(line.last()) =~= line);
    }
}

/// Cutting joined lines gives the lines back, where none holds a line break.
pub proof fn law_split_join(lines: Seq<Seq<char>>)
    requires
        lines.len() >= 1,
        forall|i: int| 0 <= i < lines.len() ==> !(#[trigger] lines[i]).contains('\n'),
    ensures
        split_lines(join_lines(lines)) == lines,
    decreases lines.len(),
{
    if lines.len() == 1 {
        lemma_split_one_line(lines[0]);
        assert(seq![lines[0]] =~= lines);
    } else {
        assert forall|i: int| 0 <= i < lines.drop_last().len() implies !(
        #[trigger] lines.drop_last()[i]).contains('\n') by {
            assert(lines.drop_last()[i] == lines[i]);
        }
        law_split_join(lines.drop_last());
        assert(lines.last() == lines[lines.len() - 1]);
        lemma_split_append(join_lines(lines.drop_last()), lines.last());
        assert(lines.drop_last().push(lines.last()) =~= lines);
    }
}

/// A written line holds a line break only where the separator or the name
/// holds one.
pub proof fn lemma_indented_one_line(depth: nat, name: Seq<char>, sep: Seq<char>)
    requires
        !name.contains('\n'),
        !sep.contains('\n'),
    ensures
        !indented(depth, name, sep).contains('\n'),
    decreases depth,
{
    if depth > 0 {
        lemma_indented_one_line((depth - 1) as nat, name, sep);
        let rest = indented((depth - 1) as nat, name, sep);
        assert forall|i: int| 0 <= i < (sep + rest).len() implies (sep + rest)[i] != '\n' by {
            if i < sep.len() {
                assert((sep + rest)[i] == sep[i]);
            } else {
                assert((sep + rest)[i] == rest[i - sep.len()]);
            }
        }
    }
}

/// A written line is read with the depth and the name it was written with,
/// where the name does not begin with the separator.
pub proof fn law_indent_read_back(depth: nat, name: Seq<char>, sep: Seq<char>)
    requires
        sep.len() > 0,
        !sep.is_prefix_of(name),
    ensures
        indent_depth(indented(depth, name, sep), sep) == depth,
        strip_indent(indented(depth, name, sep), sep) == name,
    decreases depth,
{
    if depth > 0 {
        let rest = indented((depth - 1) as nat, name, sep);
        law_indent_read_back((depth - 1) as nat, name, sep);
        assert((sep + rest).subrange(0, sep.len() as int) =~= sep);
        assert((sep + rest).skip(sep.len() as int) =~= rest);
    }
}

/// The building of the forest looks at nothing but the depth and the name
/// of each line.
pub proof fn lemma_outline_same(
    a: Seq<Seq<char>>,
    sep_a: Seq<char>,
    b: Seq<Seq<char>>,
    sep_b: Seq<char>,
    k: nat,
)
    requires
        a.len() == b.len(),
        k < a.len(),
        forall|i: int|
            0 <= i < a.len() ==> indent_depth(#[trigger] a[i], sep_a) == indent_depth(b[i], sep_b)
                && strip_indent(a[i], sep_a) == strip_indent(b[i], sep_b),
    ensures
        outline_after(a, sep_a, k) == outline_after(b, sep_b, k),
    decreases k,
{
    if k > 0 {
        lemma_outline_same(a, sep_a, b, sep_b, (k - 1) as nat);
        assert(indent_depth(a[k - 1], sep_a) == indent_depth(b[k - 1], sep_b));
        assert(indent_depth(a[k as int], sep_a) == indent_depth(b[k as int], sep_b));
    }
}

/// The same lines written with two separators are read as the same forest,
/// whatever the separators are, as long as neither is empty or holds a line
/// break, and no name holds a line break or begins with a separator.
pub proof fn law_separator_equivalence(
    lines: Seq<(nat, Seq<char>)>,
    sep_a: Seq<char>,
    sep_b: Seq<char>,
)
    requires
        sep_a.len() > 0,
        sep_b.len() > 0,
        !sep_a.contains('\n'),
        !sep_b.contains('\n'),
        forall|i: int|
            0 <= i < lines.len() ==> !(#[trigger] lines[i]).1.contains('\n') && !sep_a.is_prefix_of(
                lines[i].1,
            ) && !sep_b.is_prefix_of(lines[i].1),
    ensures
        parse(written(lines, sep_a), sep_a) == parse(written(lines, sep_b), sep_b),
{
    let a = written_lines(lines, sep_a);
    let b = written_lines(lines, sep_b);
    if lines.len() == 0 {
        assert(written(lines, sep_a) =~= written(lines, sep_b));
        assert(split_lines(written(lines, sep_a)).len() == 1);
    } else {
        assert forall|i: int| 0 <= i < a.len() implies !(#[trigger] a[i]).contains('\n') by {
            lemma_indented_one_line(lines[i].0, lines[i].1, sep_a);
        }
        assert forall|i: int| 0 <= i < b.len() implies !(#[trigger] b[i]).contains('\n') by {
            lemma_indented_one_line(lines[i].0, lines[i].1, sep_b);
        }
        law_split_join(a);
        law_split_join(b);
        assert forall|i: int| 0 <= i < a.len() implies indent_depth(#[trigger] a[i], sep_a)
            == indent_depth(b[i], sep_b) && strip_indent(a[i], sep_a) == strip_indent(
            b[i],
            sep_b,
        ) by {
            law_indent_read_back(lines[i].0, lines[i].1, sep_a);
            law_indent_read_back(lines[i].0, lines[i].1, sep_b);
        }
        if a.len() >= 2 {
            lemma_outline_same(a, sep_a, b, sep_b, (a.len() - 1) as nat);
            assert(strip_indent(a.last(), sep_a) == strip_indent(b.last(), sep_b)) by {
                assert(a.last() == a[a.len() - 1]);
                assert(b.last() == b[b.len() - 1]);
            }
        }
    }
}

/// The depth of line `k` of `lines`.
pub open spec fn depth_at(lines: Seq<Seq<char>>, sep: Seq<char>, k: int) -> nat {
    indent_depth(lines[k], sep)
}

/// Whether `lines` are indented step by step: the first line is not
/// indented, and no line is deeper than the line before it by more than one
/// level.
pub open spec fn well_indented(lines: Seq<Seq<char>>, sep: Seq<char>) -> bool {
    &&& lines.len() >= 1
    &&& depth_at(lines, sep, 0) == 0
    &&& forall|k: int|
        0 <= k && k + 1 < lines.len() ==> depth_at(lines, sep, k + 1) <= #[trigger] depth_at(
            lines,
            sep,
            k,
        ) + 1
}

/// While lines that are indented step by step are placed, as many folders
/// are open as the line to be placed next is deep.
pub proof fn lemma_open_is_depth(lines: Seq<Seq<char>>, sep: Seq<char>, k: nat)
    requires
        well_indented(lines, sep),
        k < lines.len(),
    ensures
        outline_after(lines, sep, k) is Some,
        outline_after(lines, sep, k).unwrap().open.len() == depth_at(lines, sep, k as int),
    decreases k,
{
    if k > 0 {
        lemma_open_is_depth(lines, sep, (k - 1) as nat);
        assert(depth_at(lines, sep, (k - 1) + 1) <= depth_at(lines, sep, k - 1) + 1);
    }
}

/// A text of at least two lines that are indented step by step is read as a
/// forest: there is no folder to close that is not open.
pub proof fn law_well_indented_text_parses(text: Seq<char>, sep: Seq<char>)
    requires
        split_lines(text).len() >= 2,
        well_indented(split_lines(text), sep),
    ensures
        parse(text, sep) is Some,
{
    let lines = split_lines(text);
    lemma_open_is_depth(lines, sep, (lines.len() - 1) as nat);
}

} // verus!
