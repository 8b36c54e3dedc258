//! Working on a large scope in chunks.
//!
//! A scope of more than `FAN_OUT` entries is cut into at most `FAN_OUT`
//! chunks of equal size that follow one another; what is left over goes to
//! the last. Each chunk is searched by itself, and the results are joined in
//! the order of the chunks, so the outcome is that of one search of the whole.

use crate::entry::{duplicate_entries, Entry, EntryView};
use crate::error::NavigatorError;
use crate::pattern::Pattern;
use crate::search::{apply_result, filter_and_style, lemma_search_add, search_result, FAN_OUT};
use vstd::prelude::*;
use vstd::string::StrSliceExecFns;

verus! {

/// The number of chunks for a scope of `len` entries.
pub open spec fn chunk_count(len: nat) -> nat {
    if len <= FAN_OUT {
        1
    } else if len / (FAN_OUT as nat) > FAN_OUT {
        FAN_OUT as nat
    } else {
        len / (FAN_OUT as nat)
    }
}

/// The number of entries in every chunk but the last.
pub open spec fn chunk_size(len: nat) -> nat {
    len / chunk_count(len)
}

/// Where chunk `i` begins; for `i` behind the last chunk, where the scope ends.
pub open spec fn chunk_edge(len: nat, i: nat) -> nat {
    if i >= chunk_count(len) {
        len
    } else {
        i * chunk_size(len)
    }
}

/// The chunks for a scope of `len` entries: where each begins and ends.
pub open spec fn chunk_plan(len: nat) -> Seq<(int, int)> {
    Seq::new(
        chunk_count(len),
        |i: int| (chunk_edge(len, i as nat) as int, chunk_edge(len, (i + 1) as nat) as int),
    )
}

/// The chunks divide the scope evenly but for what does not divide.
pub proof fn lemma_chunk_size(len: nat)
    ensures
        1 <= chunk_count(len) <= FAN_OUT,
        chunk_count(len) * chunk_size(len) <= len,
        len < chunk_count(len) * chunk_size(len) + chunk_count(len),
        len > FAN_OUT ==> chunk_size(len) >= FAN_OUT,
{
    let count = chunk_count(len);
    let size = chunk_size(len);
    assert(count >= 1) by {
        if len > FAN_OUT {
            assert(len / 20 >= 1);
        }
    }
    assert(count * size <= len && len < count * size + count) by (nonlinear_arith)
        requires
            count >= 1,
            size == len / count,
    ;
    if len > FAN_OUT {
        assert(count * 20 <= len) by {
            assert(len / 20 * 20 <= len);
        }
        assert(size >= 20) by (nonlinear_arith)
            requires
                count >= 1,
                count * 20 <= len,
                size == len / count,
        ;
    }
}

/// The edges of the chunks go up and stay inside the scope.
pub proof fn lemma_chunk_edges(len: nat, i: nat)
    ensures
        chunk_edge(len, i) <= chunk_edge(len, i + 1) <= len,
        i < chunk_count(len) ==> chunk_edge(len, i) + chunk_size(len) <= chunk_edge(len, i + 1),
        i + 1 < chunk_count(len) ==> chunk_edge(len, i) + chunk_size(len) == chunk_edge(len, i + 1),
{
    let count = chunk_count(len);
    let size = chunk_size(len);
    lemma_chunk_size(len);
    if i < count {
        assert(i * size + size == (i + 1) * size) by (nonlinear_arith);
        assert((i + 1) * size <= count * size) by (nonlinear_arith)
            requires
                i + 1 <= count,
        ;
    }
}

/// The chunks follow one another from the first entry to the last, there
/// are at most `FAN_OUT` of them, and all but the last are of one size, which
/// the last exceeds by less than the number of chunks.
pub proof fn law_chunk_plan(len: nat)
    ensures
        1 <= chunk_plan(len).len() <= FAN_OUT,
        chunk_plan(len)[0].0 == 0,
        chunk_plan(len).last().1 == len,
        forall|i: int|
            0 <= i < chunk_plan(len).len() ==> 0 <= (#[trigger] chunk_plan(len)[i]).0
                <= chunk_plan(len)[i].1 <= len,
        forall|i: int|
            0 <= i && i + 1 < chunk_plan(len).len() ==> (#[trigger] chunk_plan(len)[i]).1
                == chunk_plan(len)[i + 1].0,
        forall|i: int|
            0 <= i && i + 1 < chunk_plan(len).len() ==> (#[trigger] chunk_plan(len)[i]).1
                - chunk_plan(len)[i].0 == chunk_size(len),
        chunk_size(len) <= chunk_plan(len).last().1 - chunk_plan(len).last().0 < chunk_size(len)
            + chunk_plan(len).len(),
{
    let plan = chunk_plan(len);
    let count = chunk_count(len);
    let size = chunk_size(len);
    lemma_chunk_size(len);
    assert forall|i: int| 0 <= i < plan.len() implies 0 <= (#[trigger] plan[i]).0 <= plan[i].1
        <= len by {
        lemma_chunk_edges(len, i as nat);
    }
    assert forall|i: int| 0 <= i && i + 1 < plan.len() implies (#[trigger] plan[i]).1 - plan[i].0
        == chunk_size(len) by {
        lemma_chunk_edges(len, i as nat);
    }
    assert((count - 1) * size + size == count * size) by (nonlinear_arith);
}

/// The chunks for a scope of `len` entries.
pub fn plan_chunks(len: usize) -> (plan: Vec<(usize, usize)>)
    ensures
        plan.len() == chunk_plan(len as nat).len(),
        forall|i: int|
            0 <= i < plan.len() ==> (#[trigger] plan[i].0 as int, plan[i].1 as int) == chunk_plan(
                len as nat,
            )[i],
{
    let count: usize = if len <= FAN_OUT {
        1
    } else if len / FAN_OUT > FAN_OUT {
        FAN_OUT
    } else {
        len / FAN_OUT
    };
    proof {
        lemma_chunk_size(len as nat);
    }
    let size: usize = len / count;
    let mut plan: Vec<(usize, usize)> = Vec::new();
    let mut from: usize = 0;
    let mut i: usize = 0;
    while i < count
        invariant
            count == chunk_count(len as nat),
            size == chunk_size(len as nat),
            i <= count,
            from == chunk_edge(len as nat, i as nat) || i == count,
            plan.len() == i,
            forall|j: int|
                0 <= j < i ==> (#[trigger] plan[j].0 as int, plan[j].1 as int) == chunk_plan(
                    len as nat,
                )[j],
        decreases count - i,
    {
        proof {
            lemma_chunk_edges(len as nat, i as nat);
        }
        let to: usize = if i + 1 == count {
            len
        } else {
            from + size
        };
        plan.push((from, to));
        from = to;
        i += 1;
    }
    plan
}

/// What the first `n` chunks of `list` show in a search for `source`, joined
/// in the order of the chunks.
pub open spec fn chunked_result(list: Seq<EntryView>, source: Seq<char>, n: nat) -> Seq<EntryView>
    decreases n,
{
    if n == 0 {
        Seq::empty()
    } else {
        let chunk = chunk_plan(list.len())[n - 1];
        chunked_result(list, source, (n - 1) as nat) + search_result(
            list.subrange(chunk.0, chunk.1),
            source,
        )
    }
}

/// The first `n` chunks show what a search of the entries before the end of
/// chunk `n` shows.
pub proof fn lemma_chunked_result(list: Seq<EntryView>, source: Seq<char>, n: nat)
    requires
        n <= chunk_count(list.len()),
    ensures
        chunked_result(list, source, n) == search_result(
            list.take(chunk_edge(list.len(), n) as int),
            source,
        ),
    decreases n,
{
    let len = list.len();
    lemma_chunk_size(len);
    if n == 0 {
        assert(chunk_edge(len, 0) == 0) by (nonlinear_arith)
            requires
                chunk_edge(len, 0) == 0 * chunk_size(len),
        ;
        assert(list.take(0) =~= Seq::empty());
    } else {
        lemma_chunked_result(list, source, (n - 1) as nat);
        lemma_chunk_edges(len, (n - 1) as nat);
        let from = chunk_edge(len, (n - 1) as nat) as int;
        let to = chunk_edge(len, n) as int;
        assert(chunk_plan(len)[n - 1] == (from, to));
        assert(list.take(to) =~= list.take(from) + list.subrange(from, to));
        lemma_search_add(list.take(from), list.subrange(from, to), source);
    }
}

/// Searching chunk by chunk and joining the results in the order of the
/// chunks shows what one search of the whole list shows, in the same order.
pub proof fn law_chunked_search(list: Seq<EntryView>, source: Seq<char>)
    ensures
        chunked_result(list, source, chunk_count(list.len())) == search_result(list, source),
{
    lemma_chunked_result(list, source, chunk_count(list.len()));
    assert(list.take(list.len() as int) =~= list);
}

/// A copy of the entries of `list` from `from` up to `to`.
pub fn copy_chunk(list: &Vec<Entry>, from: usize, to: usize) -> (chunk: Vec<Entry>)
    requires
        from <= to <= list.len(),
    ensures
        chunk.deep_view() == list.deep_view().subrange(from as int, to as int),
{
    let mut chunk: Vec<Entry> = Vec::new();
    let mut i: usize = from;
    while i < to
        invariant
            from <= i <= to <= list.len(),
            chunk.len() == i - from,
            forall|j: int| 0 <= j < i - from ==> chunk[j].deep_view() == list[from + j].deep_view(),
        decreases to - i,
    {
        chunk.push(list[i].duplicate());
        i += 1;
    }
    assert(chunk.deep_view() =~= list.deep_view().subrange(from as int, to as int));
    chunk
}

/// Joins the results of the chunks in the order in which they are given.
pub fn join_chunks(parts: Vec<Vec<Entry>>) -> (joined: Vec<Entry>)
    ensures
        joined.deep_view() == parts.deep_view().flatten(),
{
    let mut joined: Vec<Entry> = Vec::new();
    let mut parts = parts;
    let ghost all = parts.deep_view();
    let mut i: usize = 0;
    assert(all.take(0) =~= Seq::empty());
    assert(joined.deep_view() =~= all.take(0).flatten());
    while i < parts.len()
        invariant
            i <= parts.len(),
            parts.len() == all.len(),
            forall|j: int| i <= j < parts.len() ==> (#[trigger] parts[j]).deep_view() == all[j],
            joined.deep_view() == all.take(i as int).flatten(),
        decreases parts.len() - i,
    {
        let ghost before = joined.deep_view();
        let ghost part = parts[i as int].deep_view();
        let mut taken: Vec<Entry> = Vec::new();
        std::mem::swap(&mut parts[i], &mut taken);
        assert(taken.deep_view() == all[i as int]);
        joined.append(&mut taken);
        assert(joined.deep_view() =~= before + all[i as int]);
        proof {
            all.take(i as int).lemma_flatten_push(all[i as int]);
            assert(all.take(i + 1) =~= all.take(i as int).push(all[i as int]));
        }
        i += 1;
    }
    assert(all.take(all.len() as int) =~= all);
    joined
}

/// The chunks of `list`, one after the other.
pub open spec fn chunks_of(list: Seq<EntryView>) -> Seq<Seq<EntryView>> {
    Seq::new(
        chunk_count(list.len()),
        |i: int| list.subrange(chunk_plan(list.len())[i].0, chunk_plan(list.len())[i].1),
    )
}

/// What searching each of `chunks` for `source` shows, chunk by chunk.
pub open spec fn chunk_results(chunks: Seq<Seq<EntryView>>, source: Seq<char>) -> Seq<
    Seq<EntryView>,
> {
    Seq::new(chunks.len(), |i: int| search_result(chunks[i], source))
}

/// Whether `workers` can be handed any pattern and any chunks, and hands
/// back what a search of each chunk shows, in the order of the chunks.
pub open spec fn searches_chunks<W: Fn(&Pattern, Vec<Vec<Entry>>) -> Vec<Vec<Entry>>>(
    workers: &W,
) -> bool {
    &&& forall|pattern: &Pattern, chunks: Vec<Vec<Entry>>| #[trigger]
        call_requires(workers, (pattern, chunks))
    &&& forall|pattern: &Pattern, chunks: Vec<Vec<Entry>>, parts: Vec<Vec<Entry>>| #[trigger]
        call_ensures(workers, (pattern, chunks), parts) ==> parts.deep_view() == chunk_results(
            chunks.deep_view(),
            pattern@,
        )
}

/// The results of the first `n` chunks, joined, are what the first `n`
/// chunks show.
pub proof fn lemma_chunk_results(list: Seq<EntryView>, source: Seq<char>, n: nat)
    requires
        n <= chunk_count(list.len()),
    ensures
        chunk_results(chunks_of(list), source).take(n as int).flatten() == chunked_result(
            list,
            source,
            n,
        ),
    decreases n,
{
    let results = chunk_results(chunks_of(list), source);
    if n == 0 {
        assert(results.take(0) =~= Seq::empty());
    } else {
        lemma_chunk_results(list, source, (n - 1) as nat);
        assert(results.take(n as int) =~= results.take(n - 1).push(results[n - 1]));
        results.take(n - 1).lemma_flatten_push(results[n - 1]);
    }
}

/// The results of the chunks, joined in the order of the chunks, are what
/// one search of the whole list shows.
pub proof fn law_joined_chunks(list: Seq<EntryView>, source: Seq<char>)
    ensures
        chunk_results(chunks_of(list), source).flatten() == search_result(list, source),
{
    let results = chunk_results(chunks_of(list), source);
    lemma_chunk_results(list, source, chunk_count(list.len()));
    assert(results.take(results.len() as int) =~= results);
    law_chunked_search(list, source);
}

/// Cuts `list` into its chunks, each a copy of its part of the list.
pub fn split_chunks(list: &Vec<Entry>) -> (chunks: Vec<Vec<Entry>>)
    ensures
        chunks.deep_view() == chunks_of(list.deep_view()),
{
    let plan = plan_chunks(list.len());
    let ghost l = list.deep_view();
    let mut chunks: Vec<Vec<Entry>> = Vec::new();
    let mut i: usize = 0;
    proof {
        law_chunk_plan(l.len());
    }
    while i < plan.len()
        invariant
            l == list.deep_view(),
            i <= plan.len(),
            plan.len() == chunk_plan(l.len()).len(),
            forall|j: int|
                0 <= j < plan.len() ==> (#[trigger] plan[j].0 as int, plan[j].1 as int)
                    == chunk_plan(l.len())[j],
            forall|j: int|
                0 <= j < chunk_plan(l.len()).len() ==> 0 <= (#[trigger] chunk_plan(l.len())[j]).0
                    <= chunk_plan(l.len())[j].1 <= l.len(),
            chunks.len() == i,
            forall|j: int| 0 <= j < i ==> (#[trigger] chunks[j]).deep_view() == chunks_of(l)[j],
        decreases plan.len() - i,
    {
        let bounds: (usize, usize) = plan[i];
        assert((bounds.0 as int, bounds.1 as int) == chunk_plan(l.len())[i as int]);
        chunks.push(copy_chunk(list, bounds.0, bounds.1));
        i += 1;
    }
    assert(chunks.deep_view() =~~= chunks_of(l));
    chunks
}

/// Searches each of `chunks` for `pattern`, one after the other.
pub fn search_chunks(pattern: &Pattern, chunks: Vec<Vec<Entry>>) -> (parts: Vec<Vec<Entry>>)
    ensures
        parts.deep_view() == chunk_results(chunks.deep_view(), pattern@),
{
    let mut parts: Vec<Vec<Entry>> = Vec::new();
    let mut i: usize = 0;
    while i < chunks.len()
        invariant
            i <= chunks.len(),
            parts.len() == i,
            forall|j: int|
                0 <= j < i ==> (#[trigger] parts[j]).deep_view() == search_result(
                    chunks[j].deep_view(),
                    pattern@,
                ),
        decreases chunks.len() - i,
    {
        parts.push(filter_and_style(pattern, &chunks[i]));
        i += 1;
    }
    assert(parts.deep_view() =~~= chunk_results(chunks.deep_view(), pattern@));
    parts
}

/// Searches `list` for `pattern` chunk by chunk: the list is cut into its
/// chunks, `workers` search them, and what they hand back is joined in the
/// order of the chunks. The outcome is that of one search of the whole list.
pub fn fan_out<W: Fn(&Pattern, Vec<Vec<Entry>>) -> Vec<Vec<Entry>>>(
    pattern: &Pattern,
    list: &Vec<Entry>,
    workers: &W,
) -> (shown: Vec<Entry>)
    requires
        searches_chunks(workers),
    ensures
        shown.deep_view() == search_result(list.deep_view(), pattern@),
{
    let chunks = split_chunks(list);
    let parts = workers(pattern, chunks);
    proof {
        law_joined_chunks(list.deep_view(), pattern@);
    }
    join_chunks(parts)
}

/// Searches `list` for `pattern` chunk by chunk, one chunk after the other.
pub fn filter_and_style_chunked(pattern: &Pattern, list: &Vec<Entry>) -> (shown: Vec<Entry>)
    ensures
        shown.deep_view() == search_result(list.deep_view(), pattern@),
{
    fan_out(pattern, list, &search_chunks)
}

/// Searches `scope` for `pattern`, with `workers` to search the chunks of a
/// large scope.
///
/// The empty pattern shows the scope as it is. A pattern that does not
/// compile fails with `InvalidRegex`. Any other shows the entries whose name
/// it matches, in their order, highlighted; a scope of more than `FAN_OUT`
/// entries is handed to the workers in chunks, with the same outcome.
pub fn apply_with<W: Fn(&Pattern, Vec<Vec<Entry>>) -> Vec<Vec<Entry>>>(
    scope: &Vec<Entry>,
    pattern: &str,
    workers: &W,
) -> (r: Result<Vec<Entry>, NavigatorError>)
    requires
        searches_chunks(workers),
    ensures
        match apply_result(scope.deep_view(), pattern@) {
            Some(shown) => r matches Ok(v) && v.deep_view() == shown,
            None => r matches Err(e) && e == NavigatorError::InvalidRegex,
        },
{
    if pattern.unicode_len() == 0 {
        return Ok(duplicate_entries(scope));
    }
    match Pattern::compile(pattern) {
        Ok(compiled) => {
            if scope.len() > FAN_OUT {
                Ok(fan_out(&compiled, scope, workers))
            } else {
                Ok(filter_and_style(&compiled, scope))
            }
        },
        Err(e) => Err(e),
    }
}

/// Searches `scope` for `pattern`, one chunk after the other where the scope
/// is large; see `apply_with`.
pub fn apply(scope: &Vec<Entry>, pattern: &str) -> (r: Result<Vec<Entry>, NavigatorError>)
    ensures
        match apply_result(scope.deep_view(), pattern@) {
            Some(shown) => r matches Ok(v) && v.deep_view() == shown,
            None => r matches Err(e) && e == NavigatorError::InvalidRegex,
        },
{
    apply_with(scope, pattern, &search_chunks)
}

} // verus!
