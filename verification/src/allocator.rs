//! Nonce index allocation: every request takes a contiguous block of
//! indexes at the store's cursor and advances the cursor past it, so no
//! index is ever issued twice.

use vstd::prelude::*;
use vstd::set_lib::lemma_set_disjoint_lens;

verus! {

/// The block `s` holds exactly the `n` indexes starting at `start`,
/// in increasing order.
pub open spec fn contiguous_from(s: Seq<u32>, start: u32, n: nat) -> bool {
    &&& s.len() == n
    &&& forall|k: int| 0 <= k < n ==> s[k] == start + k
}

/// Takes the next `num` nonce indexes at cursor position `current`:
/// returns the block and the advanced cursor. This is the one step by
/// which any backend issues indexes; a backend holds the cursor and
/// replaces it with the advanced value in the same step.
pub fn allocate_indexes(current: u32, num: usize) -> (r: (Vec<u32>, u32))
    requires
        current + num <= u32::MAX,
    ensures
        contiguous_from(r.0@, current, num as nat),
        r.1 == current + num,
{
    let mut indexes: Vec<u32> = Vec::new();
    let mut next: u32 = current;
    let mut k: usize = 0;
    while k < num
        invariant
            current + num <= u32::MAX,
            k <= num,
            next == current + k,
            indexes@.len() == k,
            forall|j: int| 0 <= j < k ==> indexes@[j] == current + j,
        decreases num - k,
    {
        indexes.push(next);
        next = next + 1;
        k = k + 1;
    }
    (indexes, next)
}

/// A contiguous block repeats no index.
pub proof fn lemma_contiguous_no_duplicates(s: Seq<u32>, start: u32, n: nat)
    requires
        contiguous_from(s, start, n),
    ensures
        s.no_duplicates(),
        s.to_set().len() == n,
{
    s.unique_seq_to_set();
}

/// Law: allocation requests never overlap. If one request took its block
/// at cursor `c1` and a later request took its block at a cursor at or
/// past the first block's end — which the advancing cursor guarantees,
/// however many requests run between them — then the two blocks share no
/// index, and together they hold one index per requested slot.
pub proof fn lemma_allocations_disjoint(s1: Seq<u32>, c1: u32, n1: nat, s2: Seq<u32>, c2: u32, n2: nat)
    requires
        contiguous_from(s1, c1, n1),
        contiguous_from(s2, c2, n2),
        c1 + n1 <= c2,
    ensures
        forall|k: int, l: int| 0 <= k < n1 && 0 <= l < n2 ==> s1[k] != s2[l],
        s1.to_set().disjoint(s2.to_set()),
        s1.to_set().union(s2.to_set()).len() == n1 + n2,
{
    lemma_contiguous_no_duplicates(s1, c1, n1);
    lemma_contiguous_no_duplicates(s2, c2, n2);
    assert forall|x: u32| s1.to_set().contains(x) implies !s2.to_set().contains(x) by {
        let k = choose|k: int| 0 <= k < s1.len() && s1[k] == x;
        assert(x < c1 + n1);
    }
    lemma_set_disjoint_lens(s1.to_set(), s2.to_set());
    assert(s1.to_set().union(s2.to_set()) == s1.to_set() + s2.to_set());
}

} // verus!

verus! {

/// A whole series of allocation requests, as the advancing cursor leaves
/// them: each block contiguous at its start, and each start at or past
/// the previous block's end.
pub open spec fn allocation_series(blocks: Seq<Seq<u32>>, starts: Seq<u32>, counts: Seq<nat>)
    -> bool {
    &&& blocks.len() == starts.len()
    &&& blocks.len() == counts.len()
    &&& forall|i: int|
        0 <= i < blocks.len() ==> contiguous_from(#[trigger] blocks[i], starts[i], counts[i])
    &&& forall|i: int|
        0 <= i < blocks.len() - 1 ==> (#[trigger] starts[i]) + counts[i] <= starts[i + 1]
}

/// The union of the series' blocks, as a set of indexes.
pub open spec fn series_union(blocks: Seq<Seq<u32>>) -> Set<u32>
    decreases blocks.len(),
{
    if blocks.len() == 0 {
        Set::empty()
    } else {
        series_union(blocks.drop_last()).union(blocks.last().to_set())
    }
}

/// The total number of indexes the series requested.
pub open spec fn series_count(counts: Seq<nat>) -> nat
    decreases counts.len(),
{
    if counts.len() == 0 {
        0
    } else {
        series_count(counts.drop_last()) + counts.last()
    }
}

/// In a series the cursor only advances: a later block starts at or past
/// any earlier block's end.
pub proof fn lemma_series_monotone(
    blocks: Seq<Seq<u32>>,
    starts: Seq<u32>,
    counts: Seq<nat>,
    i: int,
    j: int,
)
    requires
        allocation_series(blocks, starts, counts),
        0 <= i < j < blocks.len(),
    ensures
        starts[i] + counts[i] <= starts[j],
    decreases j - i,
{
    if j > i + 1 {
        lemma_series_monotone(blocks, starts, counts, i, j - 1);
        assert(starts[j - 1] + counts[j - 1] <= starts[j]);
    }
}

/// Law: however many requests a series holds, no two of its blocks share
/// an index, and their union holds one index per requested slot.
pub proof fn lemma_series_disjoint(blocks: Seq<Seq<u32>>, starts: Seq<u32>, counts: Seq<nat>)
    requires
        allocation_series(blocks, starts, counts),
    ensures
        forall|i: int, j: int, k: int, l: int|
            0 <= i < j < blocks.len() && 0 <= k < counts[i] && 0 <= l < counts[j]
                ==> #[trigger] blocks[i][k] != #[trigger] blocks[j][l],
        series_union(blocks).finite(),
        series_union(blocks).len() == series_count(counts),
        forall|x: u32| series_union(blocks).contains(x) && blocks.len() > 0 ==> x < starts.last()
            + counts.last(),
    decreases blocks.len(),
{
    if blocks.len() == 0 {
        assert(series_union(blocks) =~= Set::<u32>::empty());
    } else {
        let m = blocks.len() - 1;
        lemma_series_disjoint(blocks.drop_last(), starts.drop_last(), counts.drop_last());
        lemma_contiguous_no_duplicates(blocks[m], starts[m], counts[m]);
        // every earlier block ends at or before the last block's start
        assert forall|i: int| 0 <= i < m implies starts[i] + counts[i] <= starts[m] by {
            lemma_series_monotone(blocks, starts, counts, i, m);
        }
        assert forall|i: int, j: int, k: int, l: int|
            0 <= i < j < blocks.len() && 0 <= k < counts[i] && 0 <= l < counts[j] implies (
        #[trigger] blocks[i][k]) != (#[trigger] blocks[j][l]) by {
            lemma_series_monotone(blocks, starts, counts, i, j);
            lemma_allocations_disjoint(
                blocks[i],
                starts[i],
                counts[i],
                blocks[j],
                starts[j],
                counts[j],
            );
        }
        // the last block is disjoint from everything before it
        assert forall|x: u32|
            series_union(blocks.drop_last()).contains(x) implies !blocks[m].to_set().contains(
            x,
        ) by {
            if m > 0 {
                assert(x < starts[m - 1] + counts[m - 1]);
            }
        }
        vstd::set_lib::lemma_set_disjoint_lens(
            series_union(blocks.drop_last()),
            blocks[m].to_set(),
        );
        assert(series_union(blocks.drop_last()).union(blocks[m].to_set()) == series_union(
            blocks.drop_last(),
        ) + blocks[m].to_set());
        assert(blocks.drop_last().len() == m);
        assert forall|x: u32| series_union(blocks).contains(x) implies x < starts[m]
            + counts[m] by {
            if series_union(blocks.drop_last()).contains(x) && m > 0 {
                assert(x < starts[m - 1] + counts[m - 1]);
            }
        }
    }
}

} // verus!
