//! Token-bounded segmentation of text lines into chunks.
//!
//! The segmenter packs consecutive lines into chunks greedily: a chunk is
//! closed as soon as the next line would push its accumulated token cost over
//! the budget.  A single line whose own cost exceeds the budget is never
//! split; it becomes a chunk by itself.

use vstd::prelude::*;

verus! {

/// One token-budget-bounded group of consecutive input lines, processed as a
/// single synthesis request.  `index` is the 0-based position of the chunk in
/// emission order.
#[derive(Clone, Debug)]
pub struct Chunk {
    pub index: usize,
    pub lines: Vec<String>,
}

/// The views of a sequence of strings.
pub open spec fn str_views(lines: Seq<String>) -> Seq<Seq<char>> {
    lines.map_values(|l: String| l@)
}

/// Token costs as mathematical naturals.
pub open spec fn cost_views(costs: Seq<usize>) -> Seq<nat> {
    costs.map_values(|c: usize| c as nat)
}

/// The line views of each chunk in a chunk sequence.
pub open spec fn chunk_views(chunks: Seq<Chunk>) -> Seq<Seq<Seq<char>>> {
    chunks.map_values(|c: Chunk| str_views(c.lines@))
}

/// Total cost of a sequence of costs.
pub open spec fn sum_costs(costs: Seq<nat>) -> nat
    decreases costs.len(),
{
    if costs.len() == 0 {
        0
    } else {
        costs[0] + sum_costs(costs.skip(1))
    }
}

/// How many leading items fit when `budget` tokens remain: items are taken
/// while each still fits within the remaining budget.
pub open spec fn take_len(costs: Seq<nat>, budget: nat) -> nat
    decreases costs.len(),
{
    if costs.len() == 0 {
        0
    } else if costs[0] <= budget {
        1 + take_len(costs.skip(1), (budget - costs[0]) as nat)
    } else {
        0
    }
}

/// Length of the first chunk: the greedy fit, but never below one item, so an
/// item over the whole budget still forms a chunk of its own.
pub open spec fn first_chunk_len(costs: Seq<nat>, budget: nat) -> nat {
    if take_len(costs, budget) == 0 {
        1
    } else {
        take_len(costs, budget)
    }
}

/// The greedy segmentation of `items`, where `costs[i]` is the token cost of
/// `items[i]`.  Generic in the item type so that the same model describes the
/// segmentation of the lines and of their costs.
pub open spec fn spec_segment<A>(items: Seq<A>, costs: Seq<nat>, budget: nat) -> Seq<Seq<A>>
    decreases items.len(),
{
    if items.len() == 0 {
        Seq::empty()
    } else {
        let k = vstd::math::min(first_chunk_len(costs, budget) as int, items.len() as int);
        seq![items.take(k)] + spec_segment(items.skip(k), costs.skip(k), budget)
    }
}

/// Splits `lines` into chunks whose accumulated cost stays within `budget`,
/// exactly as `spec_segment` describes; chunks are numbered in emission
/// order.
pub fn segment_lines(lines: &Vec<String>, costs: &Vec<usize>, budget: usize) -> (chunks: Vec<
    Chunk,
>)
    requires
        costs@.len() == lines@.len(),
    ensures
        chunk_views(chunks@) == spec_segment(
            str_views(lines@),
            cost_views(costs@),
            budget as nat,
        ),
        forall|t: int| 0 <= t < chunks@.len() ==> (#[trigger] chunks@[t]).index == t,
{
    let ghost ls = str_views(lines@);
    let ghost cs = cost_views(costs@);
    let ghost b = budget as nat;
    let n = lines.len();
    let mut chunks: Vec<Chunk> = Vec::new();
    let mut i: usize = 0;
    proof {
        assert(ls.skip(0) =~= ls);
        assert(cs.skip(0) =~= cs);
        assert(chunk_views(chunks@) =~= Seq::<Seq<Seq<char>>>::empty());
    }
    while i < n
        invariant
            i <= n,
            n == lines@.len(),
            costs@.len() == lines@.len(),
            ls == str_views(lines@),
            cs == cost_views(costs@),
            b == budget as nat,
            spec_segment(ls, cs, b) == chunk_views(chunks@) + spec_segment(
                ls.skip(i as int),
                cs.skip(i as int),
                b,
            ),
            chunks@.len() <= i,
            forall|t: int| 0 <= t < chunks@.len() ==> (#[trigger] chunks@[t]).index == t,
        decreases n - i,
    {
        let mut chunk_lines: Vec<String> = Vec::new();
        chunk_lines.push(lines[i].clone());
        let mut total: usize = costs[i];
        let mut j: usize = i + 1;
        proof {
            assert(cs.skip(i as int)[0] == cs[i as int]);
            assert(cs.skip(i as int).skip(1) =~= cs.skip(i + 1));
            assert(sum_costs(cs.subrange(i as int, j as int)) == cs[i as int] + sum_costs(
                cs.subrange(i as int, j as int).skip(1),
            ));
            assert(cs.subrange(i as int, j as int).skip(1) =~= Seq::<nat>::empty());
            assert(chunk_lines@ =~= lines@.subrange(i as int, j as int));
        }
        while j < n && total <= budget && costs[j] <= budget - total
            invariant
                i < j <= n,
                n == lines@.len(),
                costs@.len() == lines@.len(),
                ls == str_views(lines@),
                cs == cost_views(costs@),
                b == budget as nat,
                total as nat == sum_costs(cs.subrange(i as int, j as int)),
                chunk_lines@ =~= lines@.subrange(i as int, j as int),
                total <= budget ==> take_len(cs.skip(i as int), b) == (j - i) + take_len(
                    cs.skip(j as int),
                    (b - total) as nat,
                ),
                total > budget ==> j == i + 1 && take_len(cs.skip(i as int), b) == 0,
            decreases n - j,
        {
            proof {
                assert(cs.skip(j as int)[0] == cs[j as int]);
                assert(cs.skip(j as int).skip(1) =~= cs.skip(j + 1));
                assert(cs.subrange(i as int, j + 1).drop_last() =~= cs.subrange(
                    i as int,
                    j as int,
                ));
                lemma_sum_costs_snoc(cs.subrange(i as int, j + 1));
            }
            chunk_lines.push(lines[j].clone());
            total = total + costs[j];
            j = j + 1;
            proof {
                assert(chunk_lines@ =~= lines@.subrange(i as int, j as int));
            }
        }
        let ghost k = (j - i) as int;
        proof {
            if total <= budget {
                if j == n {
                    assert(cs.skip(j as int) =~= Seq::<nat>::empty());
                    assert(take_len(cs.skip(j as int), (b - total) as nat) == 0);
                } else {
                    assert(cs.skip(j as int)[0] == cs[j as int]);
                    assert(take_len(cs.skip(j as int), (b - total) as nat) == 0);
                }
                assert(take_len(cs.skip(i as int), b) == k);
            }
            assert(vstd::math::min(
                first_chunk_len(cs.skip(i as int), b) as int,
                ls.skip(i as int).len() as int,
            ) == k);
            assert(ls.skip(i as int).take(k) =~= str_views(
                lines@.subrange(i as int, j as int),
            ));
            assert(ls.skip(i as int).skip(k) =~= ls.skip(j as int));
            assert(cs.skip(i as int).skip(k) =~= cs.skip(j as int));
        }
        let chunk = Chunk { index: chunks.len(), lines: chunk_lines };
        chunks.push(chunk);
        proof {
            assert(chunk_views(chunks@) =~= chunk_views(chunks@.drop_last()).push(
                str_views(chunks@.last().lines@),
            ));
            assert(chunk_views(chunks@) + spec_segment(ls.skip(j as int), cs.skip(j as int), b)
                =~= (chunk_views(chunks@.drop_last()) + spec_segment(
                ls.skip(i as int),
                cs.skip(i as int),
                b,
            )));
        }
        i = j;
    }
    proof {
        assert(ls.skip(n as int) =~= Seq::<Seq<char>>::empty());
        assert(spec_segment(ls.skip(n as int), cs.skip(n as int), b) =~= Seq::<
            Seq<Seq<char>>,
        >::empty());
        assert(chunk_views(chunks@) + Seq::<Seq<Seq<char>>>::empty() =~= chunk_views(chunks@));
    }
    chunks
}

/// The greedy fit never takes more items than there are.
proof fn lemma_take_len_le(costs: Seq<nat>, budget: nat)
    ensures
        take_len(costs, budget) <= costs.len(),
    decreases costs.len(),
{
    if costs.len() > 0 && costs[0] <= budget {
        lemma_take_len_le(costs.skip(1), (budget - costs[0]) as nat);
    }
}

/// The items the greedy fit takes cost no more than the budget.
proof fn lemma_take_len_sum(costs: Seq<nat>, budget: nat)
    ensures
        sum_costs(costs.take(take_len(costs, budget) as int)) <= budget,
    decreases costs.len(),
{
    lemma_take_len_le(costs, budget);
    if costs.len() == 0 || costs[0] > budget {
        assert(costs.take(0) =~= Seq::<nat>::empty());
    } else {
        let rem = (budget - costs[0]) as nat;
        lemma_take_len_sum(costs.skip(1), rem);
        lemma_take_len_le(costs.skip(1), rem);
        let t = take_len(costs.skip(1), rem) as int;
        assert(costs.take(1 + t)[0] == costs[0]);
        assert(costs.take(1 + t).skip(1) =~= costs.skip(1).take(t));
    }
}

/// No chunk the segmenter emits is empty: every chunk holds at least one
/// line.
pub proof fn lemma_segment_chunks_nonempty<A>(items: Seq<A>, costs: Seq<nat>, budget: nat)
    requires
        costs.len() == items.len(),
    ensures
        forall|i: int|
            0 <= i < spec_segment(items, costs, budget).len() ==> #[trigger] spec_segment(
                items,
                costs,
                budget,
            )[i].len() > 0,
    decreases items.len(),
{
    if items.len() > 0 {
        let k = vstd::math::min(first_chunk_len(costs, budget) as int, items.len() as int);
        lemma_segment_chunks_nonempty(items.skip(k), costs.skip(k), budget);
        assert(spec_segment(items, costs, budget)[0] == items.take(k));
        assert forall|i: int| 0 <= i < spec_segment(items, costs, budget).len() implies #[trigger]
            spec_segment(items, costs, budget)[i].len() > 0 by {
            if i > 0 {
                assert(spec_segment(items, costs, budget)[i] == spec_segment(
                    items.skip(k),
                    costs.skip(k),
                    budget,
                )[i - 1]);
            }
        }
    }
}

/// Concatenating the chunks' items in emission order reproduces the original
/// item list exactly.
pub proof fn lemma_segment_round_trip<A>(items: Seq<A>, costs: Seq<nat>, budget: nat)
    requires
        costs.len() == items.len(),
    ensures
        spec_segment(items, costs, budget).flatten() == items,
    decreases items.len(),
{
    if items.len() == 0 {
        assert(spec_segment(items, costs, budget).flatten() =~= items);
    } else {
        let k = vstd::math::min(first_chunk_len(costs, budget) as int, items.len() as int);
        lemma_segment_round_trip(items.skip(k), costs.skip(k), budget);
        vstd::seq_lib::lemma_flatten_concat(
            seq![items.take(k)],
            spec_segment(items.skip(k), costs.skip(k), budget),
        );
        seq![items.take(k)].lemma_flatten_one_element();
        assert(items.take(k) + items.skip(k) =~= items);
    }
}

/// Every chunk's total token cost stays within the budget, except that a
/// chunk holding a single item may exceed it: the budget bounds accumulation,
/// never an individual item.
pub proof fn lemma_segment_within_budget(costs: Seq<nat>, budget: nat)
    ensures
        forall|i: int|
            0 <= i < spec_segment(costs, costs, budget).len() ==> (#[trigger] spec_segment(
                costs,
                costs,
                budget,
            )[i]).len() == 1 || sum_costs(spec_segment(costs, costs, budget)[i]) <= budget,
    decreases costs.len(),
{
    if costs.len() > 0 {
        let k = vstd::math::min(first_chunk_len(costs, budget) as int, costs.len() as int);
        lemma_segment_within_budget(costs.skip(k), budget);
        assert(spec_segment(costs, costs, budget)[0] == costs.take(k));
        if k != 1 {
            lemma_take_len_le(costs, budget);
            assert(k == take_len(costs, budget));
            lemma_take_len_sum(costs, budget);
        }
        assert forall|i: int| 0 <= i < spec_segment(costs, costs, budget).len() implies (
        #[trigger] spec_segment(costs, costs, budget)[i]).len() == 1 || sum_costs(
            spec_segment(costs, costs, budget)[i],
        ) <= budget by {
            if i > 0 {
                assert(spec_segment(costs, costs, budget)[i] == spec_segment(
                    costs.skip(k),
                    costs.skip(k),
                    budget,
                )[i - 1]);
            }
        }
    }
}

/// The segmentation of the lines and the segmentation of their costs cut at
/// the same places: chunk for chunk, they have the same lengths, so the cost
/// of a line chunk is the sum of the matching cost chunk.
pub proof fn lemma_segment_same_shape<A, B>(xs: Seq<A>, ys: Seq<B>, costs: Seq<nat>, budget: nat)
    requires
        xs.len() == ys.len(),
    ensures
        spec_segment(xs, costs, budget).len() == spec_segment(ys, costs, budget).len(),
        forall|i: int|
            0 <= i < spec_segment(xs, costs, budget).len() ==> (#[trigger] spec_segment(
                xs,
                costs,
                budget,
            )[i]).len() == spec_segment(ys, costs, budget)[i].len(),
    decreases xs.len(),
{
    if xs.len() > 0 {
        let k = vstd::math::min(first_chunk_len(costs, budget) as int, xs.len() as int);
        lemma_segment_same_shape(xs.skip(k), ys.skip(k), costs.skip(k), budget);
        assert(spec_segment(xs, costs, budget)[0] == xs.take(k));
        assert(spec_segment(ys, costs, budget)[0] == ys.take(k));
        assert forall|i: int| 0 <= i < spec_segment(xs, costs, budget).len() implies (
        #[trigger] spec_segment(xs, costs, budget)[i]).len() == spec_segment(
            ys,
            costs,
            budget,
        )[i].len() by {
            if i > 0 {
                assert(spec_segment(xs, costs, budget)[i] == spec_segment(
                    xs.skip(k),
                    costs.skip(k),
                    budget,
                )[i - 1]);
                assert(spec_segment(ys, costs, budget)[i] == spec_segment(
                    ys.skip(k),
                    costs.skip(k),
                    budget,
                )[i - 1]);
            }
        }
    }
}

/// Chunk emission is deterministic: for one input, one cost assignment and
/// one budget there is exactly one segmentation, so any two chunk lists that
/// meet the segmenter's contract agree.
pub proof fn lemma_segment_deterministic(
    a: Seq<Chunk>,
    b: Seq<Chunk>,
    lines: Seq<Seq<char>>,
    costs: Seq<nat>,
    budget: nat,
)
    requires
        chunk_views(a) == spec_segment(lines, costs, budget),
        chunk_views(b) == spec_segment(lines, costs, budget),
    ensures
        chunk_views(a) == chunk_views(b),
{
}

/// The cost of a sequence extended at the end.
proof fn lemma_sum_costs_snoc(costs: Seq<nat>)
    requires
        costs.len() > 0,
    ensures
        sum_costs(costs) == sum_costs(costs.drop_last()) + costs.last(),
    decreases costs.len(),
{
    if costs.len() == 1 {
        assert(costs.drop_last() =~= Seq::<nat>::empty());
        assert(costs.skip(1) =~= Seq::<nat>::empty());
    } else {
        assert(costs.skip(1).drop_last() =~= costs.drop_last().skip(1));
        assert(costs.drop_last()[0] == costs[0]);
        assert(costs.skip(1).last() == costs.last());
        lemma_sum_costs_snoc(costs.skip(1));
    }
}

} // verus!
