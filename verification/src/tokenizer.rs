//! Token counting, and the chunking of text lines under the token budget.
//!
//! The token cost of a line comes from the `cl100k_base` byte-pair encoding;
//! the segmenter itself is verified against those counts, whatever they are.

use crate::segment::Chunk;
use crate::segment::chunk_views;
use crate::segment::segment_lines;
use crate::segment::spec_segment;
use crate::segment::str_views;
use vstd::prelude::*;

verus! {

/// How many tokens a chunk may accumulate before it is closed.
pub const TOKEN_BUDGET: usize = 500;

/// The number of `cl100k_base` tokens of a text.  The encoding is a fixed
/// table, so the count is a function of the text alone.
pub uninterp spec fn token_count_of(s: Seq<char>) -> nat;

/// Relies on `tiktoken_rs::cl100k_base` and `CoreBPE::encode_ordinary`: the
/// encoder is parsed from a constant table embedded in the crate — it reads
/// nothing else, so building it succeeds and the token count depends on the
/// text alone.
#[verifier::external_body]
fn count_tokens(line: &str) -> (n: Option<usize>)
    ensures
        n is Some,
        n matches Some(c) ==> c == token_count_of(line@),
{
    match tiktoken_rs::cl100k_base() {
        Ok(bpe) => Some(bpe.encode_ordinary(line).len()),
        Err(_) => None,
    }
}

/// The token costs the segmenter runs on: each line's count, as counted by
/// the tokenizer.
pub open spec fn spec_token_costs(lines: Seq<Seq<char>>) -> Seq<nat> {
    lines.map_values(|l: Seq<char>| token_count_of(l))
}

/// Splits `lines` into chunks of at most `TOKEN_BUDGET` accumulated tokens,
/// counting tokens with the `cl100k_base` encoding.
pub fn chunk_text(lines: &Vec<String>) -> (chunks: Vec<Chunk>)
    ensures
        chunk_views(chunks@) == spec_segment(
            str_views(lines@),
            spec_token_costs(str_views(lines@)),
            TOKEN_BUDGET as nat,
        ),
        forall|t: int| 0 <= t < chunks@.len() ==> (#[trigger] chunks@[t]).index == t,
{
    let n = lines.len();
    let mut costs: Vec<usize> = Vec::new();
    let mut i: usize = 0;
    while i < n
        invariant
            i <= n,
            n == lines@.len(),
            costs@.len() == i,
            forall|k: int|
                0 <= k < i ==> (#[trigger] costs@[k]) as nat == token_count_of(lines@[k]@),
        decreases n - i,
    {
        match count_tokens(lines[i].as_str()) {
            Some(c) => costs.push(c),
            None => vstd::pervasive::unreached(),
        }
        i = i + 1;
    }
    let chunks = segment_lines(lines, &costs, TOKEN_BUDGET);
    proof {
        assert(crate::segment::cost_views(costs@) =~= spec_token_costs(str_views(lines@)));
    }
    chunks
}

} // verus!
