//! A verified core for a text-to-speech batch pipeline: token-bounded text
//! segmentation, the per-chunk request/persist cycle with its ordering and
//! abort semantics, and deterministic reassembly of the per-chunk outputs.

pub mod assemble;
pub mod naming;
pub mod pipeline;
pub mod segment;
pub mod text;
pub mod tokenizer;

use vstd::prelude::*;
use vstd::string::*;

verus! {

/// Wraps `text` in the ANSI escape codes for bright green console output.
pub fn green_text(text: &str) -> (r: String)
    ensures
        r@ == "\x1b[92m"@ + text@ + "\x1b[0m"@,
{
    let mut r = String::from_str("\x1b[92m");
    r.append(text);
    r.append("\x1b[0m");
    r
}

} // verus!
