//! Assembly of the per-chunk audio files into one output, and the cleanup of
//! the temporary artifacts afterwards.
//!
//! The assembler is handed the names found in the output directory.  It keeps
//! those matching the per-chunk pattern, sorts them lexically — which, by the
//! zero-padded naming, is chunk emission order — and builds the argument list
//! for the external concatenation tool.  Cleanup selects every file carrying
//! the temporary prefix.

use crate::naming::lemma_lex_lt_trans;
use crate::naming::lemma_lex_trichotomy;
use crate::naming::lex_le;
use crate::naming::push_decimal;
use crate::naming::spec_decimal;
use crate::naming::spec_is_chunk_artifact_name;
use crate::naming::spec_is_tmp_name;
use crate::naming::is_chunk_artifact_name;
use crate::naming::is_tmp_name;
use crate::naming::str_lex_lt;
use crate::pipeline::PipelineError;
use crate::segment::str_views;
use vstd::multiset::Multiset;
use vstd::prelude::*;
use vstd::string::*;

verus! {

broadcast use {vstd::seq_lib::group_to_multiset_ensures, vstd::multiset::group_multiset_axioms};

/// The predicate a name must meet to count as a per-chunk audio file.
pub open spec fn chunk_name_pred() -> spec_fn(String) -> bool {
    |n: String| spec_is_chunk_artifact_name(n@)
}

/// The predicate a name must meet to be removed by cleanup.
pub open spec fn tmp_name_pred() -> spec_fn(String) -> bool {
    |n: String| spec_is_tmp_name(n@)
}

/// Name views in weakly increasing lexicographic order.
pub open spec fn spec_lex_sorted(names: Seq<Seq<char>>) -> bool {
    forall|i: int, j: int| 0 <= i < j < names.len() ==> lex_le(#[trigger] names[i], #[trigger] names[j])
}

/// Keeps the names that match the per-chunk audio file pattern, in order.
pub fn filter_chunk_names(names: &Vec<String>) -> (r: Vec<String>)
    ensures
        r@ == names@.filter(chunk_name_pred()),
{
    let mut r: Vec<String> = Vec::new();
    let n = names.len();
    let mut i: usize = 0;
    proof {
        assert(names@.take(0) =~= Seq::<String>::empty());
        assert(names@.take(0).filter(chunk_name_pred()) =~= Seq::<String>::empty());
    }
    while i < n
        invariant
            i <= n,
            n == names@.len(),
            r@ == names@.take(i as int).filter(chunk_name_pred()),
        decreases n - i,
    {
        proof {
            names@.lemma_take_succ_push(i as int);
            names@.take(i as int).lemma_filter_push(names@[i as int], chunk_name_pred());
        }
        if is_chunk_artifact_name(names[i].as_str()) {
            r.push(names[i].clone());
        }
        i = i + 1;
    }
    proof {
        assert(names@.take(n as int) =~= names@);
    }
    r
}

/// Keeps the names that carry the temporary prefix, in order: the files that
/// cleanup removes after a successful assembly.
pub fn select_cleanup_files(names: &Vec<String>) -> (r: Vec<String>)
    ensures
        r@ == names@.filter(tmp_name_pred()),
{
    let mut r: Vec<String> = Vec::new();
    let n = names.len();
    let mut i: usize = 0;
    proof {
        assert(names@.take(0) =~= Seq::<String>::empty());
        assert(names@.take(0).filter(tmp_name_pred()) =~= Seq::<String>::empty());
    }
    while i < n
        invariant
            i <= n,
            n == names@.len(),
            r@ == names@.take(i as int).filter(tmp_name_pred()),
        decreases n - i,
    {
        proof {
            names@.lemma_take_succ_push(i as int);
            names@.take(i as int).lemma_filter_push(names@[i as int], tmp_name_pred());
        }
        if is_tmp_name(names[i].as_str()) {
            r.push(names[i].clone());
        }
        i = i + 1;
    }
    proof {
        assert(names@.take(n as int) =~= names@);
    }
    r
}

/// Sorts names into lexicographic order; the result holds exactly the given
/// names.
pub fn sort_names(v: Vec<String>) -> (r: Vec<String>)
    ensures
        r@.to_multiset() == v@.to_multiset(),
        spec_lex_sorted(str_views(r@)),
{
    let mut src = v;
    let mut out: Vec<String> = Vec::new();
    proof {
        assert(out@.to_multiset().add(src@.to_multiset()) =~= v@.to_multiset());
    }
    while src.len() > 0
        invariant
            out@.to_multiset().add(src@.to_multiset()) == v@.to_multiset(),
            spec_lex_sorted(str_views(out@)),
            forall|x: int, y: int|
                0 <= x < out@.len() && 0 <= y < src@.len() ==> lex_le(
                    #[trigger] out@[x]@,
                    #[trigger] src@[y]@,
                ),
        decreases src.len(),
    {
        let mut m: usize = 0;
        let mut t: usize = 1;
        while t < src.len()
            invariant
                src@.len() > 0,
                m < t <= src@.len(),
                forall|k: int| 0 <= k < t ==> lex_le(src@[m as int]@, #[trigger] src@[k]@),
            decreases src@.len() - t,
        {
            if str_lex_lt(src[t].as_str(), src[m].as_str()) {
                proof {
                    assert forall|k: int| 0 <= k < t + 1 implies lex_le(
                        src@[t as int]@,
                        #[trigger] src@[k]@,
                    ) by {
                        if k < t {
                            if src@[m as int]@ != src@[k]@ {
                                lemma_lex_lt_trans(src@[t as int]@, src@[m as int]@, src@[k]@);
                            }
                        }
                    }
                }
                m = t;
            } else {
                proof {
                    lemma_lex_trichotomy(src@[t as int]@, src@[m as int]@);
                }
            }
            t = t + 1;
        }
        let ghost src0 = src@;
        let s = src.remove(m);
        proof {
            assert(out@.to_multiset().insert(s).add(src@.to_multiset()) =~= out@.to_multiset().add(
                src0.to_multiset(),
            ));
            assert forall|y: int| 0 <= y < src@.len() implies lex_le(s@, #[trigger] src@[y]@) by {
                if y < m {
                    assert(src@[y] == src0[y]);
                } else {
                    assert(src@[y] == src0[y + 1]);
                }
            }
        }
        let ghost out0 = out@;
        out.push(s);
        proof {
            assert(out@ =~= out0.push(s));
            assert(s == src0[m as int]);
            assert forall|x: int, y: int|
                0 <= x < y < out@.len() implies lex_le(
                #[trigger] str_views(out@)[x],
                #[trigger] str_views(out@)[y],
            ) by {
                assert(str_views(out@)[x] == out@[x]@);
                assert(str_views(out@)[y] == out@[y]@);
                if y < out0.len() {
                    assert(out@[x] == out0[x]);
                    assert(out@[y] == out0[y]);
                    assert(lex_le(str_views(out0)[x], str_views(out0)[y]));
                    assert(str_views(out0)[x] == out0[x]@);
                    assert(str_views(out0)[y] == out0[y]@);
                } else {
                    assert(out@[y] == s);
                    assert(out@[x] == out0[x]);
                    assert(lex_le(out0[x]@, src0[m as int]@));
                }
            }
            assert forall|x: int, y: int|
                0 <= x < out@.len() && 0 <= y < src@.len() implies lex_le(
                #[trigger] out@[x]@,
                #[trigger] src@[y]@,
            ) by {
                if x < out0.len() {
                    assert(out@[x] == out0[x]);
                    if y < m {
                        assert(src@[y] == src0[y]);
                        assert(lex_le(out0[x]@, src0[y]@));
                    } else {
                        assert(src@[y] == src0[y + 1]);
                        assert(lex_le(out0[x]@, src0[y + 1]@));
                    }
                } else {
                    assert(out@[x] == s);
                    assert(lex_le(s@, src@[y]@));
                }
            }
        }
    }
    proof {
        assert(src@.to_multiset() =~= Multiset::<String>::empty());
        assert(out@.to_multiset().add(src@.to_multiset()) =~= out@.to_multiset());
    }
    out
}

/// A file path under the output directory.
pub open spec fn spec_join_path(dir: Seq<char>, name: Seq<char>) -> Seq<char> {
    dir + "/"@ + name
}

/// Joins `dir` and `name` into one path.
pub fn join_path(dir: &str, name: &str) -> (r: String)
    ensures
        r@ == spec_join_path(dir@, name@),
{
    let mut r = String::from_str(dir);
    r.append("/");
    r.append(name);
    proof {
        assert(r@ =~= spec_join_path(dir@, name@));
    }
    r
}

/// The name of the final assembled audio file for a run over `base`.
pub open spec fn spec_assembled_file_name(base: Seq<char>) -> Seq<char> {
    base + ".flac"@
}

/// Builds the assembled audio file's name from the input's base name.
pub fn assembled_file_name(base: &str) -> (r: String)
    ensures
        r@ == spec_assembled_file_name(base@),
{
    let mut r = String::from_str(base);
    r.append(".flac");
    r
}

/// The filter description handed to the concatenation tool for `n` inputs:
/// merge `n` audio streams into one.
pub open spec fn spec_concat_filter(n: nat) -> Seq<char> {
    "concat=n="@ + spec_decimal(n) + ":v=0:a=1[outa]"@
}

/// The whole argument list of one concatenation invocation: each input
/// preceded by its flag, then the filter, the mapping of its output, the
/// audio codec, the overwrite flag, and the output path.
pub open spec fn spec_concat_args(args: Seq<String>, inputs: Seq<Seq<char>>, out_path: Seq<char>) -> bool {
    let n = inputs.len() as int;
    &&& args.len() == 2 * n + 8
    &&& forall|i: int|
        0 <= i < n ==> (#[trigger] args[2 * i])@ == "-i"@ && args[2 * i + 1]@ == inputs[i]
    &&& args[2 * n]@ == "-filter_complex"@
    &&& args[2 * n + 1]@ == spec_concat_filter(inputs.len())
    &&& args[2 * n + 2]@ == "-map"@
    &&& args[2 * n + 3]@ == "[outa]"@
    &&& args[2 * n + 4]@ == "-c:a"@
    &&& args[2 * n + 5]@ == "flac"@
    &&& args[2 * n + 6]@ == "-y"@
    &&& args[2 * n + 7]@ == out_path
}

/// The first `i` input pairs of a concatenation argument list are in place.
pub open spec fn spec_input_args_ok(args: Seq<String>, inputs: Seq<String>, i: int) -> bool {
    &&& forall|k: int| 0 <= k < i ==> (#[trigger] args[2 * k])@ == "-i"@
    &&& forall|k: int| 0 <= k < i ==> (#[trigger] args[2 * k + 1])@ == inputs[k]@
}

/// Reads one input pair off `spec_input_args_ok`.
proof fn lemma_input_args_at(args: Seq<String>, inputs: Seq<String>, i: int, k: int)
    requires
        spec_input_args_ok(args, inputs, i),
        0 <= k < i,
    ensures
        args[2 * k]@ == "-i"@,
        args[2 * k + 1]@ == inputs[k]@,
{
    assert(args[2 * k]@ == "-i"@);
    assert(args[2 * k + 1]@ == inputs[k]@);
}

/// Builds the argument list that concatenates `input_paths` losslessly into
/// `out_path`, in the given order, overwriting any existing output.
pub fn ffmpeg_concat_args(input_paths: &Vec<String>, out_path: &str) -> (args: Vec<String>)
    ensures
        spec_concat_args(args@, str_views(input_paths@), out_path@),
{
    let n = input_paths.len();
    let mut args: Vec<String> = Vec::new();
    let mut i: usize = 0;
    while i < n
        invariant
            i <= n,
            n == input_paths@.len(),
            args@.len() == 2 * i,
            spec_input_args_ok(args@, input_paths@, i as int),
        decreases n - i,
    {
        let ghost args0 = args@;
        args.push(String::from_str("-i"));
        let ghost args1 = args@;
        args.push(input_paths[i].clone());
        proof {
            assert(args1[2 * (i as int)]@ == "-i"@);
            assert(args@[2 * (i as int)] == args1[2 * (i as int)]);
            assert(args@[2 * (i as int) + 1] == input_paths@[i as int]);
            assert forall|k: int| 0 <= k < i + 1 implies (#[trigger] args@[2 * k])@ == "-i"@ by {
                if k < i {
                    assert(args@[2 * k] == args0[2 * k]);
                }
            }
            assert forall|k: int|
                0 <= k < i + 1 implies (#[trigger] args@[2 * k + 1])@ == input_paths@[k]@ by {
                if k < i {
                    assert(args@[2 * k + 1] == args0[2 * k + 1]);
                }
            }
            assert(spec_input_args_ok(args@, input_paths@, i + 1));
        }
        i = i + 1;
    }
    let mut filter = String::from_str("concat=n=");
    push_decimal(&mut filter, n);
    filter.append(":v=0:a=1[outa]");
    proof {
        assert(filter@ =~= spec_concat_filter(n as nat));
    }
    let mut tail: Vec<String> = Vec::new();
    tail.push(String::from_str("-filter_complex"));
    tail.push(filter);
    tail.push(String::from_str("-map"));
    tail.push(String::from_str("[outa]"));
    tail.push(String::from_str("-c:a"));
    tail.push(String::from_str("flac"));
    tail.push(String::from_str("-y"));
    tail.push(String::from_str(out_path));
    let ghost base = args@;
    args.append(&mut tail);
    proof {
        assert forall|k: int|
            0 <= k < n implies (#[trigger] args@[2 * k])@ == "-i"@ && args@[2 * k + 1]@
            == str_views(input_paths@)[k] by {
            assert(spec_input_args_ok(base, input_paths@, n as int));
            lemma_input_args_at(base, input_paths@, n as int, k);
            assert(args@[2 * k] == base[2 * k]);
            assert(args@[2 * k + 1] == base[2 * k + 1]);
            assert(str_views(input_paths@)[k] == input_paths@[k]@);
        }
    }
    args
}

/// One planned assembly: the matching chunk files in playback order, the
/// output file, and the external tool's argument list.
pub struct AssemblyPlan {
    /// The matching per-chunk file names, lexically sorted, i.e. in chunk
    /// index order.
    pub inputs: Vec<String>,
    /// The assembled file's name, after the input's base name.
    pub output_name: String,
    /// The assembled file's path under the output directory.
    pub output_path: String,
    /// The concatenation tool's full argument list.
    pub args: Vec<String>,
}

/// Plans the assembly of the chunk files found in the output directory:
/// keeps the names matching the per-chunk pattern, sorts them into chunk
/// order, and lays out the tool invocation.  A directory without a single
/// matching file is an error.
pub fn plan_assembly(names: &Vec<String>, dir: &str, base: &str) -> (r: Result<
    AssemblyPlan,
    PipelineError,
>)
    ensures
        names@.filter(chunk_name_pred()).len() == 0 <==> (r matches Err(
            PipelineError::NoChunksFound,
        )),
        names@.filter(chunk_name_pred()).len() > 0 ==> r is Ok,
        r matches Ok(plan) ==> {
            &&& plan.inputs@.to_multiset() == names@.filter(chunk_name_pred()).to_multiset()
            &&& plan.inputs@.len() == names@.filter(chunk_name_pred()).len()
            &&& spec_lex_sorted(str_views(plan.inputs@))
            &&& plan.output_name@ == spec_assembled_file_name(base@)
            &&& plan.output_path@ == spec_join_path(dir@, spec_assembled_file_name(base@))
            &&& spec_concat_args(
                plan.args@,
                str_views(plan.inputs@).map_values(|n: Seq<char>| spec_join_path(dir@, n)),
                spec_join_path(dir@, spec_assembled_file_name(base@)),
            )
        },
{
    let matching = filter_chunk_names(names);
    proof {
        names@.lemma_filter_len(chunk_name_pred());
    }
    if matching.len() == 0 {
        return Err(PipelineError::NoChunksFound);
    }
    let inputs = sort_names(matching);
    proof {
        vstd::seq_lib::to_multiset_len(inputs@);
        vstd::seq_lib::to_multiset_len(names@.filter(chunk_name_pred()));
    }
    let n = inputs.len();
    let mut input_paths: Vec<String> = Vec::new();
    let mut i: usize = 0;
    while i < n
        invariant
            i <= n,
            n == inputs@.len(),
            input_paths@.len() == i,
            forall|k: int|
                0 <= k < i ==> (#[trigger] input_paths@[k])@ == spec_join_path(
                    dir@,
                    inputs@[k]@,
                ),
        decreases n - i,
    {
        input_paths.push(join_path(dir, inputs[i].as_str()));
        i = i + 1;
    }
    let output_name = assembled_file_name(base);
    let output_path = join_path(dir, output_name.as_str());
    let args = ffmpeg_concat_args(&input_paths, output_path.as_str());
    proof {
        assert(str_views(input_paths@) =~= str_views(inputs@).map_values(
            |nm: Seq<char>| spec_join_path(dir@, nm),
        ));
    }
    Ok(AssemblyPlan { inputs, output_name, output_path, args })
}

/// Reads the external tool's exit: only a zero exit code counts as success;
/// any other exit, or death without a code, surfaces as a tool error
/// carrying the code.
pub fn interpret_tool_status(code: Option<i32>) -> (r: Result<(), PipelineError>)
    ensures
        code == Some(0i32) <==> r matches Ok(_),
        code != Some(0i32) ==> (r matches Err(PipelineError::ExternalToolError { code: c }) && c
            == code),
{
    match code {
        Some(c) => {
            if c == 0 {
                Ok(())
            } else {
                Err(PipelineError::ExternalToolError { code: Some(c) })
            }
        },
        None => Err(PipelineError::ExternalToolError { code: None }),
    }
}

} // verus!
