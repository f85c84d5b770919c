use tts_pipeline::assemble::assembled_file_name;
use tts_pipeline::assemble::ffmpeg_concat_args;
use tts_pipeline::assemble::filter_chunk_names;
use tts_pipeline::assemble::interpret_tool_status;
use tts_pipeline::assemble::join_path;
use tts_pipeline::assemble::plan_assembly;
use tts_pipeline::assemble::select_cleanup_files;
use tts_pipeline::assemble::sort_names;
use tts_pipeline::naming::chunk_file_name;
use tts_pipeline::pipeline::PipelineError;

fn lines(v: &[&str]) -> Vec<String> {
    v.iter().map(|s| s.to_string()).collect()
}

#[test]
fn plan_finds_exactly_the_chunk_files_in_order() {
    // Scenario: a successful run over three chunks left three temporary
    // files; the assembler finds exactly those three, in index order, and
    // one tool invocation writing the output named after the base name.
    let ts = "202401010101";
    let c0 = chunk_file_name(ts, 0);
    let c1 = chunk_file_name(ts, 1);
    let c2 = chunk_file_name(ts, 2);
    let names = lines(&[c2.as_str(), "notes.txt", c0.as_str(), "cover.jpg", c1.as_str()]);
    let plan = plan_assembly(&names, "book", "book").expect("three chunk files are present");
    assert_eq!(plan.inputs, vec![c0.clone(), c1.clone(), c2.clone()]);
    assert_eq!(plan.output_name, "book.flac");
    assert_eq!(plan.output_path, "book/book.flac");
    let expected_args: Vec<String> = lines(&[
        "-i",
        &format!("book/{}", c0),
        "-i",
        &format!("book/{}", c1),
        "-i",
        &format!("book/{}", c2),
        "-filter_complex",
        "concat=n=3:v=0:a=1[outa]",
        "-map",
        "[outa]",
        "-c:a",
        "flac",
        "-y",
        "book/book.flac",
    ]);
    assert_eq!(plan.args, expected_args);
}

#[test]
fn plan_without_chunk_files_is_an_error() {
    let names = lines(&["notes.txt", "book.flac"]);
    match plan_assembly(&names, "book", "book") {
        Err(PipelineError::NoChunksFound) => {}
        other => panic!("expected no-chunks-found, got {:?}", other.map(|p| p.args)),
    }
}

#[test]
fn previous_output_is_not_mistaken_for_a_chunk() {
    // The assembled file of an earlier run does not match the temporary
    // pattern and is never concatenated into the new output.
    let ts = "202401010101";
    let c0 = chunk_file_name(ts, 0);
    let names = lines(&["book.flac", c0.as_str()]);
    let plan = plan_assembly(&names, "book", "book").expect("one chunk file is present");
    assert_eq!(plan.inputs, vec![c0]);
}

#[test]
fn ffmpeg_args_for_two_inputs() {
    let inputs = lines(&["d/a.flac", "d/b.flac"]);
    let args = ffmpeg_concat_args(&inputs, "d/out.flac");
    let expected: Vec<String> = lines(&[
        "-i",
        "d/a.flac",
        "-i",
        "d/b.flac",
        "-filter_complex",
        "concat=n=2:v=0:a=1[outa]",
        "-map",
        "[outa]",
        "-c:a",
        "flac",
        "-y",
        "d/out.flac",
    ]);
    assert_eq!(args, expected);
}

#[test]
fn filter_and_sort() {
    let names = lines(&["tmp_b.flac", "x.txt", "tmp_a.flac", "tmp_c.txt"]);
    let kept = filter_chunk_names(&names);
    assert_eq!(kept, lines(&["tmp_b.flac", "tmp_a.flac"]));
    let sorted = sort_names(kept);
    assert_eq!(sorted, lines(&["tmp_a.flac", "tmp_b.flac"]));
}

#[test]
fn cleanup_selects_exactly_the_temporary_files() {
    // Scenario: after assembly, cleanup removes the three temporary chunk
    // files and leaves the final output intact.
    let ts = "202401010101";
    let c0 = chunk_file_name(ts, 0);
    let c1 = chunk_file_name(ts, 1);
    let c2 = chunk_file_name(ts, 2);
    let names = lines(&[c0.as_str(), c1.as_str(), c2.as_str(), "book.flac", "notes.txt"]);
    let doomed = select_cleanup_files(&names);
    assert_eq!(doomed, vec![c0, c1, c2]);
    assert!(!doomed.iter().any(|n| n == "book.flac"));
}

#[test]
fn tool_status_interpretation() {
    assert!(interpret_tool_status(Some(0)).is_ok());
    match interpret_tool_status(Some(1)) {
        Err(PipelineError::ExternalToolError { code }) => assert_eq!(code, Some(1)),
        other => panic!("expected a tool error, got {:?}", other),
    }
    match interpret_tool_status(None) {
        Err(PipelineError::ExternalToolError { code }) => assert_eq!(code, None),
        other => panic!("expected a tool error, got {:?}", other),
    }
}

#[test]
fn path_helpers() {
    assert_eq!(join_path("book", "a.flac"), "book/a.flac");
    assert_eq!(assembled_file_name("book"), "book.flac");
}

#[test]
fn tmp_named_output_of_prior_run_is_not_a_chunk() {
    // An assembled output whose base name starts with `tmp` (e.g. from an
    // input file called tmpbook.txt) does not match the chunk pattern: it is
    // neither concatenated as an input nor removed by cleanup.
    let ts = "202401010101";
    let c0 = chunk_file_name(ts, 0);
    let names = lines(&["tmpbook.flac", c0.as_str()]);
    let plan = plan_assembly(&names, "tmpbook", "tmpbook").expect("one chunk file is present");
    assert_eq!(plan.inputs, vec![c0.clone()]);
    let doomed = select_cleanup_files(&names);
    assert_eq!(doomed, vec![c0]);
}
