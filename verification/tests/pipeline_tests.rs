use tts_pipeline::pipeline::Model;
use tts_pipeline::pipeline::Phase;
use tts_pipeline::pipeline::Pipeline;
use tts_pipeline::pipeline::PipelineError;
use tts_pipeline::pipeline::RunContext;
use tts_pipeline::pipeline::SynthesisOutcome;
use tts_pipeline::pipeline::Voice;
use tts_pipeline::pipeline::resolve_api_key;
use tts_pipeline::segment::segment_lines;

fn lines(v: &[&str]) -> Vec<String> {
    v.iter().map(|s| s.to_string()).collect()
}

fn fixed_ctx() -> RunContext {
    RunContext {
        model: Model::Tts1Hd,
        voice: Voice::Fable,
        api_key: "test-key".to_string(),
        timestamp: "202401010101".to_string(),
    }
}

#[test]
fn model_and_voice_names() {
    assert_eq!(Model::Tts1.as_str(), "tts-1");
    assert_eq!(Model::Tts1Hd.as_str(), "tts-1-hd");
    assert_eq!(Model::from_name("tts-1-hd"), Some(Model::Tts1Hd));
    assert_eq!(Model::from_name("tts-1"), Some(Model::Tts1));
    assert_eq!(Model::from_name("tts-2"), None);
    assert_eq!(Voice::from_name("fable"), Some(Voice::Fable));
    assert_eq!(Voice::from_name("alloy"), Some(Voice::Alloy));
    assert_eq!(Voice::from_name("echo"), Some(Voice::Echo));
    assert_eq!(Voice::from_name("onyx"), Some(Voice::Onyx));
    assert_eq!(Voice::from_name("nova"), Some(Voice::Nova));
    assert_eq!(Voice::from_name("shimmer"), Some(Voice::Shimmer));
    assert_eq!(Voice::from_name("bass"), None);
    assert_eq!(Voice::Shimmer.as_str(), "shimmer");
}

#[test]
fn api_key_resolution() {
    assert_eq!(
        resolve_api_key(Some("flag".to_string()), Some("env".to_string())),
        Ok("flag".to_string())
    );
    assert_eq!(
        resolve_api_key(None, Some("env".to_string())),
        Ok("env".to_string())
    );
    match resolve_api_key(None, None) {
        Err(PipelineError::InputError { message }) => {
            assert_eq!(
                message,
                "OpenAI API key not provided. Set it via the --apikey flag or the OPENAI_API_KEY environment variable."
            );
        }
        other => panic!("expected an input error, got {:?}", other),
    }
}

#[test]
fn error_messages() {
    let remote = PipelineError::RemoteError {
        message: Some("rate limited".to_string()),
    };
    assert_eq!(remote.message(), "OpenAI API error: rate limited");
    let unknown = PipelineError::RemoteError { message: None };
    assert_eq!(unknown.message(), "Unknown OpenAI API error");
    let too_large = PipelineError::ChunkTooLarge {
        index: 1,
        preview: "abc".to_string(),
    };
    assert_eq!(
        too_large.message(),
        "Chunk 000001: abc is more than 4000 characters, please make it shorter"
    );
    assert_eq!(
        PipelineError::ExternalToolError { code: Some(1) }.message(),
        "ffmpeg command failed"
    );
}

#[test]
fn full_run_over_three_chunks() {
    let ls = lines(&["one", "two", "three"]);
    let chunks = segment_lines(&ls, &vec![400, 400, 400], 500);
    let mut p = Pipeline::new(chunks, fixed_ctx());
    for i in 0..3usize {
        let req = p.next_request().expect("no failure").expect("one more chunk");
        assert_eq!(req.index, i);
        assert_eq!(req.total, 3);
        assert_eq!(req.model, Model::Tts1Hd);
        assert_eq!(req.voice, Voice::Fable);
        assert_eq!(
            req.file_name,
            format!("tmp_202401010101_chunk00000{}.flac", i)
        );
        assert!(p.record_outcome(SynthesisOutcome::Saved).is_ok());
    }
    let done = p.next_request().expect("no failure");
    assert!(done.is_none());
    assert_eq!(p.phase, Phase::Done);
}

#[test]
fn request_carries_joined_text_and_preview() {
    let ls = lines(&["one", "two"]);
    let chunks = segment_lines(&ls, &vec![10, 10], 500);
    let mut p = Pipeline::new(chunks, fixed_ctx());
    let req = p.next_request().unwrap().unwrap();
    assert_eq!(req.text, "one two");
    assert_eq!(req.preview, "one two");
}

#[test]
fn oversized_chunk_rejected_before_any_request() {
    // A joined text over 4000 characters fails locally: no request is handed
    // out for it, and the surfaced preview is the first 60 characters.
    let big = "x".repeat(4001);
    let ls = lines(&[big.as_str()]);
    let chunks = segment_lines(&ls, &vec![1], 500);
    let mut p = Pipeline::new(chunks, fixed_ctx());
    match p.next_request() {
        Err(PipelineError::ChunkTooLarge { index, preview }) => {
            assert_eq!(index, 0);
            assert_eq!(preview, "x".repeat(60));
        }
        other => panic!("expected a chunk-too-large failure, got {:?}", other.map(|_| ())),
    }
    assert_eq!(p.phase, Phase::Failed);
}

#[test]
fn boundary_chunk_of_4000_chars_is_accepted() {
    let big = "x".repeat(4000);
    let ls = lines(&[big.as_str()]);
    let chunks = segment_lines(&ls, &vec![1], 500);
    let mut p = Pipeline::new(chunks, fixed_ctx());
    let req = p.next_request().expect("no failure").expect("one chunk");
    assert_eq!(req.text.len(), 4000);
}

#[test]
fn remote_failure_aborts_after_first_saved_chunk() {
    // Scenario: chunk 1 is synthesized and saved; the remote call for chunk 2
    // fails with "rate limited"; the run aborts, chunk 3 is never attempted,
    // and the surfaced error carries the message verbatim.
    let ls = lines(&["one", "two", "three"]);
    let chunks = segment_lines(&ls, &vec![400, 400, 400], 500);
    let mut p = Pipeline::new(chunks, fixed_ctx());

    let first = p.next_request().unwrap().unwrap();
    assert_eq!(first.index, 0);
    assert!(p.record_outcome(SynthesisOutcome::Saved).is_ok());

    let second = p.next_request().unwrap().unwrap();
    assert_eq!(second.index, 1);
    let err = p
        .record_outcome(SynthesisOutcome::RemoteFailure {
            message: Some("rate limited".to_string()),
        })
        .expect_err("the run must abort");
    assert!(err.message().contains("rate limited"));
    assert_eq!(err.message(), "OpenAI API error: rate limited");

    // The run is failed: chunk 3 was never handed out.
    assert_eq!(p.phase, Phase::Failed);
    assert_eq!(p.next, 1);
}

#[test]
fn transport_and_persist_failures_abort() {
    let ls = lines(&["one"]);
    let chunks = segment_lines(&ls, &vec![1], 500);
    let mut p = Pipeline::new(chunks.clone(), fixed_ctx());
    p.next_request().unwrap().unwrap();
    match p.record_outcome(SynthesisOutcome::TransportFailure) {
        Err(PipelineError::TransportError) => {}
        other => panic!("expected a transport error, got {:?}", other),
    }
    assert_eq!(p.phase, Phase::Failed);

    let mut q = Pipeline::new(chunks, fixed_ctx());
    q.next_request().unwrap().unwrap();
    match q.record_outcome(SynthesisOutcome::PersistFailure) {
        Err(PipelineError::IoError) => {}
        other => panic!("expected an io error, got {:?}", other),
    }
    assert_eq!(q.phase, Phase::Failed);
}
