//! The per-run pipeline: which chunk is synthesized next, what the request
//! for it carries, and how the run reacts to each outcome.
//!
//! Chunks are processed strictly sequentially.  Before a request is issued
//! the joined chunk text is checked against the character cap; an oversized
//! chunk fails the run locally, before any network call.  The first failure
//! of any kind moves the run to its failed phase, where no further chunk is
//! attempted.

use crate::naming::spec_chunk_file_name;
use crate::naming::chunk_file_name;
use crate::naming::spec_padded;
use crate::naming::push_padded;
use crate::segment::Chunk;
use crate::segment::str_views;
use crate::text::spec_join_lines;
use crate::text::join_lines;
use crate::text::spec_preview;
use crate::text::preview_of;
use vstd::prelude::*;
use vstd::string::*;

verus! {

/// The synthesis models the remote endpoint offers.
#[derive(Clone, Copy, Debug, PartialEq, Eq, Structural)]
pub enum Model {
    Tts1,
    Tts1Hd,
}

/// The named voices the remote endpoint offers.
#[derive(Clone, Copy, Debug, PartialEq, Eq, Structural)]
pub enum Voice {
    Alloy,
    Echo,
    Fable,
    Onyx,
    Nova,
    Shimmer,
}

/// The identifier a model is requested under.
pub open spec fn spec_model_name(m: Model) -> Seq<char> {
    match m {
        Model::Tts1 => "tts-1"@,
        Model::Tts1Hd => "tts-1-hd"@,
    }
}

/// The identifier a voice is requested under.
pub open spec fn spec_voice_name(v: Voice) -> Seq<char> {
    match v {
        Voice::Alloy => "alloy"@,
        Voice::Echo => "echo"@,
        Voice::Fable => "fable"@,
        Voice::Onyx => "onyx"@,
        Voice::Nova => "nova"@,
        Voice::Shimmer => "shimmer"@,
    }
}

/// The model selected by `n`, if any.
pub open spec fn spec_model_from_name(n: Seq<char>) -> Option<Model> {
    if n == "tts-1"@ {
        Some(Model::Tts1)
    } else if n == "tts-1-hd"@ {
        Some(Model::Tts1Hd)
    } else {
        None
    }
}

/// The voice selected by `n`, if any.
pub open spec fn spec_voice_from_name(n: Seq<char>) -> Option<Voice> {
    if n == "alloy"@ {
        Some(Voice::Alloy)
    } else if n == "echo"@ {
        Some(Voice::Echo)
    } else if n == "fable"@ {
        Some(Voice::Fable)
    } else if n == "onyx"@ {
        Some(Voice::Onyx)
    } else if n == "nova"@ {
        Some(Voice::Nova)
    } else if n == "shimmer"@ {
        Some(Voice::Shimmer)
    } else {
        None
    }
}

impl Model {
    /// The identifier this model is requested under.
    pub fn as_str(&self) -> (r: &'static str)
        ensures
            r@ == spec_model_name(*self),
    {
        match self {
            Model::Tts1 => "tts-1",
            Model::Tts1Hd => "tts-1-hd",
        }
    }

    /// Parses a model identifier.
    pub fn from_name(n: &str) -> (r: Option<Model>)
        ensures
            r == spec_model_from_name(n@),
    {
        if crate::text::str_eq(n, "tts-1") {
            Some(Model::Tts1)
        } else if crate::text::str_eq(n, "tts-1-hd") {
            Some(Model::Tts1Hd)
        } else {
            None
        }
    }
}

impl Voice {
    /// The identifier this voice is requested under.
    pub fn as_str(&self) -> (r: &'static str)
        ensures
            r@ == spec_voice_name(*self),
    {
        match self {
            Voice::Alloy => "alloy",
            Voice::Echo => "echo",
            Voice::Fable => "fable",
            Voice::Onyx => "onyx",
            Voice::Nova => "nova",
            Voice::Shimmer => "shimmer",
        }
    }

    /// Parses a voice identifier.
    pub fn from_name(n: &str) -> (r: Option<Voice>)
        ensures
            r == spec_voice_from_name(n@),
    {
        if crate::text::str_eq(n, "alloy") {
            Some(Voice::Alloy)
        } else if crate::text::str_eq(n, "echo") {
            Some(Voice::Echo)
        } else if crate::text::str_eq(n, "fable") {
            Some(Voice::Fable)
        } else if crate::text::str_eq(n, "onyx") {
            Some(Voice::Onyx)
        } else if crate::text::str_eq(n, "nova") {
            Some(Voice::Nova)
        } else if crate::text::str_eq(n, "shimmer") {
            Some(Voice::Shimmer)
        } else {
            None
        }
    }
}

/// Everything a run failure can be: the taxonomy every component's errors
/// fall into.
#[derive(Debug, Clone, PartialEq)]
#[allow(inconsistent_fields)]
pub enum PipelineError {
    /// The invocation itself is unusable, e.g. no credential was supplied.
    InputError { message: String },
    /// A chunk's joined text exceeds the per-request character cap.
    ChunkTooLarge { index: usize, preview: String },
    /// The remote endpoint answered with a non-success status.
    RemoteError { message: Option<String> },
    /// The request never completed at the network level.
    TransportError,
    /// A chunk's audio could not be written to disk.
    IoError,
    /// The external concatenation tool exited with a non-zero status.
    ExternalToolError { code: Option<i32> },
    /// No per-chunk audio files were found to assemble.
    NoChunksFound,
}

/// The diagnostic line a failure is reported with.
pub open spec fn spec_error_message(e: PipelineError) -> Seq<char> {
    match e {
        PipelineError::InputError { message } => message@,
        PipelineError::ChunkTooLarge { index, preview } => "Chunk "@ + spec_padded(
            index as nat,
            6,
        ) + ": "@ + preview@ + " is more than 4000 characters, please make it shorter"@,
        PipelineError::RemoteError { message: Some(m) } => "OpenAI API error: "@ + m@,
        PipelineError::RemoteError { message: None } => "Unknown OpenAI API error"@,
        PipelineError::TransportError => "network request failed"@,
        PipelineError::IoError => "could not write the audio file"@,
        PipelineError::ExternalToolError { code } => "ffmpeg command failed"@,
        PipelineError::NoChunksFound => "no chunk audio files found to combine"@,
    }
}

impl PipelineError {
    /// Renders the diagnostic line for this failure.
    pub fn message(&self) -> (r: String)
        ensures
            r@ == spec_error_message(*self),
    {
        match self {
            PipelineError::InputError { message } => message.clone(),
            PipelineError::ChunkTooLarge { index, preview } => {
                let mut r = String::from_str("Chunk ");
                push_padded(&mut r, *index, 6);
                r.append(": ");
                r.append(preview.as_str());
                r.append(" is more than 4000 characters, please make it shorter");
                proof {
                    assert(r@ =~= spec_error_message(*self));
                }
                r
            },
            PipelineError::RemoteError { message: Some(m) } => {
                let mut r = String::from_str("OpenAI API error: ");
                r.append(m.as_str());
                r
            },
            PipelineError::RemoteError { message: None } => String::from_str(
                "Unknown OpenAI API error",
            ),
            PipelineError::TransportError => String::from_str("network request failed"),
            PipelineError::IoError => String::from_str("could not write the audio file"),
            PipelineError::ExternalToolError { code } => String::from_str(
                "ffmpeg command failed",
            ),
            PipelineError::NoChunksFound => String::from_str(
                "no chunk audio files found to combine",
            ),
        }
    }
}

/// The immutable parameters of one run.
pub struct RunContext {
    pub model: Model,
    pub voice: Voice,
    pub api_key: String,
    pub timestamp: String,
}

/// Relies on chrono's `Local::now` and its `%Y%m%d%H%M` formatter for the
/// wall-clock run timestamp.  Nothing is assumed of the value: the timestamp
/// only brands this run's file names, and name ordering holds for any
/// timestamp.
#[verifier::external_body]
fn current_timestamp() -> String {
    chrono::Local::now().format("%Y%m%d%H%M").to_string()
}

impl RunContext {
    /// Builds the context of a fresh run, stamped with the current wall-clock
    /// time.
    pub fn create(model: Model, voice: Voice, api_key: String) -> (r: RunContext)
        ensures
            r.model == model,
            r.voice == voice,
            r.api_key == api_key,
    {
        RunContext { model, voice, api_key, timestamp: current_timestamp() }
    }
}

/// Picks the credential: an explicit flag wins, the environment is the
/// fallback, and missing both is a fatal input error.
pub fn resolve_api_key(flag: Option<String>, env_var: Option<String>) -> (r: Result<
    String,
    PipelineError,
>)
    ensures
        flag matches Some(k) ==> r == Ok::<String, PipelineError>(k),
        flag is None ==> (env_var matches Some(k) ==> r == Ok::<String, PipelineError>(k)),
        flag is None && env_var is None ==> (r matches Err(PipelineError::InputError { message })
            && message@
            == "OpenAI API key not provided. Set it via the --apikey flag or the OPENAI_API_KEY environment variable."@),
{
    match flag {
        Some(k) => Ok(k),
        None => match env_var {
            Some(k) => Ok(k),
            None => Err(
                PipelineError::InputError {
                    message: String::from_str(
                        "OpenAI API key not provided. Set it via the --apikey flag or the OPENAI_API_KEY environment variable.",
                    ),
                },
            ),
        },
    }
}

/// The per-request character cap on a chunk's joined text; longer chunks are
/// rejected locally, before any network call.
pub const CHUNK_CHAR_LIMIT: usize = 4000;

/// One chunk's synthesis request, ready to be carried to the remote
/// endpoint.
pub struct SpeechRequest {
    pub index: usize,
    pub total: usize,
    pub model: Model,
    pub voice: Voice,
    pub text: String,
    pub preview: String,
    pub file_name: String,
}

/// What one chunk's synthesis attempt came to.  The audio bytes themselves
/// never pass through here: a saved chunk is simply `Saved`.
pub enum SynthesisOutcome {
    /// The audio arrived and was written to the chunk's file.
    Saved,
    /// The endpoint answered with a non-success status; `message` is the
    /// error envelope's message, if one could be read.
    RemoteFailure { message: Option<String> },
    /// The request never completed at the network level.
    TransportFailure,
    /// The audio arrived but could not be written to disk.
    PersistFailure,
}

/// Where a run stands.
#[derive(Clone, Copy, Debug, PartialEq, Eq, Structural)]
pub enum Phase {
    /// Chunks remain to be attempted.
    Running,
    /// Every chunk was synthesized and persisted.
    Done,
    /// A chunk failed; no further chunk is attempted.
    Failed,
}

/// The sequential chunk-processing state machine of one run.
pub struct Pipeline {
    pub chunks: Vec<Chunk>,
    pub ctx: RunContext,
    pub next: usize,
    pub phase: Phase,
}

impl Pipeline {
    /// The cursor never passes the end of the chunk list.
    pub open spec fn wf(self) -> bool {
        self.next <= self.chunks@.len()
    }

    /// The joined text of chunk `i`.
    pub open spec fn spec_chunk_text(self, i: int) -> Seq<char> {
        spec_join_lines(str_views(self.chunks@[i].lines@))
    }

    /// Starts a run over `chunks` with the parameters in `ctx`.
    pub fn new(chunks: Vec<Chunk>, ctx: RunContext) -> (p: Pipeline)
        ensures
            p.chunks == chunks,
            p.ctx == ctx,
            p.next == 0,
            p.phase is Running,
            p.wf(),
    {
        Pipeline { chunks, ctx, next: 0, phase: Phase::Running }
    }

    /// Hands out the request for the next chunk, or `None` once every chunk
    /// is done.  An oversized chunk fails the run here, locally: no request
    /// is handed out for it and the run moves to its failed phase.
    pub fn next_request(&mut self) -> (r: Result<Option<SpeechRequest>, PipelineError>)
        requires
            old(self).wf(),
            old(self).phase is Running,
        ensures
            final(self).wf(),
            final(self).chunks == old(self).chunks,
            final(self).ctx == old(self).ctx,
            final(self).next == old(self).next,
            old(self).next == old(self).chunks@.len() ==> (r matches Ok(None) && final(self).phase is Done),
            old(self).next < old(self).chunks@.len() ==> {
                let joined = old(self).spec_chunk_text(old(self).next as int);
                &&& joined.len() > CHUNK_CHAR_LIMIT ==> (r matches Err(
                    PipelineError::ChunkTooLarge { index, preview },
                ) && index == old(self).next && preview@ == spec_preview(joined) && final(self).phase is Failed)
                &&& joined.len() <= CHUNK_CHAR_LIMIT ==> (r matches Ok(Some(req)) && req.index
                    == old(self).next && req.total == old(self).chunks@.len() && req.model == old(self).ctx.model && req.voice == old(self).ctx.voice && req.text@ == joined
                    && req.preview@ == spec_preview(joined) && req.file_name@
                    == spec_chunk_file_name(old(self).ctx.timestamp@, old(self).next as nat)
                    && final(self).phase is Running)
            },
    {
        if self.next == self.chunks.len() {
            self.phase = Phase::Done;
            return Ok(None);
        }
        let text = join_lines(&self.chunks[self.next].lines);
        let preview = preview_of(text.as_str());
        if text.as_str().unicode_len() > CHUNK_CHAR_LIMIT {
            self.phase = Phase::Failed;
            return Err(PipelineError::ChunkTooLarge { index: self.next, preview });
        }
        let file_name = chunk_file_name(self.ctx.timestamp.as_str(), self.next);
        Ok(
            Some(
                SpeechRequest {
                    index: self.next,
                    total: self.chunks.len(),
                    model: self.ctx.model,
                    voice: self.ctx.voice,
                    text,
                    preview,
                    file_name,
                },
            ),
        )
    }

    /// Records what the attempt for the current chunk came to.  Success
    /// advances the cursor; any failure moves the run to its failed phase
    /// and surfaces the matching error, with the remote message passed on
    /// verbatim.
    pub fn record_outcome(&mut self, outcome: SynthesisOutcome) -> (r: Result<(), PipelineError>)
        requires
            old(self).wf(),
            old(self).phase is Running,
            old(self).next < old(self).chunks@.len(),
        ensures
            final(self).wf(),
            final(self).chunks == old(self).chunks,
            final(self).ctx == old(self).ctx,
            outcome matches SynthesisOutcome::Saved ==> (r matches Ok(_) && final(self).next == old(self).next + 1 && final(self).phase is Running),
            outcome matches SynthesisOutcome::RemoteFailure { message } ==> (r matches Err(
                PipelineError::RemoteError { message: m },
            ) && m == message && final(self).phase is Failed && final(self).next == old(self).next),
            outcome matches SynthesisOutcome::TransportFailure ==> (r matches Err(
                PipelineError::TransportError,
            ) && final(self).phase is Failed && final(self).next == old(self).next),
            outcome matches SynthesisOutcome::PersistFailure ==> (r matches Err(
                PipelineError::IoError,
            ) && final(self).phase is Failed && final(self).next == old(self).next),
    {
        match outcome {
            SynthesisOutcome::Saved => {
                let n = self.chunks.len();
                assert(self.next < n);
                self.next = self.next + 1;
                Ok(())
            },
            SynthesisOutcome::RemoteFailure { message } => {
                self.phase = Phase::Failed;
                Err(PipelineError::RemoteError { message })
            },
            SynthesisOutcome::TransportFailure => {
                self.phase = Phase::Failed;
                Err(PipelineError::TransportError)
            },
            SynthesisOutcome::PersistFailure => {
                self.phase = Phase::Failed;
                Err(PipelineError::IoError)
            },
        }
    }
}

} // verus!
