//! Response shapes: the CLI envelope the upstream answers with, and
//! the AiStudio-compatible shape handed back to callers. The JSON
//! payloads that ride through untouched are carried as opaque values.

use vstd::prelude::*;

verus! {

#[verifier::external_type_specification]
#[verifier::external_body]
pub struct ExValue(serde_json::Value);

/// Finish reasons the upstream reports.
#[derive(Debug, Clone, Copy, PartialEq, Eq, Structural)]
#[allow(non_camel_case_types)]
pub enum FinishReason {
    FINISH_REASON_UNSPECIFIED,
    STOP,
    MAX_TOKENS,
    SAFETY,
    RECITATION,
    LANGUAGE,
    OTHER,
    BLOCKLIST,
    PROHIBITED_CONTENT,
    SPII,
    MALFORMED_FUNCTION_CALL,
    IMAGE_SAFETY,
}

/// Chat content payload for candidates; the parts ride through as
/// opaque JSON.
pub struct Chat {
    pub role: String,
    pub parts: Vec<serde_json::Value>,
}

/// AiStudio candidate wrapper.
#[allow(non_snake_case)]
pub struct Candidate {
    pub content: Chat,
    pub finishReason: Option<FinishReason>,
}

/// Final AiStudio-compatible response payload.
#[allow(non_snake_case)]
pub struct GeminiResponse {
    pub candidates: Vec<Candidate>,
    pub usageMetadata: serde_json::Value,
    pub modelVersion: String,
    pub promptFeedback: Option<serde_json::Value>,
}

/// Generic CLI envelope wrapper.
pub struct CliResponseEnvelope<T> {
    pub response: T,
}

impl<T> CliResponseEnvelope<T> {
    /// Unwrap the envelope.
    pub fn into_inner(self) -> (r: T)
        ensures
            r == self.response,
    {
        self.response
    }
}

/// The upstream CLI response shape.
#[allow(non_snake_case)]
pub struct CliResponse {
    pub candidates: Vec<CliCandidate>,
    pub usageMetadata: serde_json::Value,
    pub modelVersion: String,
    pub promptFeedback: Option<serde_json::Value>,
}

/// One candidate of the upstream CLI response.
#[allow(non_snake_case)]
pub struct CliCandidate {
    pub content: Chat,
    pub finishReason: Option<FinishReason>,
}

impl CliCandidate {
    /// The AiStudio view of this candidate: the same content and
    /// finish reason.
    pub fn into_ai(self) -> (r: Candidate)
        ensures
            r.content == self.content,
            r.finishReason == self.finishReason,
    {
        Candidate { content: self.content, finishReason: self.finishReason }
    }
}

/// Reshape an upstream CLI response into the AiStudio-compatible
/// shape: candidates carried over one by one, every other field
/// unchanged.
pub fn cli_to_aistudio(value: CliResponse) -> (r: GeminiResponse)
    ensures
        r.candidates@.len() == value.candidates@.len(),
        forall|i: int|
            0 <= i < value.candidates@.len() ==> (#[trigger] r.candidates@[i]).content
                == value.candidates@[i].content && r.candidates@[i].finishReason
                == value.candidates@[i].finishReason,
        r.usageMetadata == value.usageMetadata,
        r.modelVersion == value.modelVersion,
        r.promptFeedback == value.promptFeedback,
{
    let CliResponse { candidates, usageMetadata, modelVersion, promptFeedback } = value;
    let ghost cvs = candidates@;
    let mut cands = candidates;
    let mut out: Vec<Candidate> = Vec::new();
    proof {
        assert(cvs.skip(0) =~= cvs);
    }
    while cands.len() > 0
        invariant
            out@.len() + cands@.len() == cvs.len(),
            cands@ == cvs.skip(out@.len() as int),
            forall|i: int|
                0 <= i < out@.len() ==> (#[trigger] out@[i]).content == cvs[i].content
                    && out@[i].finishReason == cvs[i].finishReason,
        decreases cands@.len(),
    {
        let ghost k = out@.len() as int;
        let c = cands.remove(0);
        proof {
            assert(c == cvs.skip(k)[0]);
            assert(c == cvs[k]);
            assert(cands@ =~= cvs.skip(k + 1));
        }
        out.push(c.into_ai());
    }
    GeminiResponse { candidates: out, usageMetadata, modelVersion, promptFeedback }
}

} // verus!
