//! Prefill/decode disaggregation session metadata.

use vstd::prelude::*;

verus! {

#[derive(Debug, Clone)]
pub struct SglangBootstrapInfo {
    pub host: String,
    pub port: u16,
    pub room: String,
}

#[derive(Debug, Clone)]
pub struct VllmKvTransferParams {
    pub session_id: String,
    pub engine_rank: u32,
}

/// Engine-specific KV transfer handshake data.
#[derive(Debug, Clone)]
pub enum PdTransferMetadata {
    Sglang(SglangBootstrapInfo),
    Vllm(VllmKvTransferParams),
}

/// Stage of a prefill/decode request.
#[derive(Debug, Clone, Copy, PartialEq, Eq, Structural)]
pub enum PdSessionState {
    Init,
    PrefillScheduled,
    PrefillCompleted,
    DecodeScheduled,
    Streaming,
    Completed,
    Failed,
}

pub struct PdSession {
    pub session_id: String,
    pub model: String,
    pub state: PdSessionState,
    pub prefill_worker_id: Option<String>,
    pub decode_worker_id: Option<String>,
    pub metadata: Option<PdTransferMetadata>,
}

impl PdSession {
    /// A session that has not been scheduled yet.
    pub fn new(session_id: &str, model: &str) -> (r: Self)
        ensures
            r.session_id@ == session_id@,
            r.model@ == model@,
            r.state == PdSessionState::Init,
            r.prefill_worker_id is None,
            r.decode_worker_id is None,
            r.metadata is None,
    {
        PdSession {
            session_id: session_id.to_owned(),
            model: model.to_owned(),
            state: PdSessionState::Init,
            prefill_worker_id: None,
            decode_worker_id: None,
            metadata: None,
        }
    }
}

} // verus!
