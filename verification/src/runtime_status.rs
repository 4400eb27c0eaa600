//! The status of the managed runtime (models and native libraries) and the
//! rule for using its root: only a healthy runtime is used.

use vstd::prelude::*;

verus! {

#[verifier::external_type_specification]
#[verifier::external_body]
pub struct ExPathBuf(std::path::PathBuf);

/// The overall state of the managed runtime.
#[derive(Debug, Clone, Copy, PartialEq, Eq, Structural)]
pub enum RuntimeState {
    Healthy,
    Missing,
    Incomplete,
    Corrupt,
    Repairing,
    BlockedOffline,
    BlockedSourceUnavailable,
}

/// A feature that depends on the managed runtime.
#[derive(Debug, Clone, Copy, PartialEq, Eq, Structural)]
pub enum RuntimeCapability {
    Ocr,
    Transcription,
    Embeddings,
    Ner,
}

/// What the runtime manager reports after checking (and, if needed,
/// bootstrapping) the runtime.
#[derive(Debug, Clone)]
pub struct RuntimeStatus {
    pub state: RuntimeState,
    pub pack_version: Option<String>,
    pub repair_needed: bool,
    pub repair_available: bool,
    pub summary: String,
    pub blocked_capabilities: Vec<RuntimeCapability>,
    pub details: Vec<String>,
    pub guidance: Vec<String>,
    pub bootstrap_eligible: bool,
    pub bootstrap_required: bool,
    pub active_operation: Option<String>,
}

/// Resolves the managed runtime root: first ensures the runtime is ready (or
/// bootstraps it); only when it is healthy is the hydrated root asked for.
/// A transport error of the first step is returned as is; a runtime that is
/// not healthy gives `Ok(None)` without asking for the root.
pub fn managed_runtime_root_with<E, H>(ensure_ready_or_bootstrap: E, hydrated_runtime_root: H) -> (r:
    Result<Option<std::path::PathBuf>, String>) where
    E: FnOnce() -> Result<RuntimeStatus, String>,
    H: FnOnce() -> Result<Option<std::path::PathBuf>, String>,

    requires
        call_requires(ensure_ready_or_bootstrap, ()),
        call_requires(hydrated_runtime_root, ()),
    ensures
        exists|s: Result<RuntimeStatus, String>|
            #![trigger call_ensures(ensure_ready_or_bootstrap, (), s)]
            call_ensures(ensure_ready_or_bootstrap, (), s) && match s {
                Err(e) => r == Err::<Option<std::path::PathBuf>, String>(e),
                Ok(st) => if st.state != RuntimeState::Healthy {
                    r == Ok::<Option<std::path::PathBuf>, String>(None)
                } else {
                    call_ensures(hydrated_runtime_root, (), r)
                },
            },
{
    let status = ensure_ready_or_bootstrap();
    match status {
        Err(e) => Err(e),
        Ok(st) => {
            if st.state != RuntimeState::Healthy {
                Ok(None)
            } else {
                hydrated_runtime_root()
            }
        },
    }
}

} // verus!
