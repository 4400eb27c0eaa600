//! The layout-aware OCR engine's subprocess protocol: reading its JSON payload
//! out of the output, diagnosing known failures, ranking interpreter
//! candidates, and summarising the tail of the output.

use vstd::prelude::*;
use crate::chars::{chars_of, str_to_lowercase, to_lowercase};
use crate::lines::{join_lines, join_strings, split_lines, string_views, text_lines};
use crate::runtime_status::{RuntimeStatus, RuntimeState, managed_runtime_root_with};
use crate::search::{contains_seq, contains_str, find_chars, first_occurrence, substring};
use crate::text::{CharClass, slice_chars, strip_bounds, trim, trim_string};

verus! {

/// A box as the engine reports it.
#[derive(Debug, Clone, Copy, PartialEq, Eq, Structural)]
pub struct PaddleVlBbox {
    pub x: i32,
    pub y: i32,
    pub width: i32,
    pub height: i32,
}

/// A block of text found by the engine, with its reading order.
#[derive(Debug, Clone)]
pub struct PaddleVlBlock {
    pub label: String,
    pub content: String,
    pub bbox: PaddleVlBbox,
    pub order: i32,
    pub group_id: i32,
}

/// A layout region found by the engine; the confidence is on the
/// `CONFIDENCE_SCALE`.
#[derive(Debug, Clone)]
pub struct PaddleVlRegion {
    pub category: String,
    pub bbox: PaddleVlBbox,
    pub confidence: u32,
}

/// The engine's result for one image.
#[derive(Debug, Clone)]
pub struct PaddleVlOutput {
    pub text: String,
    pub method: String,
    pub blocks: Vec<PaddleVlBlock>,
    pub regions: Vec<PaddleVlRegion>,
    pub image_width: u32,
    pub image_height: u32,
    /// The device the engine actually used, when it reports one.
    pub actual_device: Option<String>,
}

/// The OCR output of the engine's result: its text and method, and one region
/// (without text) per layout region.
pub fn ocr_output_from_paddlevl(output: &PaddleVlOutput) -> (r: crate::ocr_types::OcrOutput)
    ensures
        r.text@ == output.text@,
        r.method@ == output.method@,
        r.regions.len() == output.regions.len(),
        forall|i: int|
            0 <= i < r.regions.len() ==> {
                let g = #[trigger] r.regions@[i];
                let o = output.regions@[i];
                &&& g.text@.len() == 0
                &&& g.confidence == o.confidence
                &&& g.bbox == Some(
                    crate::ocr_types::BoundingBox {
                        x: o.bbox.x,
                        y: o.bbox.y,
                        width: o.bbox.width as u32,
                        height: o.bbox.height as u32,
                    },
                )
                &&& g.column is None
            },
{
    let mut regions: Vec<crate::ocr_types::OcrRegion> = Vec::new();
    let mut i: usize = 0;
    while i < output.regions.len()
        invariant
            i <= output.regions.len(),
            regions.len() == i,
            forall|k: int|
                0 <= k < i ==> {
                    let g = #[trigger] regions@[k];
                    let o = output.regions@[k];
                    &&& g.text@.len() == 0
                    &&& g.confidence == o.confidence
                    &&& g.bbox == Some(
                        crate::ocr_types::BoundingBox {
                            x: o.bbox.x,
                            y: o.bbox.y,
                            width: o.bbox.width as u32,
                            height: o.bbox.height as u32,
                        },
                    )
                    &&& g.column is None
                },
        decreases output.regions.len() - i,
    {
        let region = &output.regions[i];
        regions.push(
            crate::ocr_types::OcrRegion {
                text: String::new(),
                confidence: region.confidence,
                bbox: Some(
                    crate::ocr_types::BoundingBox {
                        x: region.bbox.x,
                        y: region.bbox.y,
                        width: region.bbox.width as u32,
                        height: region.bbox.height as u32,
                    },
                ),
                column: None,
            },
        );
        i += 1;
    }
    crate::ocr_types::OcrOutput {
        text: String::from_str(output.text.as_str()),
        regions,
        method: String::from_str(output.method.as_str()),
    }
}

/// How the engine's subprocess is run.
#[derive(Debug)]
pub struct PaddleVlConfig {
    /// The interpreter with the engine installed.
    pub python_path: std::path::PathBuf,
    /// The engine's script.
    pub script_path: std::path::PathBuf,
    /// The model hub cache directory, if any.
    pub hf_cache_dir: Option<std::path::PathBuf>,
    /// The engine's model cache directory, if any.
    pub paddlex_cache_dir: Option<std::path::PathBuf>,
    /// Whether the subprocess runs without network access.
    pub offline_mode: bool,
    /// The preferred compute device: `gpu` or `cpu`.
    pub device: String,
}

// ── Sentinel-wrapped payloads ────────────────────────────────────────────────

/// The text between the first `begin` marker and the next `end` marker after
/// it, trimmed; the whole output, trimmed, when the markers are not both found.
pub open spec fn sentinel_content(out: Seq<char>, begin: Seq<char>, end: Seq<char>) -> Seq<char> {
    match first_occurrence(out, begin) {
        Some(b) => {
            let rest = out.subrange(b + begin.len(), out.len() as int);
            match first_occurrence(rest, end) {
                Some(e) => trim(rest.subrange(0, e)),
                None => trim(out),
            }
        },
        None => trim(out),
    }
}

/// The payload between `begin` and `end` markers in a subprocess output.
pub fn sentinel_payload(output: &str, begin: &str, end: &str) -> (r: String)
    ensures
        r@ == sentinel_content(output@, begin@, end@),
{
    let v = chars_of(output);
    let vb = chars_of(begin);
    let ve = chars_of(end);
    let vlen = v.len();
    match find_chars(&v, &vb) {
        Some(b) => {
            proof {
                crate::search::lemma_contains_seq(v@, vb@);
                assert(crate::search::occurs_at(v@, vb@, b as int));
                assert(b + vb@.len() <= v@.len());
            }
            let start = b + vb.len();
            let rest = slice_chars(&v, start, v.len());
            match find_chars(&rest, &ve) {
                Some(e) => {
                    proof {
                        crate::search::lemma_contains_seq(rest@, ve@);
                    }
                    let inner = slice_chars(&rest, 0, e);
                    let (a, z) = strip_bounds(&inner, CharClass::Whitespace);
                    substring(&inner, a, z)
                },
                None => trim_string(output),
            }
        },
        None => trim_string(output),
    }
}

pub const VL_JSON_BEGIN: &'static str = "===VL_JSON_BEGIN===";

pub const VL_JSON_END: &'static str = "===VL_JSON_END===";

/// The JSON payload of the engine's output (see `sentinel_content`).
pub fn extract_sentinel_json(output: &str) -> (r: String)
    ensures
        r@ == sentinel_content(output@, VL_JSON_BEGIN@, VL_JSON_END@),
{
    sentinel_payload(output, VL_JSON_BEGIN, VL_JSON_END)
}

// ── Failure diagnosis ────────────────────────────────────────────────────────

/// The known executor bug of the inference framework shows one of these markers.
pub open spec fn pir_error_in(s: Seq<char>) -> bool {
    contains_seq(s, "ConvertPirAttribute2RuntimeAttribute"@) || contains_seq(
        s,
        "pir::ArrayAttribute"@,
    ) || contains_seq(s, "FLAGS_enable_pir_api"@)
}

pub fn is_pir_executor_error(stderr: &str) -> (r: bool)
    ensures
        r == pir_error_in(stderr@),
{
    contains_str(stderr, "ConvertPirAttribute2RuntimeAttribute") || contains_str(
        stderr,
        "pir::ArrayAttribute",
    ) || contains_str(stderr, "FLAGS_enable_pir_api")
}

/// A permission error on the engine's model cache (case-insensitive).
pub open spec fn cache_permission_error_in(s: Seq<char>) -> bool {
    let l = str_to_lowercase(s);
    contains_seq(l, "permission denied"@) && (contains_seq(l, ".paddlex"@) || contains_seq(
        l,
        "official_models"@,
    ) || contains_seq(l, "paddle_pdx_cache_home"@) || contains_seq(l, "paddlex"@))
}

pub fn is_paddlex_cache_permission_error(text: &str) -> (r: bool)
    ensures
        r == cache_permission_error_in(text@),
{
    let lower = to_lowercase(text);
    let l = lower.as_str();
    contains_str(l, "permission denied") && (contains_str(l, ".paddlex") || contains_str(
        l,
        "official_models",
    ) || contains_str(l, "paddle_pdx_cache_home") || contains_str(l, "paddlex"))
}

pub const PIR_DIAGNOSTIC: &'static str = "PaddlePaddle PIR/oneDNN executor bug detected (Paddle#77340). This crash affects paddlepaddle >=3.3.0 on CPU. EntropIA's dependency registry enforces paddlepaddle>=3.2.1,<3.3.0. If you see this error, your environment may have an unsupported version installed manually. Fix: Reset the environment from the app (Entorno → Resetear entorno) so EntropIA can install the correct version automatically.";

pub const CACHE_DIAGNOSTIC: &'static str = "PaddleOCR-VL cannot read/write its PaddleX model cache. EntropIA points PaddleX at an app-owned cache via PADDLE_PDX_CACHE_HOME; if this persists, clear the affected PaddleX cache directory or check folder permissions.";

/// The diagnosis of a failed run: the executor bug first, then a cache
/// permission problem, in either output stream.
pub open spec fn failure_diagnosis(stderr: Seq<char>, stdout: Seq<char>) -> Option<Seq<char>> {
    if pir_error_in(stderr) || pir_error_in(stdout) {
        Some(PIR_DIAGNOSTIC@)
    } else if cache_permission_error_in(stderr) || cache_permission_error_in(stdout) {
        Some(CACHE_DIAGNOSTIC@)
    } else {
        None
    }
}

/// A readable explanation of a failed run, when the cause is known.
pub fn classify_paddlevl_failure(stderr: &str, stdout: &str) -> (r: Option<String>)
    ensures
        match r {
            Some(m) => failure_diagnosis(stderr@, stdout@) == Some(m@),
            None => failure_diagnosis(stderr@, stdout@) is None,
        },
{
    if is_pir_executor_error(stderr) || is_pir_executor_error(stdout) {
        return Some(String::from_str(PIR_DIAGNOSTIC));
    }
    if is_paddlex_cache_permission_error(stderr) || is_paddlex_cache_permission_error(stdout) {
        return Some(String::from_str(CACHE_DIAGNOSTIC));
    }
    None
}

// ── Interpreter ranking ──────────────────────────────────────────────────────

pub open spec fn in_envs_dir(p: Seq<char>) -> bool {
    contains_seq(p, "\\envs\\"@) || contains_seq(p, "/envs/"@)
}

/// The score of an interpreter path (lowercased): dedicated engine environments
/// rank high, base conda interpreters low.
pub open spec fn candidate_score(path: Seq<char>) -> int {
    let p = str_to_lowercase(path);
    (if contains_seq(p, "ppocrvl"@) { 100int } else { 0int }) + (if contains_seq(p, "paddle"@) {
        50int
    } else {
        0int
    }) + (if contains_seq(p, "pp3"@) || contains_seq(p, "ppv"@) {
        30int
    } else {
        0int
    }) + (if contains_seq(p, "ocr"@) {
        20int
    } else {
        0int
    }) + (if in_envs_dir(p) {
        25int
    } else {
        0int
    }) + (if !in_envs_dir(p) && (contains_seq(p, "miniconda"@) || contains_seq(p, "anaconda"@)) {
        -10int
    } else {
        0int
    })
}

/// Scores an interpreter path by how likely it is a dedicated engine environment.
pub fn score_python_candidate(path: &str) -> (r: i32)
    ensures
        r as int == candidate_score(path@),
{
    let lower = to_lowercase(path);
    let p = lower.as_str();
    let mut score: i32 = 0;
    if contains_str(p, "ppocrvl") {
        score += 100;
    }
    if contains_str(p, "paddle") {
        score += 50;
    }
    if contains_str(p, "pp3") || contains_str(p, "ppv") {
        score += 30;
    }
    if contains_str(p, "ocr") {
        score += 20;
    }
    let envs = contains_str(p, "\\envs\\") || contains_str(p, "/envs/");
    if envs {
        score += 25;
    }
    if !envs && (contains_str(p, "miniconda") || contains_str(p, "anaconda")) {
        score -= 10;
    }
    score
}

// ── Output tail ──────────────────────────────────────────────────────────────

/// The last `n` elements of a sequence (all of them if fewer).
pub open spec fn last_n<A>(s: Seq<A>, n: nat) -> Seq<A> {
    if s.len() <= n {
        s
    } else {
        s.subrange(s.len() - n, s.len() as int)
    }
}

/// The last 20 lines of the error stream followed by the output stream.
pub open spec fn output_tail_lines(stdout: Seq<char>, stderr: Seq<char>) -> Seq<char> {
    join_lines(last_n(text_lines(stderr) + text_lines(stdout), 20), "\n"@)
}

/// A note with the last lines of the engine's output; empty when they are blank.
pub open spec fn output_tail(stdout: Seq<char>, stderr: Seq<char>) -> Seq<char> {
    let lines = output_tail_lines(stdout, stderr);
    if trim(lines).len() == 0 {
        Seq::empty()
    } else {
        "\nÚltima salida PaddleVL:\n"@ + lines
    }
}

/// Formats the tail of the engine's output for an error message.
pub fn format_child_output_tail(stdout: &str, stderr: &str) -> (r: String)
    ensures
        r@ == output_tail(stdout@, stderr@),
{
    let mut all = split_lines(stderr);
    let mut more = split_lines(stdout);
    let ghost a = string_views(all@);
    let ghost b = string_views(more@);
    all.append(&mut more);
    assert(string_views(all@) =~= a + b);
    let n = all.len();
    let mut tail: Vec<String> = Vec::new();
    let start: usize = if n > 20 {
        n - 20
    } else {
        0
    };
    let mut k: usize = start;
    while k < n
        invariant
            n == all.len(),
            start <= k <= n,
            string_views(tail@) == string_views(all@).subrange(start as int, k as int),
        decreases n - k,
    {
        let ghost before = string_views(tail@);
        let line = String::from_str(all[k].as_str());
        tail.push(line);
        assert(string_views(tail@) =~= before.push(string_views(all@)[k as int]));
        k += 1;
        assert(string_views(tail@) =~= string_views(all@).subrange(start as int, k as int));
    }
    proof {
        let sv = string_views(all@);
        if sv.len() <= 20 {
            assert(sv.subrange(0, sv.len() as int) =~= sv);
        }
    }
    let lines = join_strings(&tail, "\n");
    let t = trim_string(lines.as_str());
    if t.as_str().unicode_len() == 0 {
        String::new()
    } else {
        let mut s = String::from_str("\nÚltima salida PaddleVL:\n");
        s.append(lines.as_str());
        s
    }
}

/// Resolves the managed runtime root for the engine: a healthy runtime's
/// hydrated root, nothing for a runtime that is not healthy.
pub fn managed_runtime_root_for_paddle_vl_with<E, H>(
    ensure_ready_or_bootstrap: E,
    hydrated_runtime_root: H,
) -> (r: Result<Option<std::path::PathBuf>, String>) where
    E: FnOnce() -> Result<RuntimeStatus, String>,
    H: FnOnce() -> Result<Option<std::path::PathBuf>, String>,

    requires
        call_requires(ensure_ready_or_bootstrap, ()),
        call_requires(hydrated_runtime_root, ()),
    ensures
        exists|s: Result<RuntimeStatus, String>|
            #![trigger call_ensures(ensure_ready_or_bootstrap, (), s)]
            call_ensures(ensure_ready_or_bootstrap, (), s) && match s {
                Err(e) => r == Err::<Option<std::path::PathBuf>, String>(e),
                Ok(st) => if st.state != RuntimeState::Healthy {
                    r == Ok::<Option<std::path::PathBuf>, String>(None)
                } else {
                    call_ensures(hydrated_runtime_root, (), r)
                },
            },
{
    managed_runtime_root_with(ensure_ready_or_bootstrap, hydrated_runtime_root)
}

} // verus!
