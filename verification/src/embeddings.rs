//! Embedding configuration and bookkeeping: the provider setting, the hash
//! used in a configuration's cache key, the local model's directory and
//! status, download progress, diagnostic messages, and the report of a
//! backfill run.

use vstd::prelude::*;
use crate::chars::{chars_of, string_from_chars};
use crate::chars::{ascii_lower, to_ascii_lower};
use crate::nlp_queue::same_text;
use crate::text::{trim, trim_chars};

verus! {

/// Which embedding provider computes vectors: the remote API or the local model.
#[derive(Debug, Clone, Copy, PartialEq, Eq, Structural)]
pub enum EmbeddingProvider {
    Api,
    Local,
}

/// The provider for a setting value (trimmed, any ASCII case): none, empty,
/// `local`, `offline` or `onnx` is local; `api` or `openrouter` is the remote
/// API; anything else is refused.
pub open spec fn provider_for(setting: Option<Seq<char>>) -> Result<EmbeddingProvider, Seq<char>> {
    match setting {
        None => Ok(EmbeddingProvider::Local),
        Some(s) => {
            let v = trim(s).map_values(|c: char| ascii_lower(c));
            if trim(s).len() == 0 || v == "local"@ || v == "offline"@ || v == "onnx"@ {
                Ok(EmbeddingProvider::Local)
            } else if v == "api"@ || v == "openrouter"@ {
                Ok(EmbeddingProvider::Api)
            } else {
                Err("Proveedor de embeddings no soportado: "@ + v + ". Usá 'api' o 'local'."@)
            }
        },
    }
}

fn ascii_lowercase_chars(t: &Vec<char>) -> (r: String)
    ensures
        r@ == t@.map_values(|c: char| ascii_lower(c)),
{
    let mut low: Vec<char> = Vec::new();
    let mut i: usize = 0;
    while i < t.len()
        invariant
            i <= t.len(),
            low@ == t@.take(i as int).map_values(|c: char| ascii_lower(c)),
        decreases t.len() - i,
    {
        let c = t[i];
        low.push(to_ascii_lower(c));
        i += 1;
        assert(low@ =~= t@.take(i as int).map_values(|c: char| ascii_lower(c)));
    }
    assert(t@.take(t.len() as int) =~= t@);
    string_from_chars(&low)
}

impl EmbeddingProvider {
    /// The provider named by the embedding provider setting.
    pub fn from_setting(value: Option<&str>) -> (r: Result<Self, String>)
        ensures
            match r {
                Ok(p) => provider_for(
                    match value {
                        Some(s) => Some(s@),
                        None => None,
                    },
                ) == Ok::<EmbeddingProvider, Seq<char>>(p),
                Err(e) => provider_for(
                    match value {
                        Some(s) => Some(s@),
                        None => None,
                    },
                ) == Err::<EmbeddingProvider, Seq<char>>(e@),
            },
    {
        match value {
            None => Ok(EmbeddingProvider::Local),
            Some(s) => {
                let t = trim_chars(s);
                if t.len() == 0 {
                    return Ok(EmbeddingProvider::Local);
                }
                let v = ascii_lowercase_chars(&t);
                let vs = v.as_str();
                if same_text(vs, "local") || same_text(vs, "offline") || same_text(vs, "onnx") {
                    Ok(EmbeddingProvider::Local)
                } else if same_text(vs, "api") || same_text(vs, "openrouter") {
                    Ok(EmbeddingProvider::Api)
                } else {
                    let mut m = String::from_str("Proveedor de embeddings no soportado: ");
                    m.append(vs);
                    m.append(". Usá 'api' o 'local'.");
                    Err(m)
                }
            },
        }
    }
}

/// An asset that lacks an embedding.
#[derive(Debug, Clone, PartialEq, Eq)]
pub struct AssetEmbeddingCandidate {
    pub asset_id: String,
    pub item_id: String,
}

/// How many assets have text and embeddings.
#[derive(Debug, Clone, Copy, PartialEq, Eq, Structural)]
pub struct AssetEmbeddingCoverageSummary {
    pub total_assets: i64,
    pub assets_with_text: i64,
    pub assets_with_embedding: i64,
    pub assets_missing_embedding: i64,
}

/// One required file of the local model.
#[derive(Debug, Clone, PartialEq, Eq)]
pub struct LocalEmbeddingModelFileInfo {
    pub filename: String,
    pub source_path: String,
    pub destination: String,
    pub size_bytes: Option<u64>,
    pub exists: bool,
}

/// The state of the local model's installation.
#[derive(Debug, Clone, PartialEq, Eq)]
pub struct LocalEmbeddingModelInfo {
    pub exists: bool,
    pub available: bool,
    pub can_auto_download: bool,
    pub directory: String,
    pub path: String,
    pub size_bytes: Option<u64>,
    pub required_files: Vec<LocalEmbeddingModelFileInfo>,
    pub missing_files: Vec<LocalEmbeddingModelFileInfo>,
    pub source_repo: String,
}

/// Progress of a model download.
#[derive(Debug, Clone)]
pub struct EmbeddingDownloadProgressPayload {
    pub pct: u8,
    pub downloaded_bytes: u64,
    pub total_bytes: Option<u64>,
    pub file: String,
}

/// A finished model download.
#[derive(Debug, Clone)]
pub struct EmbeddingDownloadCompletePayload {
    pub path: String,
}

/// A failed model download.
#[derive(Debug, Clone)]
pub struct EmbeddingDownloadErrorPayload {
    pub error: String,
}

/// The resolved embedding configuration.
#[derive(Debug)]
pub struct EmbeddingConfig {
    pub provider: EmbeddingProvider,
    pub api_key: String,
    pub model_name: String,
    pub local_model_dir: Option<std::path::PathBuf>,
    pub local_model_path: Option<std::path::PathBuf>,
    pub local_tokenizer_path: Option<std::path::PathBuf>,
    pub local_max_length: usize,
}

/// The default token cap of the local model.
pub const DEFAULT_LOCAL_EMBEDDING_MAX_LENGTH: usize = 8192;

impl EmbeddingConfig {
    /// A configuration for the remote API.
    pub fn openrouter(api_key: String, model_name: String) -> (r: Self)
        ensures
            r.provider == EmbeddingProvider::Api,
            r.api_key == api_key,
            r.model_name == model_name,
            r.local_model_dir is None,
            r.local_model_path is None,
            r.local_tokenizer_path is None,
            r.local_max_length == DEFAULT_LOCAL_EMBEDDING_MAX_LENGTH,
    {
        EmbeddingConfig {
            provider: EmbeddingProvider::Api,
            api_key,
            model_name,
            local_model_dir: None,
            local_model_path: None,
            local_tokenizer_path: None,
            local_max_length: DEFAULT_LOCAL_EMBEDDING_MAX_LENGTH,
        }
    }

    /// A configuration for the local model in `model_dir`.
    pub fn local(model_name: String, model_dir: Option<std::path::PathBuf>) -> (r: Self)
        ensures
            r.provider == EmbeddingProvider::Local,
            r.api_key@.len() == 0,
            r.model_name == model_name,
            r.local_model_dir == model_dir,
            r.local_model_path is None,
            r.local_tokenizer_path is None,
            r.local_max_length == DEFAULT_LOCAL_EMBEDDING_MAX_LENGTH,
    {
        EmbeddingConfig {
            provider: EmbeddingProvider::Local,
            api_key: String::new(),
            model_name,
            local_model_dir: model_dir,
            local_model_path: None,
            local_tokenizer_path: None,
            local_max_length: DEFAULT_LOCAL_EMBEDDING_MAX_LENGTH,
        }
    }
}

// ── Hashing ──────────────────────────────────────────────────────────────────

pub const FNV_OFFSET: u64 = 0xcbf29ce484222325;

pub const FNV_PRIME: u64 = 0x100000001b3;

/// The 64-bit FNV-1a hash of a byte string: for each byte, xor it in, then
/// multiply by the prime modulo 2^64.
pub open spec fn fnv1a(bytes: Seq<u8>) -> u64
    decreases bytes.len(),
{
    if bytes.len() == 0 {
        FNV_OFFSET
    } else {
        let h = fnv1a(bytes.drop_last()) ^ (bytes.last() as u64);
        ((h as int * FNV_PRIME as int) % 0x1_0000_0000_0000_0000) as u64
    }
}

/// The FNV-1a hash of a byte string.
pub fn rolling_hash64(bytes: &[u8]) -> (r: u64)
    ensures
        r == fnv1a(bytes@),
{
    let mut hash: u64 = FNV_OFFSET;
    let mut i: usize = 0;
    while i < bytes.len()
        invariant
            i <= bytes.len(),
            hash == fnv1a(bytes@.take(i as int)),
        decreases bytes.len() - i,
    {
        proof {
            assert(bytes@.take(i + 1).drop_last() =~= bytes@.take(i as int));
        }
        hash = hash ^ (bytes[i] as u64);
        hash = hash.wrapping_mul(FNV_PRIME);
        i += 1;
    }
    assert(bytes@.take(bytes.len() as int) =~= bytes@);
    hash
}

// ── Messages ─────────────────────────────────────────────────────────────────

/// The log line written when an item's embedding is skipped.
pub fn embedding_degradation_log(item_id: &str, reason: &str) -> (r: String)
    ensures
        r@ == "[nlp/embeddings] Skipping embedding for "@ + item_id@ + ": "@ + reason@,
{
    let mut s = String::from_str("[nlp/embeddings] Skipping embedding for ");
    s.append(item_id);
    s.append(": ");
    s.append(reason);
    s
}

pub const NO_ENGINE_MESSAGE: &'static str = "No BGE-M3 embedding engine configured. Set OpenRouter API credentials for the api provider or install/select the local BGE-M3 ONNX assets for the local provider.";

/// Why no embedding engine is available: the last initialisation error when
/// there is a non-blank one, else a setup hint.
pub open spec fn unavailable_reason(last: Option<Seq<char>>) -> Seq<char> {
    match last {
        Some(e) if trim(e).len() > 0 => "No BGE-M3 embedding engine configured. Last initialization error: "@
            + trim(e),
        _ => NO_ENGINE_MESSAGE@,
    }
}

pub fn embedding_engine_unavailable_reason(last_init_error: Option<&str>) -> (r: String)
    ensures
        r@ == unavailable_reason(
            match last_init_error {
                Some(s) => Some(s@),
                None => None,
            },
        ),
{
    match last_init_error {
        Some(e) => {
            let t = crate::text::trim_string(e);
            if t.as_str().unicode_len() > 0 {
                let mut s = String::from_str(
                    "No BGE-M3 embedding engine configured. Last initialization error: ",
                );
                s.append(t.as_str());
                s
            } else {
                String::from_str(NO_ENGINE_MESSAGE)
            }
        },
        None => String::from_str(NO_ENGINE_MESSAGE),
    }
}

/// The legacy bundled model directory, in any form: trimmed, backslashes read
/// as slashes, ASCII case ignored, leading `./` removed.
pub open spec fn legacy_dir_key(value: Seq<char>) -> Seq<char> {
    strip_dot_slash(
        trim(value).map_values(|c: char| if c == '\\' { '/' } else { c }).map_values(
            |c: char| ascii_lower(c),
        ),
    )
}

/// `s` without leading `./` (repeatedly).
pub open spec fn strip_dot_slash(s: Seq<char>) -> Seq<char>
    decreases s.len(),
{
    if s.len() >= 2 && s[0] == '.' && s[1] == '/' {
        strip_dot_slash(s.subrange(2, s.len() as int))
    } else {
        s
    }
}

pub const LEGACY_EMBEDDING_DIR: &'static str = "resources/models/embeddings/bge-m3";

pub open spec fn is_legacy_dir(value: Seq<char>) -> bool {
    let k = legacy_dir_key(value);
    k == LEGACY_EMBEDDING_DIR@ || (k.len() >= LEGACY_EMBEDDING_DIR@.len() + 1 && k.subrange(
        k.len() - LEGACY_EMBEDDING_DIR@.len() - 1,
        k.len() as int,
    ) == "/"@ + LEGACY_EMBEDDING_DIR@)
}

/// Whether a configured model directory names the legacy bundled location.
pub fn is_legacy_resource_embedding_dir(value: &str) -> (r: bool)
    ensures
        r == is_legacy_dir(value@),
{
    let t = trim_chars(value);
    let mut n: Vec<char> = Vec::new();
    let mut i: usize = 0;
    while i < t.len()
        invariant
            i <= t.len(),
            n@ == t@.take(i as int).map_values(|c: char| if c == '\\' { '/' } else { c }).map_values(
                |c: char| ascii_lower(c),
            ),
        decreases t.len() - i,
    {
        let c = t[i];
        let c1 = if c == '\\' {
            '/'
        } else {
            c
        };
        n.push(to_ascii_lower(c1));
        i += 1;
        assert(n@ =~= t@.take(i as int).map_values(|c: char| if c == '\\' { '/' } else { c }).map_values(
            |c: char| ascii_lower(c),
        ));
    }
    assert(t@.take(t.len() as int) =~= t@);
    let mut start: usize = 0;
    assert(n@.subrange(0, n@.len() as int) =~= n@);
    while start < n.len() && start + 1 < n.len() && n[start] == '.' && n[start + 1] == '/'
        invariant
            start <= n.len(),
            strip_dot_slash(n@) == strip_dot_slash(n@.subrange(start as int, n.len() as int)),
        decreases n.len() - start,
    {
        proof {
            let rest = n@.subrange(start as int, n.len() as int);
            assert(rest.subrange(2, rest.len() as int) =~= n@.subrange(start + 2, n.len() as int));
        }
        start += 2;
    }
    let key = crate::text::slice_chars(&n, start, n.len());
    proof {
        let rest = n@.subrange(start as int, n.len() as int);
        assert(key@ == rest);
        assert(strip_dot_slash(rest) == rest);
    }
    let ks = string_from_chars(&key);
    let legacy = crate::chars::chars_of(LEGACY_EMBEDDING_DIR);
    if same_text(ks.as_str(), LEGACY_EMBEDDING_DIR) {
        return true;
    }
    if key.len() <= legacy.len() {
        return false;
    }
    let tail = crate::search::substring(&key, key.len() - legacy.len() - 1, key.len());
    let mut suffix = String::from_str("/");
    suffix.append(LEGACY_EMBEDDING_DIR);
    same_text(tail.as_str(), suffix.as_str())
}

// ── Local model directory ────────────────────────────────────────────────────

/// Where the local model lives, before it becomes a path.
#[derive(Debug, Clone, PartialEq, Eq)]
pub enum LocalModelDir {
    /// `<app data>/models/embeddings/bge-m3`, or the process default when no
    /// app data directory is known.
    Default,
    /// The configured path, as given (trimmed).
    Configured(String),
    /// The configured relative path, under `<app data>/models/embeddings`.
    UnderAppData(String),
}

/// A path that starts with a separator (`/` or a backslash) or a drive (`X:`): the
/// only shape an absolute path can have on any platform.
pub open spec fn may_be_absolute(path: Seq<char>) -> bool {
    path.len() > 0 && (path[0] == '/' || path[0] == '\\' || (path.len() >= 2 && path[1] == ':'))
}

/// Calls `std::path::Path::is_absolute`. Which paths count depends on the
/// platform: on Unix a path is absolute when it starts at the root `/`; on
/// Windows it needs a prefix (a drive `X:`, or a UNC or verbatim prefix that
/// starts with two separators)
/// and a root. Claimed: an absolute path has one of those shapes
/// (`may_be_absolute`); whether such a path counts is left open.
#[verifier::external_body]
fn path_is_absolute(path: &str) -> (r: bool)
    ensures
        r ==> may_be_absolute(path@),
{
    std::path::Path::new(path).is_absolute()
}

/// Which kind of directory a configured value leads to.
pub enum ModelDirKind {
    Default,
    Configured,
    UnderAppData,
}

/// The kind of model directory for a (trimmed) configured value: none or
/// empty gives the default; an absolute path is used as is; the legacy bundled
/// location gives the default; another relative path goes under the app data
/// directory when there is one, else is used as is.
pub open spec fn model_dir_kind(value: Seq<char>, absolute: bool, has_app_data: bool) -> ModelDirKind {
    if value.len() == 0 {
        ModelDirKind::Default
    } else if absolute {
        ModelDirKind::Configured
    } else if is_legacy_dir(value) {
        ModelDirKind::Default
    } else if has_app_data {
        ModelDirKind::UnderAppData
    } else {
        ModelDirKind::Configured
    }
}

/// `d` is the directory of the kind `model_dir_kind` chooses, carrying the value.
pub open spec fn is_model_dir_for(d: LocalModelDir, value: Seq<char>, absolute: bool, has_app_data: bool) -> bool {
    match d {
        LocalModelDir::Default => model_dir_kind(value, absolute, has_app_data) is Default,
        LocalModelDir::Configured(p) => model_dir_kind(value, absolute, has_app_data) is Configured
            && p@ == value,
        LocalModelDir::UnderAppData(p) => model_dir_kind(value, absolute, has_app_data) is UnderAppData
            && p@ == value,
    }
}

/// The model directory for a trimmed configured value and whether that value
/// is an absolute path (see `model_dir_kind`).
pub fn local_model_dir_for(value: &str, absolute: bool, has_app_data_dir: bool) -> (r: LocalModelDir)
    requires
        value@ == trim(value@),
    ensures
        is_model_dir_for(r, value@, absolute, has_app_data_dir),
{
    if value.unicode_len() == 0 {
        LocalModelDir::Default
    } else if absolute {
        LocalModelDir::Configured(String::from_str(value))
    } else if is_legacy_resource_embedding_dir(value) {
        LocalModelDir::Default
    } else if has_app_data_dir {
        LocalModelDir::UnderAppData(String::from_str(value))
    } else {
        LocalModelDir::Configured(String::from_str(value))
    }
}

/// `r` is what resolving the configured value gives: the default without a
/// value; otherwise the kind `model_dir_kind` gives for some answer of the
/// platform on whether the trimmed value is absolute, an answer that can be
/// yes only for a value that starts with a separator or a drive.
pub open spec fn is_resolved_model_dir(r: LocalModelDir, configured: Option<Seq<char>>, has_app_data_dir: bool) -> bool {
    match configured {
        None => r == LocalModelDir::Default,
        Some(c) => {
            &&& exists|absolute: bool|
                (absolute ==> may_be_absolute(trim(c))) && is_model_dir_for(
                    r,
                    trim(c),
                    absolute,
                    has_app_data_dir,
                )
            &&& !may_be_absolute(trim(c)) ==> is_model_dir_for(r, trim(c), false, has_app_data_dir)
        },
    }
}

/// Resolves the configured local model directory. Whether the trimmed value
/// is absolute is asked of the platform; the result is the one
/// `model_dir_kind` gives for that answer, and a value that does not start
/// with a separator or a drive is relative on every platform.
pub fn resolve_local_embedding_model_dir(configured: Option<&str>, has_app_data_dir: bool) -> (r:
    LocalModelDir)
    ensures
        is_resolved_model_dir(r, opt_seq(configured), has_app_data_dir),
        configured is None ==> r == LocalModelDir::Default,
        configured matches Some(c) ==> exists|absolute: bool|
            (absolute ==> may_be_absolute(trim(c@))) && is_model_dir_for(
                r,
                trim(c@),
                absolute,
                has_app_data_dir,
            ),
        configured matches Some(c) ==> (!may_be_absolute(trim(c@)) ==> is_model_dir_for(
            r,
            trim(c@),
            false,
            has_app_data_dir,
        )),
{
    match configured {
        None => LocalModelDir::Default,
        Some(c) => {
            let t = crate::text::trim_string(c);
            proof {
                crate::text::lemma_trim_idempotent(c@);
            }
            let absolute = path_is_absolute(t.as_str());
            let r = local_model_dir_for(t.as_str(), absolute, has_app_data_dir);
            assert(opt_seq(configured) == Some(c@));
            assert(is_model_dir_for(r, trim(c@), absolute, has_app_data_dir));
            assert((absolute ==> may_be_absolute(trim(c@))) && is_model_dir_for(
                r,
                trim(c@),
                absolute,
                has_app_data_dir,
            ));
            r
        },
    }
}

// ── Settings ─────────────────────────────────────────────────────────────────

/// The decimal value of a string of digits.
pub open spec fn decimal_value(s: Seq<char>) -> nat
    decreases s.len(),
{
    if s.len() == 0 {
        0
    } else {
        decimal_value(s.drop_last()) * 10 + ((s.last() as u32 - '0' as u32) as nat)
    }
}

pub open spec fn all_digits(s: Seq<char>) -> bool {
    forall|i: int| 0 <= i < s.len() ==> '0' <= #[trigger] s[i] && s[i] <= '9'
}

/// `str::parse::<usize>`: an optional `+` then one or more decimal digits
/// whose value fits in `usize`.
pub open spec fn parsed_usize(s: Seq<char>) -> Option<usize> {
    let d = if s.len() > 0 && s[0] == '+' {
        s.skip(1)
    } else {
        s
    };
    if d.len() == 0 || !all_digits(d) || decimal_value(d) > usize::MAX {
        None
    } else {
        Some(decimal_value(d) as usize)
    }
}

proof fn lemma_decimal_monotone(s: Seq<char>, k: int)
    requires
        0 <= k <= s.len(),
        all_digits(s),
    ensures
        decimal_value(s.take(k)) <= decimal_value(s),
    decreases s.len() - k,
{
    if k < s.len() {
        let t = s.take(k + 1);
        assert(t.drop_last() =~= s.take(k));
        assert('0' <= s[k] && s[k] <= '9');
        lemma_decimal_monotone(s, k + 1);
    } else {
        assert(s.take(k) =~= s);
    }
}

/// Reads a decimal `usize` (see `parsed_usize`).
fn parse_usize(text: &str) -> (r: Option<usize>)
    ensures
        r == parsed_usize(text@),
{
    let v = chars_of(text);
    let start: usize = if v.len() > 0 && v[0] == '+' { 1 } else { 0 };
    let ghost d = if v@.len() > 0 && v@[0] == '+' { v@.skip(1) } else { v@ };
    assert(d =~= v@.subrange(start as int, v.len() as int));
    if start == v.len() {
        return None;
    }
    let mut i: usize = start;
    let mut acc: usize = 0;
    while i < v.len()
        invariant
            start <= i <= v.len(),
            v@ == text@,
            d == (if v@.len() > 0 && v@[0] == '+' { v@.skip(1) } else { v@ }),
            d == v@.subrange(start as int, v.len() as int),
            all_digits(d.take(i - start)),
            acc as nat == decimal_value(d.take(i - start)),
        decreases v.len() - i,
    {
        let c = v[i];
        proof {
            assert(d.take(i - start + 1).drop_last() =~= d.take(i - start));
            assert(d[i - start] == c);
        }
        if c < '0' || c > '9' {
            proof {
                assert(!('0' <= d[i - start] && d[i - start] <= '9'));
                assert(!all_digits(d));
                assert(parsed_usize(text@) is None);
            }
            return None;
        }
        let digit = (c as u32 - '0' as u32) as usize;
        let next = match acc.checked_mul(10) {
            Some(m) => m.checked_add(digit),
            None => None,
        };
        match next {
            Some(n) => {
                acc = n;
            },
            None => {
                proof {
                    let k = i - start + 1;
                    assert(d.take(k).last() == c);
                    assert(decimal_value(d.take(k)) == decimal_value(d.take(k - 1)) * 10 + digit);
                    assert(decimal_value(d.take(k)) > usize::MAX);
                    if all_digits(d) {
                        lemma_decimal_monotone(d, k);
                    }
                    assert(parsed_usize(text@) is None);
                }
                return None;
            },
        }
        i += 1;
        proof {
            assert forall|k: int| 0 <= k < d.take(i - start).len() implies '0' <= #[trigger] d.take(
                i - start,
            )[k] && d.take(i - start)[k] <= '9' by {
                if k < i - start - 1 {
                    assert(d.take(i - start)[k] == d.take(i - start - 1)[k]);
                }
            }
        }
    }
    assert(d.take(v.len() - start) =~= d);
    Some(acc)
}

pub const DEFAULT_OPENROUTER_EMBEDDING_MODEL: &'static str = "baai/bge-m3";

pub const API_KEY_MISSING: &'static str = "OpenRouter API key no configurada. Configurá OpenRouter para generar embeddings BGE-M3 o cambiá el proveedor a Local ONNX con el modelo BGE-M3 instalado.";

/// The embedding settings as stored, resolved but before any path is built.
#[derive(Debug)]
pub struct EmbeddingSettings {
    pub provider: EmbeddingProvider,
    pub api_key: String,
    pub model_name: String,
    pub local_model_dir: Option<LocalModelDir>,
    pub local_max_length: usize,
}

pub open spec fn opt_seq(o: Option<&str>) -> Option<Seq<char>> {
    match o {
        Some(s) => Some(s@),
        None => None,
    }
}

/// A setting trimmed, `None` when absent or blank.
pub open spec fn nonblank(o: Option<Seq<char>>) -> Option<Seq<char>> {
    match o {
        Some(s) => if trim(s).len() > 0 {
            Some(trim(s))
        } else {
            None
        },
        None => None,
    }
}

/// The token cap: the setting read as a decimal (the default 8192 when absent
/// or unreadable), kept between 8 and 8192.
pub open spec fn max_length_for(setting: Option<Seq<char>>) -> usize {
    let v = match setting {
        Some(s) => match parsed_usize(trim(s)) {
            Some(n) => n,
            None => DEFAULT_LOCAL_EMBEDDING_MAX_LENGTH,
        },
        None => DEFAULT_LOCAL_EMBEDDING_MAX_LENGTH,
    };
    if v < 8 {
        8
    } else if v > DEFAULT_LOCAL_EMBEDDING_MAX_LENGTH {
        DEFAULT_LOCAL_EMBEDDING_MAX_LENGTH
    } else {
        v
    }
}

fn nonblank_string(o: Option<&str>) -> (r: Option<String>)
    ensures
        match r {
            Some(s) => nonblank(opt_seq(o)) == Some(s@),
            None => nonblank(opt_seq(o)) is None,
        },
{
    match o {
        Some(s) => {
            let t = crate::text::trim_string(s);
            if t.as_str().unicode_len() > 0 {
                Some(t)
            } else {
                None
            }
        },
        None => None,
    }
}

/// Resolves the stored embedding settings (provider, API key, model name,
/// model directory, token cap). The provider setting must name a provider;
/// the remote provider needs a non-blank key. The API key and model name are
/// trimmed (the model defaults to `baai/bge-m3`); for the local provider the
/// directory is resolved as `resolve_local_embedding_model_dir` does, for the
/// remote one it is the trimmed value as given.
pub fn embedding_settings(
    provider_setting: Option<&str>,
    api_key_setting: Option<&str>,
    model_setting: Option<&str>,
    dir_setting: Option<&str>,
    max_length_setting: Option<&str>,
    has_app_data_dir: bool,
) -> (r: Result<EmbeddingSettings, String>)
    ensures
        provider_for(opt_seq(provider_setting)) matches Err(e) ==> (r matches Err(m) && m@ == e),
        provider_for(opt_seq(provider_setting)) == Ok::<EmbeddingProvider, Seq<char>>(
            EmbeddingProvider::Api,
        ) && nonblank(opt_seq(api_key_setting)) is None ==> (r matches Err(m) && m@
            == API_KEY_MISSING@),
        r matches Ok(s) ==> {
            &&& provider_for(opt_seq(provider_setting)) == Ok::<EmbeddingProvider, Seq<char>>(
                s.provider,
            )
            &&& s.api_key@ == match nonblank(opt_seq(api_key_setting)) {
                Some(k) => k,
                None => Seq::<char>::empty(),
            }
            &&& s.model_name@ == match nonblank(opt_seq(model_setting)) {
                Some(m) => m,
                None => DEFAULT_OPENROUTER_EMBEDDING_MODEL@,
            }
            &&& s.local_max_length == max_length_for(opt_seq(max_length_setting))
            &&& (s.provider == EmbeddingProvider::Local ==> (s.local_model_dir matches Some(d)
                && is_resolved_model_dir(d, opt_seq(dir_setting), has_app_data_dir)))
            &&& (s.provider == EmbeddingProvider::Api ==> match nonblank(opt_seq(dir_setting)) {
                Some(v) => (s.local_model_dir matches Some(LocalModelDir::Configured(p)) && p@ == v),
                None => s.local_model_dir is None,
            })
        },
        r is Err ==> provider_for(opt_seq(provider_setting)) is Err || (provider_for(
            opt_seq(provider_setting),
        ) == Ok::<EmbeddingProvider, Seq<char>>(EmbeddingProvider::Api) && nonblank(
            opt_seq(api_key_setting),
        ) is None),
{
    let provider = match EmbeddingProvider::from_setting(provider_setting) {
        Ok(p) => p,
        Err(e) => return Err(e),
    };
    let api_key = match nonblank_string(api_key_setting) {
        Some(k) => k,
        None => String::new(),
    };
    let model_name = match nonblank_string(model_setting) {
        Some(m) => m,
        None => String::from_str(DEFAULT_OPENROUTER_EMBEDDING_MODEL),
    };
    let local_model_dir = match provider {
        EmbeddingProvider::Local => Some(resolve_local_embedding_model_dir(dir_setting, has_app_data_dir)),
        EmbeddingProvider::Api => match nonblank_string(dir_setting) {
            Some(v) => Some(LocalModelDir::Configured(v)),
            None => None,
        },
    };
    let parsed = match max_length_setting {
        Some(s) => {
            let t = crate::text::trim_string(s);
            match parse_usize(t.as_str()) {
                Some(n) => n,
                None => DEFAULT_LOCAL_EMBEDDING_MAX_LENGTH,
            }
        },
        None => DEFAULT_LOCAL_EMBEDDING_MAX_LENGTH,
    };
    let local_max_length = if parsed < 8 {
        8
    } else if parsed > DEFAULT_LOCAL_EMBEDDING_MAX_LENGTH {
        DEFAULT_LOCAL_EMBEDDING_MAX_LENGTH
    } else {
        parsed
    };
    if provider == EmbeddingProvider::Api && api_key.as_str().unicode_len() == 0 {
        return Err(String::from_str(API_KEY_MISSING));
    }
    Ok(EmbeddingSettings { provider, api_key, model_name, local_model_dir, local_max_length })
}

/// The checks made before an asset's text is embedded: blank text is refused
/// with a hint to run OCR first; with no engine the item is skipped, and the
/// error is the skip log line with the reason why no engine is available.
pub fn asset_embedding_precheck(
    item_id: &str,
    asset_id: &str,
    text: &str,
    engine_available: bool,
    last_init_error: Option<&str>,
) -> (r: Result<(), String>)
    ensures
        trim(text@).len() == 0 ==> (r matches Err(m) && m@
            == "No source text available for asset '"@ + asset_id@
            + "' (run OCR/transcription first)"@),
        trim(text@).len() > 0 && !engine_available ==> (r matches Err(m) && m@
            == "[nlp/embeddings] Skipping embedding for "@ + item_id@ + ": "@
            + unavailable_reason(opt_seq(last_init_error))),
        r is Ok <==> trim(text@).len() > 0 && engine_available,
{
    let t = crate::text::trim_string(text);
    if t.as_str().unicode_len() == 0 {
        let mut m = String::from_str("No source text available for asset '");
        m.append(asset_id);
        m.append("' (run OCR/transcription first)");
        return Err(m);
    }
    if !engine_available {
        let reason = embedding_engine_unavailable_reason(last_init_error);
        return Err(embedding_degradation_log(item_id, reason.as_str()));
    }
    Ok(())
}

// ── Local model status ───────────────────────────────────────────────────────

pub const LOCAL_EMBEDDING_MODEL_FILE: &'static str = "model.onnx";

pub const LOCAL_EMBEDDING_ONNX_DATA_FILE: &'static str = "model.onnx_data";

pub const LOCAL_EMBEDDING_TOKENIZER_FILE: &'static str = "tokenizer.json";

pub const BGE_M3_SOURCE_REPO: &'static str = "BAAI/bge-m3";

impl LocalEmbeddingModelFileInfo {
    /// A field-by-field copy.
    pub fn duplicate(&self) -> (r: Self)
        ensures
            r == *self,
    {
        LocalEmbeddingModelFileInfo {
            filename: self.filename.clone(),
            source_path: self.source_path.clone(),
            destination: self.destination.clone(),
            size_bytes: self.size_bytes,
            exists: self.exists,
        }
    }
}

/// The files that are not present, in order.
pub open spec fn missing_of(files: Seq<LocalEmbeddingModelFileInfo>) -> Seq<LocalEmbeddingModelFileInfo>
    decreases files.len(),
{
    if files.len() == 0 {
        files
    } else {
        let m = missing_of(files.drop_last());
        if files.last().exists {
            m
        } else {
            m.push(files.last())
        }
    }
}

/// `a + b`, saturating at `u64::MAX`.
pub open spec fn sat_add(a: u64, b: u64) -> u64 {
    if a + b > u64::MAX {
        u64::MAX
    } else {
        (a + b) as u64
    }
}

/// The sum of the known sizes, saturating; `None` when no size is known.
pub open spec fn total_size(files: Seq<LocalEmbeddingModelFileInfo>) -> Option<u64>
    decreases files.len(),
{
    if files.len() == 0 {
        None
    } else {
        let t = total_size(files.drop_last());
        match files.last().size_bytes {
            None => t,
            Some(s) => match t {
                None => Some(s),
                Some(a) => Some(sat_add(a, s)),
            },
        }
    }
}

/// The status of the local model from its required files: it is available
/// (and exists) when no file is missing; its size is the sum of the known sizes.
pub fn local_embedding_model_info_from_files(
    directory: String,
    model_path: String,
    required_files: Vec<LocalEmbeddingModelFileInfo>,
) -> (r: LocalEmbeddingModelInfo)
    ensures
        r.missing_files@ == missing_of(required_files@),
        r.available == (missing_of(required_files@).len() == 0),
        r.exists == r.available,
        r.can_auto_download,
        r.size_bytes == total_size(required_files@),
        r.required_files@ == required_files@,
        r.directory == directory,
        r.path == model_path,
        r.source_repo@ == BGE_M3_SOURCE_REPO@,
{
    let mut missing: Vec<LocalEmbeddingModelFileInfo> = Vec::new();
    let mut size: Option<u64> = None;
    let mut i: usize = 0;
    while i < required_files.len()
        invariant
            i <= required_files.len(),
            missing@ == missing_of(required_files@.take(i as int)),
            size == total_size(required_files@.take(i as int)),
        decreases required_files.len() - i,
    {
        proof {
            assert(required_files@.take(i + 1).drop_last() =~= required_files@.take(i as int));
        }
        let f = &required_files[i];
        if !f.exists {
            missing.push(f.duplicate());
        }
        match f.size_bytes {
            None => {},
            Some(sz) => {
                size = match size {
                    None => Some(sz),
                    Some(a) => Some(a.saturating_add(sz)),
                };
            },
        }
        i += 1;
    }
    assert(required_files@.take(required_files.len() as int) =~= required_files@);
    let available = missing.len() == 0;
    LocalEmbeddingModelInfo {
        exists: available,
        available,
        can_auto_download: true,
        directory,
        path: model_path,
        size_bytes: size,
        required_files,
        missing_files: missing,
        source_repo: String::from_str(BGE_M3_SOURCE_REPO),
    }
}

pub const INCOMPLETE_MODEL_HEAD: &'static str = "Local BGE-M3 model incomplete at ";

pub const INCOMPLETE_MODEL_TAIL: &'static str = ". Install BGE-M3 from Settings or place all required files (model.onnx, model.onnx_data, tokenizer.json) in that folder. The EMBED action only uses the configured BGE-M3 provider.";

/// How a missing file is listed.
pub open spec fn missing_file_text(f: LocalEmbeddingModelFileInfo) -> Seq<char> {
    f.filename@ + " (expected at "@ + f.destination@ + ")"@
}

pub open spec fn missing_texts(files: Seq<LocalEmbeddingModelFileInfo>) -> Seq<Seq<char>> {
    files.map_values(|f: LocalEmbeddingModelFileInfo| missing_file_text(f))
}

/// Why the local model cannot be used: `None` when it is available, else the
/// directory and the missing files, each with where it was expected.
pub open spec fn incomplete_model_message(info: LocalEmbeddingModelInfo) -> Option<Seq<char>> {
    if info.available {
        None
    } else {
        Some(INCOMPLETE_MODEL_HEAD@ + info.directory@ + ". Missing required files: "@
            + crate::text::join(missing_texts(info.missing_files@), ", "@) + INCOMPLETE_MODEL_TAIL@)
    }
}

/// The error reported when the local model is not complete (see
/// `incomplete_model_message`).
pub fn local_embedding_model_incomplete_error(info: &LocalEmbeddingModelInfo) -> (r: Option<String>)
    ensures
        match r {
            None => incomplete_model_message(*info) is None,
            Some(m) => incomplete_model_message(*info) == Some(m@),
        },
{
    if info.available {
        return None;
    }
    let ghost texts = missing_texts(info.missing_files@);
    let mut list = String::new();
    let mut i: usize = 0;
    while i < info.missing_files.len()
        invariant
            i <= info.missing_files.len(),
            texts == missing_texts(info.missing_files@),
            list@ == crate::text::join(texts.take(i as int), ", "@),
        decreases info.missing_files.len() - i,
    {
        let f = &info.missing_files[i];
        let ghost before = list@;
        if i > 0 {
            list.append(", ");
        }
        list.append(f.filename.as_str());
        list.append(" (expected at ");
        list.append(f.destination.as_str());
        list.append(")");
        proof {
            let t = texts.take(i + 1);
            assert(t.drop_last() =~= texts.take(i as int));
            assert(t.last() == missing_file_text(info.missing_files@[i as int]));
            if i == 0 {
                assert(t.len() == 1);
                assert(list@ =~= t[0]);
            } else {
                assert(list@ =~= before + ", "@ + t.last());
            }
        }
        i += 1;
    }
    assert(texts.take(info.missing_files.len() as int) =~= texts);
    let mut m = String::from_str(INCOMPLETE_MODEL_HEAD);
    m.append(info.directory.as_str());
    m.append(". Missing required files: ");
    m.append(list.as_str());
    m.append(INCOMPLETE_MODEL_TAIL);
    Some(m)
}

// ── Download progress ────────────────────────────────────────────────────────

/// The percentage of a download: `downloaded * 100 / total` (the product
/// saturating at `u64::MAX`), at most 100.
pub open spec fn download_pct(downloaded: u64, total: u64) -> u8
    recommends
        total > 0,
{
    let p = if downloaded * 100 > u64::MAX {
        u64::MAX as int
    } else {
        downloaded * 100
    };
    let q = p / (total as int);
    if q > 100 {
        100u8
    } else {
        q as u8
    }
}

/// What a download has received, and the last percentage it reported.
#[derive(Debug, Clone, Copy, PartialEq, Eq, Structural)]
pub struct DownloadProgress {
    pub downloaded_bytes: u64,
    pub last_reported_pct: u8,
}

impl DownloadProgress {
    /// Nothing received or reported yet.
    pub fn new() -> (r: Self)
        ensures
            r.downloaded_bytes == 0,
            r.last_reported_pct == 0,
    {
        DownloadProgress { downloaded_bytes: 0, last_reported_pct: 0 }
    }

    /// Records a chunk of `read` bytes and says which percentage to report, if
    /// any: only when the total size is known, and only when the percentage
    /// moved at least five points since the last report or reached 100.
    pub fn record_chunk(&mut self, read: u64, total: Option<u64>) -> (report: Option<u8>)
        requires
            old(self).downloaded_bytes + read <= u64::MAX,
        ensures
            final(self).downloaded_bytes == old(self).downloaded_bytes + read,
            match total {
                Some(t) if t > 0 => {
                    let pct = download_pct(final(self).downloaded_bytes, t);
                    let due = pct >= (if old(self).last_reported_pct + 5 > 255 {
                        255
                    } else {
                        old(self).last_reported_pct + 5
                    }) || pct == 100;
                    &&& due ==> report == Some(pct) && final(self).last_reported_pct == pct
                    &&& !due ==> report is None && final(self).last_reported_pct == old(
                        self,
                    ).last_reported_pct
                },
                _ => report is None && final(self).last_reported_pct == old(self).last_reported_pct,
            },
            report matches Some(p) ==> p <= 100,
    {
        self.downloaded_bytes = self.downloaded_bytes + read;
        match total {
            Some(t) => {
                if t > 0 {
                    let product: u64 = if self.downloaded_bytes > u64::MAX / 100 {
                        u64::MAX
                    } else {
                        self.downloaded_bytes * 100
                    };
                    let q = product / t;
                    let pct: u8 = if q > 100 {
                        100
                    } else {
                        q as u8
                    };
                    if pct >= self.last_reported_pct.saturating_add(5) || pct == 100 {
                        self.last_reported_pct = pct;
                        return Some(pct);
                    }
                }
                None
            },
            None => None,
        }
    }
}

/// A finished download that received nothing is an error.
pub fn empty_download_error(filename: &str, downloaded_size: u64) -> (r: Option<String>)
    ensures
        (r is Some) == (downloaded_size == 0),
        r matches Some(m) ==> m@ == "Downloaded BGE-M3 asset "@ + filename@ + " is empty"@,
{
    if downloaded_size == 0 {
        let mut m = String::from_str("Downloaded BGE-M3 asset ");
        m.append(filename);
        m.append(" is empty");
        Some(m)
    } else {
        None
    }
}

// ── Backfill report ──────────────────────────────────────────────────────────

/// An asset whose embedding could not be computed.
#[derive(Debug, Clone, PartialEq, Eq)]
pub struct AssetEmbeddingBackfillFailure {
    pub asset_id: String,
    pub item_id: String,
    pub error: String,
}

/// The outcome of a backfill run.
#[derive(Debug, Clone, PartialEq, Eq)]
pub struct AssetEmbeddingBackfillReport {
    pub force: bool,
    pub limit: Option<usize>,
    pub total_assets: i64,
    pub assets_with_text: i64,
    pub assets_with_embedding: i64,
    pub assets_missing_embedding: i64,
    pub requested: usize,
    pub succeeded: usize,
    pub failed: usize,
    pub failures: Vec<AssetEmbeddingBackfillFailure>,
}

/// The options of a backfill run: `force` defaults to false, a zero limit means none.
pub fn backfill_options(force: Option<bool>, limit: Option<usize>) -> (r: (bool, Option<usize>))
    ensures
        r.0 == (force == Some(true)),
        r.1 == (match limit {
            Some(l) if l > 0 => Some(l),
            _ => None::<usize>,
        }),
{
    let f = match force {
        Some(b) => b,
        None => false,
    };
    let l = match limit {
        Some(v) => if v > 0 {
            Some(v)
        } else {
            None
        },
        None => None,
    };
    (f, l)
}

/// The number of successes among the results.
pub open spec fn successes(results: Seq<Result<(), String>>) -> nat
    decreases results.len(),
{
    if results.len() == 0 {
        0
    } else {
        successes(results.drop_last()) + if results.last() is Ok {
            1nat
        } else {
            0nat
        }
    }
}

/// The failures, in order: each failed candidate with its error.
pub open spec fn failures_of(
    candidates: Seq<AssetEmbeddingCandidate>,
    results: Seq<Result<(), String>>,
) -> Seq<(Seq<char>, Seq<char>, Seq<char>)>
    decreases results.len(),
{
    if results.len() == 0 || candidates.len() < results.len() {
        Seq::empty()
    } else {
        let prev = failures_of(candidates, results.drop_last());
        let k = results.len() - 1;
        match results.last() {
            Ok(_) => prev,
            Err(e) => prev.push((candidates[k].asset_id@, candidates[k].item_id@, e@)),
        }
    }
}

pub open spec fn failure_views(f: Seq<AssetEmbeddingBackfillFailure>) -> Seq<
    (Seq<char>, Seq<char>, Seq<char>),
> {
    f.map_values(|x: AssetEmbeddingBackfillFailure| (x.asset_id@, x.item_id@, x.error@))
}

/// The report of a backfill run from the coverage after it and the result of
/// each candidate, in order.
pub fn backfill_report(
    force: bool,
    limit: Option<usize>,
    coverage: AssetEmbeddingCoverageSummary,
    candidates: &Vec<AssetEmbeddingCandidate>,
    results: Vec<Result<(), String>>,
) -> (r: AssetEmbeddingBackfillReport)
    requires
        results.len() == candidates.len(),
    ensures
        r.force == force,
        r.limit == limit,
        r.total_assets == coverage.total_assets,
        r.assets_with_text == coverage.assets_with_text,
        r.assets_with_embedding == coverage.assets_with_embedding,
        r.assets_missing_embedding == coverage.assets_missing_embedding,
        r.requested == candidates.len(),
        r.succeeded == successes(results@),
        failure_views(r.failures@) == failures_of(candidates@, results@),
        r.failed == r.failures.len(),
        r.succeeded + r.failed == r.requested,
{
    let mut succeeded: usize = 0;
    let mut failures: Vec<AssetEmbeddingBackfillFailure> = Vec::new();
    let mut i: usize = 0;
    while i < results.len()
        invariant
            results.len() == candidates.len(),
            i <= results.len(),
            succeeded == successes(results@.take(i as int)),
            failure_views(failures@) == failures_of(candidates@, results@.take(i as int)),
            succeeded + failures.len() == i,
        decreases results.len() - i,
    {
        proof {
            assert(results@.take(i + 1).drop_last() =~= results@.take(i as int));
            assert(results@.take(i + 1).last() == results@[i as int]);
        }
        match &results[i] {
            Ok(_) => {
                succeeded += 1;
            },
            Err(e) => {
                let ghost before = failure_views(failures@);
                let c = &candidates[i];
                failures.push(
                    AssetEmbeddingBackfillFailure {
                        asset_id: String::from_str(c.asset_id.as_str()),
                        item_id: String::from_str(c.item_id.as_str()),
                        error: String::from_str(e.as_str()),
                    },
                );
                assert(failure_views(failures@) =~= before.push(
                    (c.asset_id@, c.item_id@, e@),
                ));
            },
        }
        i += 1;
    }
    assert(results@.take(results.len() as int) =~= results@);
    let failed = failures.len();
    AssetEmbeddingBackfillReport {
        force,
        limit,
        total_assets: coverage.total_assets,
        assets_with_text: coverage.assets_with_text,
        assets_with_embedding: coverage.assets_with_embedding,
        assets_missing_embedding: coverage.assets_missing_embedding,
        requested: candidates.len(),
        succeeded,
        failed,
        failures,
    }
}

} // verus!
