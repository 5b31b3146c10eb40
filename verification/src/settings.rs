//! Settings: what the settings pages show of providers and embedding configuration,
//! whether embedding is ready to use, and the values the settings accept.
use vstd::prelude::*;
use crate::embedding::EmbeddingProviderType;
use crate::model::ProviderConfig;
use crate::text::{append_chars, chars_of, join, join_chars, str_eq, string_of, views};

verus! {

/// A chat provider with the state of its stored key.
pub struct ProviderWithStatus {
    pub config: ProviderConfig,
    pub has_api_key: bool,
    pub masked_api_key: Option<String>,
}

/// A request to save a chat provider and, optionally, its key.
pub struct SaveProviderRequest {
    pub config: ProviderConfig,
    pub api_key: Option<String>,
}

/// The outcome of testing a connection.
pub struct TestConnectionResult {
    pub success: bool,
    pub message: String,
    pub latency_ms: Option<u64>,
    pub dimensions: Option<u32>,
}

/// The models a provider offers.
pub struct FetchModelsResult {
    pub success: bool,
    pub models: Vec<String>,
    pub message: String,
}

/// The settings of one embedding provider.
pub struct EmbeddingProviderSettings {
    pub model: String,
    pub dimensions: Option<u32>,
    pub api_key_ref: String,
    pub base_url: Option<String>,
    pub proxy_url: Option<String>,
}

/// One embedding provider's settings as the settings page shows them.
pub struct EmbeddingProviderConfigResponse {
    pub model: String,
    pub dimensions: Option<u32>,
    pub has_api_key: bool,
    pub masked_api_key: Option<String>,
    pub base_url: Option<String>,
    pub proxy_url: Option<String>,
}

/// The embedding settings as the settings page shows them.
pub struct EmbeddingConfigResponse {
    pub active_provider: String,
    pub gemini: EmbeddingProviderConfigResponse,
    pub openai: EmbeddingProviderConfigResponse,
}

/// A request to save the embedding settings.
pub struct SaveEmbeddingConfigRequest {
    pub provider: String,
    pub model: String,
    pub dimensions: Option<u32>,
    pub api_key: Option<String>,
    pub base_url: Option<String>,
    pub proxy_url: Option<String>,
}

/// The embedding models a provider offers.
pub struct FetchEmbeddingModelsResult {
    pub success: bool,
    pub models: Vec<EmbeddingModelInfo>,
    pub message: String,
}

/// An embedding model.
pub struct EmbeddingModelInfo {
    pub id: String,
    pub name: String,
}

/// Whether embedding is ready to use, and what is missing.
pub struct EmbeddingConfigStatus {
    /// Whether embedding is configured (not disabled and has required settings)
    pub is_configured: bool,
    /// Current provider name
    pub provider: String,
    /// What's missing for the configuration to be complete
    pub missing: Vec<String>,
    /// Human-readable status message
    pub message: String,
}

pub open spec fn opt_text(o: Option<String>) -> Option<Seq<char>> {
    match o {
        Some(s) => Some(s@),
        None => None,
    }
}

fn copy_opt(o: &Option<String>) -> (res: Option<String>)
    ensures
        opt_text(res) == opt_text(*o),
{
    match o {
        Some(s) => Some(String::from_str(s.as_str())),
        None => None,
    }
}

/// A provider's settings as shown: a key counts as stored where the settings name one
/// and the keychain holds it (`key_stored`); the masked key is shown only then.
pub fn build_provider_config_response(
    settings: &EmbeddingProviderSettings,
    key_stored: bool,
    masked_api_key: Option<String>,
) -> (res: EmbeddingProviderConfigResponse)
    ensures
        res.model@ == settings.model@,
        res.dimensions == settings.dimensions,
        res.has_api_key == (settings.api_key_ref@.len() > 0 && key_stored),
        opt_text(res.masked_api_key) == if res.has_api_key {
            opt_text(masked_api_key)
        } else {
            None
        },
        opt_text(res.base_url) == opt_text(settings.base_url),
        opt_text(res.proxy_url) == opt_text(settings.proxy_url),
{
    let has_api_key = chars_of(settings.api_key_ref.as_str()).len() > 0 && key_stored;
    let masked = if has_api_key {
        masked_api_key
    } else {
        None
    };
    EmbeddingProviderConfigResponse {
        model: String::from_str(settings.model.as_str()),
        dimensions: settings.dimensions,
        has_api_key,
        masked_api_key: masked,
        base_url: copy_opt(&settings.base_url),
        proxy_url: copy_opt(&settings.proxy_url),
    }
}

/// The name of an embedding provider type.
pub open spec fn provider_name(p: EmbeddingProviderType) -> Seq<char> {
    match p {
        EmbeddingProviderType::Disabled => "disabled"@,
        EmbeddingProviderType::OpenAI => "openai"@,
        EmbeddingProviderType::Gemini => "gemini"@,
    }
}

/// The name of an embedding provider type.
pub fn embedding_provider_name(p: &EmbeddingProviderType) -> (res: &'static str)
    ensures
        res@ == provider_name(*p),
{
    match p {
        EmbeddingProviderType::Disabled => "disabled",
        EmbeddingProviderType::OpenAI => "openai",
        EmbeddingProviderType::Gemini => "gemini",
    }
}

/// The provider type with the given name, or an error naming the invalid provider.
pub fn parse_embedding_provider(name: &str) -> (res: Result<EmbeddingProviderType, String>)
    ensures
        match res {
            Ok(p) => provider_name(p) == name@,
            Err(m) => m@ == "Invalid provider: "@ + name@ && name@ != "disabled"@ && name@
                != "openai"@ && name@ != "gemini"@,
        },
{
    if str_eq(name, "disabled") {
        Ok(EmbeddingProviderType::Disabled)
    } else if str_eq(name, "openai") {
        Ok(EmbeddingProviderType::OpenAI)
    } else if str_eq(name, "gemini") {
        Ok(EmbeddingProviderType::Gemini)
    } else {
        let mut m = chars_of("Invalid provider: ");
        let n = chars_of(name);
        append_chars(&mut m, n.as_slice());
        Err(string_of(&m))
    }
}

/// What the active provider's settings lack: a stored key, a model, and for OpenAI a
/// base URL.
pub open spec fn missing_settings(
    active: EmbeddingProviderType,
    settings: EmbeddingProviderSettings,
    key_stored: bool,
) -> Seq<Seq<char>> {
    let a = if settings.api_key_ref@.len() > 0 && key_stored {
        Seq::<Seq<char>>::empty()
    } else {
        seq!["API Key"@]
    };
    let b = if settings.model@.len() == 0 {
        a.push("模型"@)
    } else {
        a
    };
    if active is OpenAI && (match settings.base_url {
        Some(u) => u@.len() == 0,
        None => true,
    }) {
        b.push("Base URL"@)
    } else {
        b
    }
}

pub open spec fn texts(v: Seq<String>) -> Seq<Seq<char>> {
    v.map_values(|s: String| s@)
}

/// Whether embedding is ready with the active provider and its settings
/// (`key_stored`: whether the keychain holds the key the settings name): when
/// disabled it is not, and the embedding service is what is missing; otherwise it is
/// ready exactly when nothing is missing, and the message names the provider or
/// lists what is missing.
pub fn embedding_config_status(
    active: &EmbeddingProviderType,
    settings: &EmbeddingProviderSettings,
    key_stored: bool,
) -> (res: EmbeddingConfigStatus)
    ensures
        res.provider@ == provider_name(*active),
        *active is Disabled ==> !res.is_configured && texts(res.missing@) == seq!["Embedding 服务"@]
            && res.message@ == "请先在设置中配置 Embedding 服务"@,
        !(*active is Disabled) ==> {
            &&& texts(res.missing@) == missing_settings(*active, *settings, key_stored)
            &&& res.is_configured == (res.missing@.len() == 0)
            &&& res.message@ == if res.is_configured {
                "Embedding 已配置 ("@ + provider_name(*active) + ")"@
            } else {
                "请先配置: "@ + join(texts(res.missing@), "、"@)
            }
        },
{
    let provider = embedding_provider_name(active);
    match active {
        EmbeddingProviderType::Disabled => {
            let mut missing: Vec<String> = Vec::new();
            missing.push(String::from_str("Embedding 服务"));
            proof {
                assert(texts(missing@) =~= seq!["Embedding 服务"@]);
            }
            return EmbeddingConfigStatus {
                is_configured: false,
                provider: String::from_str(provider),
                missing,
                message: String::from_str("请先在设置中配置 Embedding 服务"),
            };
        },
        _ => {},
    }
    let mut missing: Vec<String> = Vec::new();
    let has_api_key = chars_of(settings.api_key_ref.as_str()).len() > 0 && key_stored;
    if !has_api_key {
        missing.push(String::from_str("API Key"));
    }
    let ghost a = texts(missing@);
    if chars_of(settings.model.as_str()).len() == 0 {
        missing.push(String::from_str("模型"));
    }
    let ghost b = texts(missing@);
    let needs_base = match active {
        EmbeddingProviderType::OpenAI => match &settings.base_url {
            Some(u) => chars_of(u.as_str()).len() == 0,
            None => true,
        },
        _ => false,
    };
    if needs_base {
        missing.push(String::from_str("Base URL"));
    }
    proof {
        assert(a =~= if settings.api_key_ref@.len() > 0 && key_stored {
            Seq::<Seq<char>>::empty()
        } else {
            seq!["API Key"@]
        });
        assert(b =~= if settings.model@.len() == 0 {
            a.push("模型"@)
        } else {
            a
        });
        assert(texts(missing@) =~= missing_settings(*active, *settings, key_stored));
    }
    let is_configured = missing.len() == 0;
    let message = if is_configured {
        let mut m = chars_of("Embedding 已配置 (");
        let p = chars_of(provider);
        append_chars(&mut m, p.as_slice());
        let close = chars_of(")");
        append_chars(&mut m, close.as_slice());
        string_of(&m)
    } else {
        let mut parts: Vec<Vec<char>> = Vec::new();
        let mut i: usize = 0;
        while i < missing.len()
            invariant
                i <= missing@.len(),
                views(parts@) == texts(missing@).take(i as int),
            decreases missing.len() - i,
        {
            let ghost before = parts@;
            let piece = chars_of(missing[i].as_str());
            parts.push(piece);
            proof {
                assert(views(parts@) =~= views(before).push(missing@[i as int]@));
                assert(texts(missing@).take(i + 1) =~= texts(missing@).take(i as int).push(
                    missing@[i as int]@,
                ));
            }
            i = i + 1;
        }
        proof {
            assert(texts(missing@).take(i as int) == texts(missing@));
        }
        let sep = chars_of("、");
        let joined = join_chars(&parts, sep.as_slice());
        let mut m = chars_of("请先配置: ");
        append_chars(&mut m, joined.as_slice());
        string_of(&m)
    };
    EmbeddingConfigStatus { is_configured, provider: String::from_str(provider), missing, message }
}


// ---------------------------------------------------------------------------
// Values the settings accept
// ---------------------------------------------------------------------------

/// The automatic acceptance thresholds a user can choose.
pub open spec fn known_threshold(t: Seq<char>) -> bool {
    t == "off"@ || t == "high"@ || t == "medium"@ || t == "low"@
}

/// Checks a threshold for automatic acceptance before it is saved: one of `off`,
/// `high`, `medium`, `low`, else an error that names the value.
pub fn validate_auto_accept_threshold(threshold: &str) -> (res: Result<(), String>)
    ensures
        res is Ok <==> known_threshold(threshold@),
        match res {
            Ok(_) => true,
            Err(m) => m@ == "Invalid threshold value: "@ + threshold@ + ". Valid values: off, high, medium, low"@,
        },
{
    if str_eq(threshold, "off") || str_eq(threshold, "high") || str_eq(threshold, "medium") || str_eq(threshold, "low") {
        Ok(())
    } else {
        let mut v = chars_of("Invalid threshold value: ");
        append_chars(&mut v, chars_of(threshold).as_slice());
        append_chars(&mut v, chars_of(". Valid values: off, high, medium, low").as_slice());
        Err(string_of(v.as_slice()))
    }
}

/// Checks a request retry count before it is saved: at most 10.
pub fn validate_request_retry_count(count: u32) -> (res: Result<(), String>)
    ensures
        res is Ok <==> count <= 10,
        match res {
            Ok(_) => true,
            Err(m) => m@ == "重试次数不能超过 10 次"@,
        },
{
    if count > 10 {
        Err(String::from_str("重试次数不能超过 10 次"))
    } else {
        Ok(())
    }
}


/// Checks a chat provider before it is saved: its base URL must be set and not
/// `unknown`, and its default model must be set.
pub fn validate_provider_config(base_url: &str, default_model: &str) -> (res: Result<(), String>)
    ensures
        match res {
            Ok(_) => base_url@.len() > 0 && base_url@ != "unknown"@ && default_model@.len() > 0,
            Err(m) => if base_url@.len() == 0 || base_url@ == "unknown"@ {
                m@ == "Provider base_url cannot be empty or 'unknown'. Please provide a valid URL."@
            } else {
                default_model@.len() == 0 && m@ == "Provider default_model cannot be empty. Please select a model."@
            },
        },
{
    if chars_of(base_url).len() == 0 || str_eq(base_url, "unknown") {
        return Err(String::from_str("Provider base_url cannot be empty or 'unknown'. Please provide a valid URL."));
    }
    if chars_of(default_model).len() == 0 {
        return Err(String::from_str("Provider default_model cannot be empty. Please select a model."));
    }
    Ok(())
}

} // verus!
