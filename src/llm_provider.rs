//! Messages and responses of the chat backends, and the choice of backend
//! from configuration.
use vstd::prelude::*;

use crate::error::DirSoulError;

verus! {

/// One message of a chat exchange.
#[derive(Debug, Clone)]
pub struct ChatMessage {
    pub role: String,
    pub content: String,
}

impl ChatMessage {
    pub fn user(content: &str) -> (r: ChatMessage)
        ensures
            r.role@ == "user"@,
            r.content@ == content@,
    {
        ChatMessage { role: "user".to_string(), content: content.to_string() }
    }

    pub fn system(content: &str) -> (r: ChatMessage)
        ensures
            r.role@ == "system"@,
            r.content@ == content@,
    {
        ChatMessage { role: "system".to_string(), content: content.to_string() }
    }

    pub fn assistant(content: &str) -> (r: ChatMessage)
        ensures
            r.role@ == "assistant"@,
            r.content@ == content@,
    {
        ChatMessage { role: "assistant".to_string(), content: content.to_string() }
    }
}

/// A reply of the local-process backend.
#[derive(Debug, Clone)]
pub struct OllamaChatResponse {
    pub response: String,
    pub done: bool,
    pub prompt_eval_count: Option<u32>,
    pub eval_count: Option<u32>,
}

/// The message inside one choice of an HTTP API reply.
#[derive(Debug, Clone)]
pub struct ChatMessageContent {
    pub role: String,
    pub content: String,
}

/// One choice of an HTTP API reply.
#[derive(Debug, Clone)]
pub struct Choice {
    pub index: usize,
    pub message: ChatMessageContent,
    pub finish_reason: Option<String>,
}

/// Token counts of an HTTP API reply.
#[derive(Debug, Clone, Copy)]
pub struct Usage {
    pub prompt_tokens: u32,
    pub completion_tokens: u32,
    pub total_tokens: u32,
}

/// A reply of the HTTP API backend.
#[derive(Debug, Clone)]
pub struct OpenAIChatResponse {
    pub id: Option<String>,
    pub object: Option<String>,
    pub created: Option<u64>,
    pub model: Option<String>,
    pub choices: Vec<Choice>,
    pub usage: Option<Usage>,
}

/// A reply of either backend.
#[derive(Debug, Clone)]
pub enum ChatResponse {
    Ollama(OllamaChatResponse),
    OpenAI(OpenAIChatResponse),
}

/// Token counts of an embedding reply.
#[derive(Debug, Clone, Copy)]
pub struct EmbeddingUsage {
    pub prompt_tokens: u32,
    pub total_tokens: u32,
}

/// One piece of a streamed reply.
#[derive(Debug, Clone)]
pub struct StreamChunk {
    pub content: String,
    pub done: bool,
}

/// The text of a reply: the local backend's response, or the content of the
/// first choice of an HTTP reply (empty when there is none).
pub fn extract_response_text(response: &ChatResponse) -> (r: String)
    ensures
        response is Ollama ==> r@ == response->Ollama_0.response@,
        response is OpenAI && response->OpenAI_0.choices@.len() > 0 ==> r@ == response->OpenAI_0.choices@[0].message.content@,
        response is OpenAI && response->OpenAI_0.choices@.len() == 0 ==> r@.len() == 0,
{
    match response {
        ChatResponse::Ollama(o) => o.response.clone(),
        ChatResponse::OpenAI(o) => {
            if o.choices.len() > 0 {
                o.choices[0].message.content.clone()
            } else {
                String::new()
            }
        },
    }
}

/// The local backend's default address.
pub fn default_ollama_host() -> (r: String)
    ensures
        r@ == "http://127.0.0.1:11434"@,
{
    "http://127.0.0.1:11434".to_string()
}

/// Settings of the local-process backend.
#[derive(Debug, Clone)]
pub struct OllamaConfig {
    pub host: String,
}

impl Default for OllamaConfig {
    fn default() -> (r: OllamaConfig)
        ensures
            r.host@ == "http://127.0.0.1:11434"@,
    {
        OllamaConfig { host: default_ollama_host() }
    }
}

/// Settings of the HTTP API backend.
#[derive(Debug, Clone)]
pub struct OpenAICompatibleConfig {
    pub base_url: String,
    pub api_key: String,
}

/// Which backend to use and with which model.
#[derive(Debug, Clone)]
pub struct ModelConfig {
    /// `ollama` or `openai_compatible`.
    pub provider: String,
    pub model: String,
    pub ollama: Option<OllamaConfig>,
    pub openai_compatible: Option<OpenAICompatibleConfig>,
}

/// A backend chosen from configuration, with what it needs to connect.
#[derive(Debug, Clone)]
pub enum ProviderSettings {
    Ollama { host: String, model: String },
    OpenAICompatible { base_url: String, api_key: String, model: String },
}

/// Chooses backends from configuration.
pub struct ModelProviderFactory;

impl ModelProviderFactory {
    /// The backend that `config` names: `ollama` (with the default host when
    /// none is set) or `openai_compatible` (which needs its settings). Any
    /// other name, or missing settings, is a configuration error.
    pub fn create_provider(config: ModelConfig) -> (r: Result<ProviderSettings, DirSoulError>)
        ensures
            config.provider@ == "ollama"@ ==> r is Ok && r->Ok_0 is Ollama
                && r->Ok_0->Ollama_model == config.model
                && (config.ollama is Some ==> r->Ok_0->Ollama_host == config.ollama->Some_0.host)
                && (config.ollama is None ==> r->Ok_0->Ollama_host@ == "http://127.0.0.1:11434"@),
            config.provider@ == "openai_compatible"@ ==> (r is Ok <==> config.openai_compatible is Some),
            config.provider@ == "openai_compatible"@ && config.openai_compatible is Some ==> r is Ok
                && r->Ok_0 is OpenAICompatible
                && r->Ok_0->OpenAICompatible_base_url == config.openai_compatible->Some_0.base_url
                && r->Ok_0->OpenAICompatible_api_key == config.openai_compatible->Some_0.api_key
                && r->Ok_0->OpenAICompatible_model == config.model,
            config.provider@ != "ollama"@ && config.provider@ != "openai_compatible"@ ==> r is Err,
            r is Err ==> r->Err_0 is Config,
    {
        let ollama_name = "ollama".to_string();
        let api_name = "openai_compatible".to_string();
        proof {
            reveal_strlit("ollama");
            reveal_strlit("openai_compatible");
            assert(ollama_name@ == "ollama"@);
            assert(api_name@ == "openai_compatible"@);
            assert("ollama"@ != "openai_compatible"@);
        }
        if config.provider == ollama_name {
            let host = match config.ollama {
                Some(o) => o.host,
                None => default_ollama_host(),
            };
            Ok(ProviderSettings::Ollama { host, model: config.model })
        } else if config.provider == api_name {
            match config.openai_compatible {
                Some(c) => Ok(ProviderSettings::OpenAICompatible { base_url: c.base_url, api_key: c.api_key, model: config.model }),
                None => Err(DirSoulError::Config("missing openai_compatible configuration".to_string())),
            }
        } else {
            Err(DirSoulError::Config("unknown provider".to_string()))
        }
    }
}

} // verus!
