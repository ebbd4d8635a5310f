use dirsoul::built_in_plugins::{DecisionContext, PsychologyContext};
use dirsoul::crypto::SecureBuffer;
use dirsoul::deeptalk::{ConversationContext, EmotionalTrend};
use dirsoul::embedding::EmbeddingConfig;
use dirsoul::llm_provider::{
    extract_response_text, ChatMessage, ChatMessageContent, ChatResponse, Choice, OllamaChatResponse, OllamaConfig,
    OpenAIChatResponse, StreamChunk,
};
use dirsoul::prompt_manager::PromptManager;
use dirsoul::resource_manager::{CircuitBreaker, ResourceManagerConfig, ScheduledTask, TaskPriority};

#[test]
fn test_decision_context_default() {
    let ctx = DecisionContext::default();
    assert!(ctx.relevant_events.is_empty());
    assert!(ctx.beliefs.is_empty());
    assert!(ctx.emotional_state.is_empty());
}

#[test]
fn test_psychology_context_default() {
    let ctx = PsychologyContext::default();
    assert!(ctx.recent_events.is_empty());
    assert!(ctx.behavioral_patterns.is_empty());
    assert!(ctx.beliefs.is_empty());
    assert_eq!(ctx.emotional_state, EmotionalTrend::Neutral);
}

#[test]
fn test_secure_buffer() {
    let buffer = SecureBuffer::new(vec![1, 2, 3, 4, 5]);
    assert_eq!(buffer.as_slice(), &[1, 2, 3, 4, 5]);
    assert_eq!(buffer.len(), 5);
    assert!(!buffer.is_empty());
    drop(buffer);
}

#[test]
fn test_secure_buffer_empty() {
    let buffer = SecureBuffer::new(vec![]);
    assert!(buffer.is_empty());
    assert_eq!(buffer.len(), 0);
}

#[test]
fn test_emotional_trend_display() {
    assert_eq!(EmotionalTrend::Positive.emoji(), "😊");
    assert_eq!(EmotionalTrend::Neutral.description(), "balanced and stable");
    assert_eq!(EmotionalTrend::Negative.emoji(), "😔");
}

#[test]
fn test_conversation_context_default() {
    let ctx = ConversationContext::default();
    assert!(ctx.events.is_empty());
    assert!(ctx.beliefs.is_empty());
    assert_eq!(ctx.emotional_trend, EmotionalTrend::Neutral);
    assert!(ctx.conversation_summary.is_empty());
}

#[test]
fn test_embedding_config_default() {
    let config = EmbeddingConfig::default();
    assert_eq!(config.host, "http://127.0.0.1:11434");
    assert_eq!(config.model, "nomic-embed-text:v1.5");
    assert_eq!(config.batch_size, 8);
    assert_eq!(config.timeout_secs, 120);
}

#[test]
fn test_chat_message_constructors() {
    let user_msg = ChatMessage::user("Hello");
    assert_eq!(user_msg.role, "user");
    assert_eq!(user_msg.content, "Hello");

    let system_msg = ChatMessage::system("You are helpful");
    assert_eq!(system_msg.role, "system");
    assert_eq!(system_msg.content, "You are helpful");

    let assistant_msg = ChatMessage::assistant("Hi there");
    assert_eq!(assistant_msg.role, "assistant");
    assert_eq!(assistant_msg.content, "Hi there");
}

#[test]
fn test_extract_response_text() {
    let ollama_response = ChatResponse::Ollama(OllamaChatResponse {
        response: "Ollama text".to_string(),
        done: true,
        prompt_eval_count: None,
        eval_count: None,
    });
    assert_eq!(extract_response_text(&ollama_response), "Ollama text");

    let openai_response = ChatResponse::OpenAI(OpenAIChatResponse {
        id: None,
        object: None,
        created: None,
        model: None,
        choices: vec![Choice {
            index: 0,
            message: ChatMessageContent { role: "assistant".to_string(), content: "OpenAI text".to_string() },
            finish_reason: None,
        }],
        usage: None,
    });
    assert_eq!(extract_response_text(&openai_response), "OpenAI text");

    let empty = ChatResponse::OpenAI(OpenAIChatResponse {
        id: None,
        object: None,
        created: None,
        model: None,
        choices: vec![],
        usage: None,
    });
    assert_eq!(extract_response_text(&empty), "");
}

#[test]
fn test_model_config_default() {
    let config = OllamaConfig::default();
    assert_eq!(config.host, "http://127.0.0.1:11434");
}

#[test]
fn test_stream_chunk() {
    let chunk = StreamChunk { content: "Hello".to_string(), done: false };
    assert_eq!(chunk.content, "Hello");
    assert!(!chunk.done);
}

#[test]
fn test_default_prompt_manager() {
    let manager = PromptManager::default();
    assert_eq!(manager.prompts_dir(), "prompts");
}

#[test]
fn test_circuit_breaker() {
    let mut cb = CircuitBreaker::new(10);
    assert!(!cb.is_open());
    assert!(cb.allow_task());

    cb.trip();
    assert!(cb.is_open());
    assert!(!cb.allow_task());
}

#[test]
fn test_scheduled_task() {
    let task = ScheduledTask::new("test_task".to_string(), TaskPriority::High, 500, "Test task".to_string());
    assert!(task.can_run(1000));
    assert!(!task.can_run(100));
}

#[test]
fn test_task_priority_ord() {
    assert!(TaskPriority::Critical < TaskPriority::High);
    assert!(TaskPriority::High < TaskPriority::Medium);
    assert!(TaskPriority::Medium < TaskPriority::Low);
}

#[test]
fn test_resource_manager_config_default() {
    let config = ResourceManagerConfig::default();
    assert_eq!(config.max_memory_mb, 6500);
    assert_eq!(config.offload_timeout_sec, 600);
    assert!(config.enable_model_offloading);
}

#[test]
fn test_secure_buffer_clear() {
    let mut buffer = SecureBuffer::new(vec![9, 9, 9]);
    buffer.clear();
    assert!(buffer.is_empty());
}
