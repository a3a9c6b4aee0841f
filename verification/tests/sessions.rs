use llm_loop::context_window::{
    context_window_status, estimate_request_tokens, prepare_context_window,
    prepare_context_window_with_summary,
};
use llm_loop::ids::{new_message_uuid, new_reply_hash, new_request_id, new_session_id};
use llm_loop::ids::{reply_hash_from_parts, session_id_from_parts};
use llm_loop::message::{
    is_single_command_text, outbound_target_from_source, InboundAttachment, InboundMessage,
    MessageSource, OutboundRecipient,
};
use llm_loop::session::{ConversationItem, SessionState};

fn user_text(text: &str) -> ConversationItem {
    ConversationItem::User {
        text: text.to_string(),
    }
}

fn assistant_text(text: &str) -> ConversationItem {
    ConversationItem::Assistant {
        text: text.to_string(),
    }
}

#[test]
fn prepare_context_window_keeps_small_history() {
    let session = SessionState::new("agent:main:test".to_string());
    let history = vec![user_text("hi"), assistant_text("ok")];

    let plan = prepare_context_window(&session, &history, "继续");

    assert!(!plan.compacted);
    assert_eq!(plan.history, history);
}

#[test]
fn prepare_context_window_compacts_large_history() {
    let mut session = SessionState::new("agent:main:test".to_string());
    session.max_context_tokens = Some(20);
    let history = vec![
        user_text(&"旧请求".repeat(30_000)),
        assistant_text(&"旧回复".repeat(30_000)),
        user_text("最近问题"),
        assistant_text("最近回答"),
    ];

    let plan = prepare_context_window(&session, &history, "继续");

    assert!(plan.compacted);
    assert!(plan.dropped_items > 0);
    assert!(matches!(
        &plan.history[0],
        ConversationItem::User { text } if text.contains("CONTEXT COMPACTION")
    ));
}

#[test]
fn prepare_context_window_uses_model_summary() {
    let mut session = SessionState::new("agent:main:test".to_string());
    session.max_context_tokens = Some(20);
    let history = vec![
        user_text(&"旧请求".repeat(30_000)),
        assistant_text(&"旧回复".repeat(30_000)),
        user_text("最近问题"),
        assistant_text("最近回答"),
    ];

    let plan = prepare_context_window_with_summary(
        &session,
        &history,
        "继续",
        "模型生成的摘要".to_string(),
    );

    assert!(plan.compacted);
    assert!(matches!(
        &plan.history[0],
        ConversationItem::User { text } if text.contains("模型生成的摘要")
    ));
}

#[test]
fn estimate_request_tokens_skips_duplicate_last_user() {
    let session = SessionState::new("agent:main:test".to_string());
    let without_duplicate = vec![assistant_text("ok")];
    let with_duplicate = vec![assistant_text("ok"), user_text("继续")];

    let expected = estimate_request_tokens(&session, &without_duplicate, "继续");
    let actual = estimate_request_tokens(&session, &with_duplicate, "继续");

    assert_eq!(actual, expected);
}

#[test]
fn the_limit_is_nine_tenths_of_the_window() {
    let mut session = SessionState::new("k".to_string());
    assert!(!context_window_status(&session, &[], "x").limit_reached);
    session.max_context_tokens = Some(20);
    let status = context_window_status(&session, &[], &"a".repeat(200));
    assert_eq!(status.auto_compact_limit, Some(18));
    assert!(status.limit_reached);
}

#[test]
fn reply_hash_is_eight_hex_chars() {
    let hash = reply_hash_from_parts("agent:main:feishu:dm:chat:user", 123);

    assert_eq!(hash.len(), 8);
    assert!(hash.chars().all(|ch| ch.is_ascii_hexdigit()));
}

#[test]
fn reply_hash_changes_with_key_or_time() {
    let first = reply_hash_from_parts("key-a", 123);
    let second = reply_hash_from_parts("key-b", 123);
    let third = reply_hash_from_parts("key-a", 124);

    assert_ne!(first, second);
    assert_ne!(first, third);
}

#[test]
fn ids_have_their_form() {
    assert_eq!(session_id_from_parts(255, 16), "sess_ff_10");
    assert!(new_session_id(3).starts_with("sess_"));
    assert!(new_session_id(3).ends_with("_3"));
    assert!(!new_session_id(3).starts_with("sess_0_"));
    assert_eq!(new_reply_hash("k").len(), 8);
    let uuid = new_message_uuid();
    assert_eq!(uuid.len(), 36);
    assert_eq!(uuid.as_bytes()[14], b'4');
    assert_ne!(uuid, new_message_uuid());
    let simple = new_request_id();
    assert_eq!(simple.len(), 32);
    assert!(simple.chars().all(|ch| ch.is_ascii_hexdigit()));
}

fn text_message(text: &str) -> InboundMessage {
    InboundMessage::text(
        text,
        MessageSource::default(),
        Some("message-test".to_string()),
    )
}

#[test]
fn reset_command_matches_plain_text() {
    assert!(text_message("/reset").is_reset_command());
}

#[test]
fn reset_command_ignores_leading_mention_placeholder() {
    assert!(text_message("@_user_1 /reset").is_reset_command());
}

#[test]
fn reset_command_rejects_extra_text() {
    assert!(!text_message("@_user_1 /reset now").is_reset_command());
}

#[test]
fn a_message_is_one_command_at_most() {
    assert!(is_single_command_text("@_user_1  @_user_2\n/go ", "/go"));
    assert!(!is_single_command_text("/go @_user_1", "/go"));
    assert!(!is_single_command_text("@_user_1", "/go"));
    let message = text_message("@_user_1 /status");
    assert!(message.is_status_command());
    assert!(!message.is_reset_command() && !message.is_stop_command());
}

#[test]
fn stop_command_matches_plain_text() {
    assert!(text_message("/stop").is_stop_command());
}

#[test]
fn stop_command_ignores_leading_mention_placeholder() {
    assert!(text_message("@_user_1 /stop").is_stop_command());
}

#[test]
fn stop_command_rejects_extra_text() {
    assert!(!text_message("@_user_1 /stop now").is_stop_command());
}

#[test]
fn status_command_matches_plain_text() {
    assert!(text_message("/status").is_status_command());
}

#[test]
fn status_command_ignores_leading_mention_placeholder() {
    assert!(text_message("@_user_1 /status").is_status_command());
}

#[test]
fn status_command_rejects_extra_text() {
    assert!(!text_message("@_user_1 /status now").is_status_command());
}

#[test]
fn messages_are_built_step_by_step() {
    let message = text_message("hi").with_image("image/png", vec![1]).scheduled();
    assert!(message.is_cron_task());
    assert_eq!(
        message.attachments,
        vec![InboundAttachment::Image {
            mime_type: "image/png".to_string(),
            bytes: vec![1],
        }]
    );
    assert!(!text_message("hi").is_cron_task());
}

#[test]
fn private_messages_without_a_chat_go_to_the_user() {
    let mut source = MessageSource::default();
    assert_eq!(source.chat_type, "dm");
    assert_eq!(
        outbound_target_from_source(&source),
        (OutboundRecipient::Chat, String::new())
    );
    source.user_id = Some("u".to_string());
    assert_eq!(
        outbound_target_from_source(&source),
        (OutboundRecipient::User, "u".to_string())
    );
    source.chat_id = "c".to_string();
    assert_eq!(
        outbound_target_from_source(&source),
        (OutboundRecipient::Chat, "c".to_string())
    );
}
