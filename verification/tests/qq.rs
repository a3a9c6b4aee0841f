use llm_loop::channel::feishu::markdown::feishu_render_outbound_text;
use llm_loop::channel::kinds::{qq_ack_capability, qq_capabilities, ChannelAckCapability, ChannelAckKind};
use llm_loop::channel::qq::api::{
    acknowledge_reset, acknowledge_stop, note_received, note_sent, parse_expires_in,
    plan_received, plan_send, plan_update, send_text_request, send_user_input_request, sent_id,
    QqMessageTarget, ResolvedQqConfig,
};
use llm_loop::channel::qq::cache::{QqDedupCache, QqSentMessageTargets};
use llm_loop::channel::qq::event::{
    accept_message, handle_qq_dispatch, handle_qq_payload, heartbeat_payload, identify_payload,
    qq_event_to_inbound, DispatchStep, PayloadStep, QqAuthor, QqMessageEvent, QqPayload,
};
use llm_loop::channel::qq::pending::{
    build_qq_user_input_keyboard, build_qq_user_input_markdown, handle_qq_interaction,
    QqPendingUserInputs, QqUserInputButtonData,
};
use llm_loop::channel::qq::text::{clean_qq_text, qq_outbound_markdown};
use llm_loop::config::QqChannelConfig;
use llm_loop::json::Json;
use llm_loop::message::{
    InboundMessage, MessageSource, MessageUpdate, OutboundFormat, OutboundMessage,
    OutboundRecipient, UserInputOption, UserInputQuestion, UserInputRequest,
};

fn at<'a>(value: &'a Json, place: &[&str]) -> &'a Json {
    let mut found = value;
    for step in place {
        found = match found {
            Json::List(items) => &items[step.parse::<usize>().unwrap()],
            _ => found.get(step).unwrap(),
        };
    }
    found
}

fn number(n: &str) -> Json {
    Json::Number(n.to_string())
}

#[test]
fn clean_qq_text_removes_mentions() {
    assert_eq!(clean_qq_text("<@!123> 你好 QQ"), "你好 QQ");
}

#[test]
fn outbound_markdown_restores_ordered_list_markers() {
    assert_eq!(
        qq_outbound_markdown("[id]\n1\\. 验证数据\n  2\\. 创建任务\n正文 3\\. 不改"),
        "[id]\n1. 验证数据\n  2. 创建任务\n正文 3\\. 不改"
    );
}

#[test]
fn outbound_markdown_keeps_line_ends() {
    assert_eq!(qq_outbound_markdown("1\\. a\n\n2\\.\n"), "1. a\n\n2.\n");
    assert_eq!(qq_outbound_markdown(""), "");
    assert_eq!(qq_outbound_markdown("1.2\\. a"), "1.2\\. a");
}

#[test]
fn plans_read_as_they_were_written() {
    let plan = "Plan:\n1. first\n  2. second\n3.no number\n\n12. last\n";
    let escaped = feishu_render_outbound_text(plan, OutboundFormat::Plan);
    assert_eq!(
        escaped,
        "Plan:\n1\\. first\n  2\\. second\n3.no number\n\n12\\. last\n"
    );
    assert_eq!(qq_outbound_markdown(&escaped), plan);
}

#[test]
fn message_target_uses_chat_id_prefix() {
    assert_eq!(
        QqMessageTarget::from_outbound("user:u1", OutboundRecipient::Chat).unwrap(),
        QqMessageTarget::User("u1".to_string())
    );
    assert_eq!(
        QqMessageTarget::from_outbound("group:g1", OutboundRecipient::Chat).unwrap(),
        QqMessageTarget::Group("g1".to_string())
    );
    assert_eq!(
        QqMessageTarget::from_outbound("channel:c1", OutboundRecipient::Chat).unwrap(),
        QqMessageTarget::Channel("c1".to_string())
    );
    assert_eq!(
        QqMessageTarget::from_outbound("x", OutboundRecipient::User).unwrap(),
        QqMessageTarget::User("x".to_string())
    );
    assert_eq!(
        QqMessageTarget::from_outbound("x", OutboundRecipient::Chat)
            .unwrap_err()
            .to_text(),
        "channel error: qq chat_id must start with user:, group:, or channel:"
    );
}

fn group_event() -> QqMessageEvent {
    QqMessageEvent {
        id: "m1".to_string(),
        content: "<@!bot> hi".to_string(),
        group_openid: Some("g1".to_string()),
        channel_id: None,
        author: Some(QqAuthor {
            id: None,
            user_openid: None,
            member_openid: Some("member1".to_string()),
        }),
    }
}

#[test]
fn group_event_keeps_reply_target() {
    let message =
        qq_event_to_inbound("qq-main", "GROUP_AT_MESSAGE_CREATE", &group_event()).unwrap();

    assert_eq!(message.text, "hi");
    assert_eq!(message.source.channel_name, "qq-main");
    assert_eq!(message.source.platform, "qq");
    assert_eq!(message.source.chat_id, "group:g1");
    assert_eq!(message.source.chat_type, "group");
    assert_eq!(message.source.user_id.as_deref(), Some("member1"));
    assert_eq!(message.message_id.as_deref(), Some("m1"));
}

#[test]
fn events_without_an_origin_or_a_text_are_left_out() {
    let mut event = group_event();
    assert!(qq_event_to_inbound("q", "C2C_MESSAGE_CREATE", &event).is_none());
    assert!(qq_event_to_inbound("q", "AT_MESSAGE_CREATE", &event).is_none());
    assert!(qq_event_to_inbound("q", "OTHER", &event).is_none());
    event.author = Some(QqAuthor {
        id: Some("i".to_string()),
        user_openid: Some("u".to_string()),
        member_openid: None,
    });
    event.channel_id = Some("c".to_string());
    let direct = qq_event_to_inbound("q", "C2C_MESSAGE_CREATE", &event).unwrap();
    assert_eq!(direct.source.chat_id, "user:u");
    assert_eq!(direct.source.chat_type, "dm");
    let channel = qq_event_to_inbound("q", "AT_MESSAGE_CREATE", &event).unwrap();
    assert_eq!(channel.source.chat_id, "channel:c");
    assert_eq!(channel.source.user_id.as_deref(), Some("i"));
    event.content = " <@!bot> ".to_string();
    assert!(qq_event_to_inbound("q", "AT_MESSAGE_CREATE", &event).is_none());
}

#[test]
fn lifetimes_are_numbers_or_texts() {
    assert_eq!(parse_expires_in(&Json::text("7200")), Some(7200));
    assert_eq!(parse_expires_in(&number("60")), Some(60));
    assert_eq!(parse_expires_in(&number("1.5")), None);
    assert_eq!(parse_expires_in(&Json::Null), None);
}

fn payload(op: i64, d: &str, s: Option<u64>) -> QqPayload {
    QqPayload {
        op,
        d: Json::parse(d).unwrap(),
        s,
        t: None,
    }
}

#[test]
fn payloads_drive_the_connection() {
    let mut seq = None;
    assert_eq!(
        handle_qq_payload(&payload(10, "{\"heartbeat_interval\":41250}", None), &mut seq).unwrap(),
        PayloadStep::Identify(Some(41250))
    );
    assert_eq!(
        handle_qq_payload(&payload(10, "{\"heartbeat_interval\":5}", None), &mut seq).unwrap(),
        PayloadStep::Identify(Some(1000))
    );
    assert_eq!(
        handle_qq_payload(&payload(0, "null", Some(3)), &mut seq).unwrap(),
        PayloadStep::Dispatch
    );
    assert_eq!(seq, Some(3));
    assert_eq!(
        handle_qq_payload(&payload(1, "null", None), &mut seq).unwrap(),
        PayloadStep::Heartbeat
    );
    assert_eq!(seq, Some(3));
    assert_eq!(
        handle_qq_payload(&payload(11, "null", None), &mut seq).unwrap(),
        PayloadStep::Nothing
    );
    assert_eq!(
        handle_qq_payload(&payload(7, "null", None), &mut seq)
            .unwrap_err()
            .to_text(),
        "channel error: qq gateway requested reconnect"
    );
    assert_eq!(
        handle_qq_payload(&payload(9, "null", None), &mut seq)
            .unwrap_err()
            .to_text(),
        "channel error: qq gateway invalid session"
    );
    assert_eq!(at(&heartbeat_payload(seq), &["d"]), &number("3"));
    assert_eq!(at(&heartbeat_payload(None), &["d"]), &Json::Null);
    let hello = identify_payload("t", 7);
    assert_eq!(at(&hello, &["d", "token"]), &Json::text("QQBot t"));
    assert_eq!(at(&hello, &["d", "shard", "1"]), &number("1"));
}

#[test]
fn dispatch_goes_by_the_kind_of_event() {
    assert_eq!(handle_qq_dispatch(Some("READY")), DispatchStep::Ready);
    assert_eq!(
        handle_qq_dispatch(Some("INTERACTION_CREATE")),
        DispatchStep::Interaction
    );
    assert_eq!(
        handle_qq_dispatch(Some("AT_MESSAGE_CREATE")),
        DispatchStep::Message
    );
    assert_eq!(handle_qq_dispatch(None), DispatchStep::Ignore);
}

#[test]
fn repeated_messages_are_dropped() {
    let mut seen = QqDedupCache::new(2);
    let message = |id: &str| {
        InboundMessage::text("x", MessageSource::default(), Some(id.to_string()))
    };
    assert!(accept_message(&message("a"), &mut seen));
    assert!(!accept_message(&message("a"), &mut seen));
    assert!(accept_message(&message("b"), &mut seen));
    assert!(accept_message(&message("c"), &mut seen));
    assert_eq!(seen.len(), 2);
    assert!(accept_message(&message("a"), &mut seen));
    let nameless = InboundMessage::text("x", MessageSource::default(), None);
    assert!(!accept_message(&nameless, &mut seen));
}

fn reply(reply_to: Option<&str>) -> OutboundMessage {
    OutboundMessage {
        channel_name: "qq".to_string(),
        chat_id: "group:g".to_string(),
        recipient: OutboundRecipient::Chat,
        text: "t".to_string(),
        reply_to: reply_to.map(|id| id.to_string()),
        thread_id: None,
        format: OutboundFormat::Text,
    }
}

#[test]
fn answers_follow_the_confirmation() {
    let mut sent = QqSentMessageTargets::new(4);
    let source = MessageSource {
        channel_name: "qq".to_string(),
        platform: "qq".to_string(),
        chat_id: "group:g".to_string(),
        chat_type: "group".to_string(),
        user_id: None,
        thread_id: None,
    };
    let message = InboundMessage::text("hi", source, Some("m".to_string()));
    let plan = plan_received(&message).unwrap();
    assert_eq!(plan.msg_seq, None);
    note_received(plan, &Some("ack".to_string()), &mut sent);
    let answer = plan_send(&reply(Some("m")), &mut sent);
    assert_eq!(answer.msg_seq, Some(2));
    assert_eq!(answer.reply_to.as_deref(), Some("m"));
    note_sent(answer, &Some("bot1".to_string()), &mut sent);
    let update = MessageUpdate {
        channel_name: "qq".to_string(),
        chat_id: None,
        message_id: "bot1".to_string(),
        text: "u".to_string(),
        format: OutboundFormat::Plan,
    };
    let further = plan_update(&update, &mut sent).unwrap();
    assert_eq!(further.msg_seq, Some(3));
    let again = plan_send(&reply(Some("m")), &mut sent);
    assert_eq!(again.msg_seq, Some(3));
    let missing = MessageUpdate {
        message_id: "gone".to_string(),
        ..update
    };
    assert_eq!(
        plan_update(&missing, &mut sent).unwrap_err().to_text(),
        "channel error: qq update target is missing for message_id=gone"
    );
    let blank = InboundMessage::text("hi", MessageSource::default(), Some(" ".to_string()));
    assert!(plan_received(&blank).is_none());
}

#[test]
fn old_targets_are_forgotten() {
    let mut sent = QqSentMessageTargets::new(1);
    let first = plan_send(&reply(None), &mut sent);
    assert_eq!(first.next_msg_seq, 2);
    note_sent(first, &Some("a".to_string()), &mut sent);
    let second = plan_send(&reply(None), &mut sent);
    note_sent(second, &Some("b".to_string()), &mut sent);
    assert_eq!(sent.len(), 1);
    assert!(sent.next_target("a").is_none());
    assert!(sent.next_target("b").is_some());
}

#[test]
fn requests_fit_their_target() {
    let request = send_text_request(
        "https://api",
        "group:g",
        OutboundRecipient::Chat,
        "1\\. a",
        Some("m"),
        None,
    )
    .unwrap();
    assert_eq!(request.url, "https://api/v2/groups/g/messages");
    assert_eq!(at(&request.body, &["markdown", "content"]), &Json::text("1. a"));
    assert_eq!(at(&request.body, &["msg_seq"]), &number("1"));
    let plain = send_text_request(
        "https://api",
        "channel:c",
        OutboundRecipient::Chat,
        "x",
        Some(" "),
        Some(4),
    )
    .unwrap();
    assert_eq!(plain.url, "https://api/channels/c/messages");
    assert_eq!(at(&plain.body, &["msg_type"]), &number("0"));
    assert!(plain.body.get("msg_id").is_none());
    assert_eq!(sent_id(Some(" ".to_string())), None);
    assert_eq!(sent_id(Some("i".to_string())).as_deref(), Some("i"));
}

fn request() -> UserInputRequest {
    UserInputRequest {
        questions: vec![UserInputQuestion {
            id: "q".to_string(),
            header: "H".to_string(),
            question: "Q?".to_string(),
            options: vec![
                UserInputOption {
                    label: "A\"".to_string(),
                    description: String::new(),
                },
                UserInputOption {
                    label: "B".to_string(),
                    description: String::new(),
                },
            ],
        }],
        auto_resolution_ms: None,
    }
}

#[test]
fn buttons_carry_their_answer() {
    let keyboard = build_qq_user_input_keyboard("102", "r1", &request());
    let data = at(
        &keyboard,
        &["content", "rows", "0", "buttons", "0", "action", "data"],
    )
    .as_str()
    .unwrap();
    assert_eq!(
        data,
        "{\"llm_loop\":\"request_user_input\",\"request_id\":\"r1\",\"question_id\":\"q\",\"answer\":\"A\\\"\"}"
    );
    assert_eq!(
        Json::parse(data).unwrap().text_field("answer"),
        Some("A\"")
    );
    assert_eq!(at(&keyboard, &["content", "bot_appid"]), &number("102"));
    let unknown = build_qq_user_input_keyboard("x", "r1", &request());
    assert_eq!(at(&unknown, &["content", "bot_appid"]), &number("0"));
    assert_eq!(
        build_qq_user_input_markdown(&request()),
        "**需要你确认**\n\n1. **H** Q?\n可选：`A\"` / `B`\n\n请选择下面的按钮。"
    );
}

#[test]
fn interactions_are_answered_with_a_code() {
    let mut pending = QqPendingUserInputs::new();
    pending.insert("r".to_string(), request());
    let mut button = QqUserInputButtonData {
        llm_loop: "request_user_input".to_string(),
        request_id: "r".to_string(),
        question_id: "q".to_string(),
        answer: "B".to_string(),
    };
    assert_eq!(handle_qq_interaction(None, &mut pending).code, 1);
    let done = handle_qq_interaction(Some(&button), &mut pending);
    assert_eq!(done.code, 0);
    assert_eq!(
        done.response.unwrap().answers.get("q"),
        Some(&vec!["B".to_string()])
    );
    assert_eq!(handle_qq_interaction(Some(&button), &mut pending).code, 3);
    button.llm_loop = "other".to_string();
    assert_eq!(handle_qq_interaction(Some(&button), &mut pending).code, 1);
    assert_eq!(
        pending.auto_resolve("r").unwrap_err().to_text(),
        "channel error: qq user input request is missing"
    );
}

#[test]
fn settings_need_both_credentials() {
    let mut config = QqChannelConfig::default();
    config.api_base_url = "https://x//".to_string();
    let found = ResolvedQqConfig::resolve(&config, Some(" id "), Some("key")).unwrap();
    assert_eq!(found.app_id, "id");
    assert_eq!(found.api_base_url, "https://x");
    assert_eq!(
        ResolvedQqConfig::resolve(&config, None, Some("key"))
            .err()
            .unwrap()
            .to_text(),
        "channel error: qq app_id is required"
    );
    assert_eq!(
        ResolvedQqConfig::resolve(&config, Some("id"), Some(" "))
            .err()
            .unwrap()
            .to_text(),
        "channel error: qq app_secret is required"
    );
    let source = MessageSource::default();
    assert_eq!(
        send_user_input_request(&found, &source, "r", &request())
            .err()
            .unwrap()
            .to_text(),
        "channel error: qq source chat_id must start with user:, group:, or channel:"
    );
}

#[test]
fn confirmations_are_short_texts() {
    assert_eq!(
        qq_ack_capability(ChannelAckKind::Received),
        ChannelAckCapability::TextReply
    );
    assert!(qq_capabilities().append_update);
    let mut pending = QqPendingUserInputs::new();
    pending.insert("r".to_string(), request());
    let mut sent = QqSentMessageTargets::new(2);
    let plan = plan_send(&reply(None), &mut sent);
    note_sent(plan, &Some("a".to_string()), &mut sent);
    let message = InboundMessage::text("/reset", MessageSource::default(), None);
    let text = acknowledge_reset("qq", &message, &mut pending, &mut sent);
    assert_eq!(text.text, "已重置。");
    assert_eq!(pending.len(), 0);
    assert_eq!(sent.len(), 0);
    assert_eq!(acknowledge_stop("qq", &message).text, "done");
}
