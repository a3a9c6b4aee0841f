use llm_loop::assoc::Assoc;
use llm_loop::channel::attachments::{
    plan_inbound_attachment, sanitize_filename, unique_store_filename, DownloadedAttachment,
};
use llm_loop::channel::capability::ChannelCapabilities;
use llm_loop::channel::feishu::actions::{feishu_ack, take_thread_mark, FeishuAck};
use llm_loop::channel::feishu::api::{
    create_body, create_url, feishu_recipient_from_outbound, feishu_recipient_from_source,
    find_feishu_detail, last_message_id, message_reply_id, mime_of_header, normalize_image_mime,
    plan_send, reply_body_with, required_value, FeishuReceiveIdType, MessageReply,
};
use llm_loop::channel::feishu::cache::{DedupCache, ThreadReplyCache};
use llm_loop::channel::feishu::card::build_user_input_card;
use llm_loop::channel::feishu::event::{
    file_resources_from_content, image_keys_from_content, message_text, FeishuFileResource,
    FeishuMessage, FeishuReceiveMessageEvent, FeishuSender, FeishuSenderId,
};
use llm_loop::channel::feishu::inbound::{
    card_action, event_step, gate_event, handle_card_action, route_inbound, CardAction, EventGate,
    EventStep, InboundRoute, MentionGate,
};
use llm_loop::channel::feishu::merge::{
    enter_forward, leave_forward, render_merge_forward_items, with_root_context,
    FeishuMessageDetail, FeishuMessageSender,
};
use llm_loop::channel::feishu::pending::{PendingUserInputs, UserInputAnswerResult};
use llm_loop::channel::feishu::settings::{
    cached_bot_open_id, feishu_sanitize_filename, next_retry_delay, plan_stored_file,
    resolve_secret, stored_attachments, ResolvedFeishuConfig, StoreOutcome,
};
use llm_loop::channel::feishu::ws_frame::{
    ack_payload, frame_step, parse_service_id, ping_frame, response_frame, FeishuFrame,
    FeishuHeader, FrameStep,
};
use llm_loop::channel::http::{http_failure, log_preview, redact_query, token_lifetime};
use llm_loop::channel::kinds::{
    channel_kind, feishu_ack_capability, telegram_ack_capability, BuiltinChannelKind,
    ChannelAckCapability, ChannelAckKind,
};
use llm_loop::config::FeishuChannelConfig;
use llm_loop::json::{Fields, Json};
use llm_loop::message::{
    InboundAttachment, InboundMessage, MessageSource, OutboundFormat, OutboundMessage,
    OutboundRecipient, UserInputOption, UserInputQuestion, UserInputRequest,
};

fn event(message_id: &str, chat_type: &str) -> FeishuReceiveMessageEvent {
    FeishuReceiveMessageEvent {
        sender: FeishuSender {
            sender_id: FeishuSenderId {
                open_id: Some("ou".to_string()),
                user_id: None,
                union_id: Some("on".to_string()),
            },
        },
        message: FeishuMessage {
            message_id: message_id.to_string(),
            root_id: Some("root".to_string()),
            parent_id: None,
            thread_id: None,
            chat_id: "oc".to_string(),
            chat_type: chat_type.to_string(),
            message_type: "text".to_string(),
            content: "{\"text\":\"hi\"}".to_string(),
            mentions: vec![],
        },
    }
}

#[test]
fn events_pass_the_gate_once() {
    let mut seen = DedupCache::new(32);
    let gate = MentionGate {
        require_mention: true,
        bot_open_id: "bot".to_string(),
        bot_name: None,
    };
    assert_eq!(gate_event(&event(" ", "p2p"), &gate, &mut seen), EventGate::EmptyId);
    assert_eq!(gate_event(&event("a", "p2p"), &gate, &mut seen), EventGate::Accepted);
    assert_eq!(gate_event(&event("a", "p2p"), &gate, &mut seen), EventGate::Duplicate);
    assert_eq!(
        gate_event(&event("b", "group"), &gate, &mut seen),
        EventGate::NotMentioned
    );
}

#[test]
fn seen_messages_are_forgotten_when_the_room_is_used_up() {
    let mut seen = DedupCache::new(1);
    assert_eq!(seen.capacity(), 32);
    for i in 0..32 {
        assert!(!seen.seen_before(&format!("m{i}")));
    }
    assert!(seen.seen_before("m0"));
    assert!(!seen.seen_before("m32"));
    assert!(!seen.seen_before("m0"));
    assert_eq!(seen.len(), 32);
}

#[test]
fn events_become_messages() {
    let inbound = event("a", "p2p").to_inbound("main", "feishu").unwrap();
    assert_eq!(inbound.text, "hi");
    assert_eq!(inbound.source.chat_type, "dm");
    assert_eq!(inbound.source.user_id.as_deref(), Some("on"));
    assert_eq!(inbound.source.thread_id.as_deref(), Some("root"));
    assert_eq!(
        event("a", "p2p").reply_root_message_id().as_deref(),
        Some("root")
    );
    assert!(event("root", "p2p").reply_root_message_id().is_none());
    assert_eq!(event_step("im.message.receive_v1", true), EventStep::Message);
    assert_eq!(event_step("im.message.receive_v1", false), EventStep::Acknowledge);
    assert_eq!(event_step("card.action.trigger", true), EventStep::CardAction);
}

#[test]
fn contents_of_messages_are_read() {
    assert_eq!(message_text("text", "{\"text\":\"x\"}").as_deref(), Some("x"));
    assert_eq!(message_text("unknown", "{}"), None);
    assert_eq!(
        image_keys_from_content("{\"image_key\":\"k1\",\"list\":[{\"image_key\":\"k0\"}]}"),
        vec!["k0".to_string(), "k1".to_string()]
    );
    assert_eq!(
        file_resources_from_content("{\"file_key\":\"f\",\"file_name\":\"n.txt\"}"),
        vec![FeishuFileResource {
            file_key: "f".to_string(),
            filename: Some("n.txt".to_string()),
        }]
    );
    assert!(image_keys_from_content("not json").is_empty());
}

fn request() -> UserInputRequest {
    let question = |id: &str| UserInputQuestion {
        id: id.to_string(),
        header: id.to_string(),
        question: "?".to_string(),
        options: vec![UserInputOption {
            label: "first".to_string(),
            description: String::new(),
        }],
    };
    UserInputRequest {
        questions: vec![question("q1"), question("q2")],
        auto_resolution_ms: None,
    }
}

fn source() -> MessageSource {
    MessageSource {
        channel_name: "main".to_string(),
        platform: "feishu".to_string(),
        chat_id: "oc".to_string(),
        chat_type: "group".to_string(),
        user_id: Some("ou".to_string()),
        thread_id: None,
    }
}

#[test]
fn texts_answer_the_next_question() {
    let mut pending = PendingUserInputs::new();
    let mut threads = ThreadReplyCache::new(32);
    pending.insert("r".to_string(), request());
    pending.bind_source("r", source());
    pending.bind_card_message("r", "card".to_string());
    let message = |text: &str| InboundMessage::text(text, source(), Some("m".to_string()));
    match route_inbound(message("one"), true, &mut pending, &mut threads) {
        InboundRoute::Consumed { request_id, update, response, done_reaction } => {
            assert_eq!(request_id, "r");
            assert_eq!(update.unwrap().message_id, "card");
            assert!(response.is_none());
            assert!(done_reaction.is_none());
        }
        InboundRoute::Enqueue(_) => panic!("the text answers a question"),
    }
    match route_inbound(message("/stop"), true, &mut pending, &mut threads) {
        InboundRoute::Enqueue(kept) => assert_eq!(kept.text, "/stop"),
        InboundRoute::Consumed { .. } => panic!("a command answers nothing"),
    }
    assert!(take_thread_mark(&mut threads, &Some("m".to_string())));
    assert!(!take_thread_mark(&mut threads, &Some("m".to_string())));
    match route_inbound(message("two"), true, &mut pending, &mut threads) {
        InboundRoute::Consumed { response, done_reaction, .. } => {
            let answers = response.unwrap().answers;
            assert_eq!(answers.get("q1"), Some(&vec!["one".to_string()]));
            assert_eq!(answers.get("q2"), Some(&vec!["two".to_string()]));
            assert_eq!(done_reaction.as_deref(), Some("m"));
        }
        InboundRoute::Enqueue(_) => panic!("the text answers a question"),
    }
    assert_eq!(pending.len(), 0);
    assert!(matches!(
        route_inbound(message("three"), false, &mut pending, &mut threads),
        InboundRoute::Enqueue(_)
    ));
}

#[test]
fn buttons_answer_their_question() {
    let mut pending = PendingUserInputs::new();
    pending.insert("r".to_string(), request());
    let press = Json::parse(
        "{\"action\":{\"value\":{\"llm_loop\":\"request_user_input\",\"request_id\":\"r\",\"question_id\":\"q2\",\"answer\":\"x\"}}}",
    )
    .unwrap();
    assert!(matches!(card_action(&press), CardAction::Answer { .. }));
    handle_card_action(&press, &mut pending);
    let foreign = Json::parse("{\"action\":{\"value\":{\"llm_loop\":\"other\"}}}").unwrap();
    assert!(matches!(card_action(&foreign), CardAction::Ignored));
    let settled = pending.auto_resolve("r").unwrap();
    assert_eq!(settled.answers.get("q1"), Some(&vec!["first".to_string()]));
    assert_eq!(settled.answers.get("q2"), Some(&vec!["x".to_string()]));
    assert_eq!(
        pending.auto_resolve("r").unwrap_err().to_text(),
        "channel error: feishu user input request is missing"
    );
    assert!(matches!(
        pending.answer("r", "q1", "late".to_string()),
        UserInputAnswerResult::Missing
    ));
}

#[test]
fn a_card_button_answers_its_question() {
    let card = build_user_input_card("r", &request());
    let elements = card.get("body").unwrap().get("elements").unwrap();
    let row = &elements.as_array().unwrap()[2];
    let column = &row.get("columns").unwrap().as_array().unwrap()[0];
    let button = &column.get("elements").unwrap().as_array().unwrap()[0];
    let value = Json::parse(&button.get("value").unwrap().render()).unwrap();
    let action = Fields::new().with("value", value).object();
    let press = Fields::new().with("action", action).object();
    match card_action(&press) {
        CardAction::Answer {
            request_id,
            question_id,
            answer,
        } => {
            assert_eq!(request_id, "r");
            assert_eq!(question_id, "q1");
            assert_eq!(answer, "first");
        }
        CardAction::Ignored => panic!("the button is not understood"),
    }
}

fn header(key: &str, value: &str) -> FeishuHeader {
    FeishuHeader {
        key: key.to_string(),
        value: value.to_string(),
    }
}

#[test]
fn frames_are_told_apart() {
    let mut frame = ping_frame(7);
    assert_eq!(frame_step(&frame).unwrap(), FrameStep::Ignore);
    frame.headers = vec![header("type", "pong")];
    assert_eq!(frame_step(&frame).unwrap(), FrameStep::Echo);
    frame.method = 1;
    frame.headers = vec![header("type", "event"), header("sum", "1")];
    assert_eq!(frame_step(&frame).unwrap(), FrameStep::Event);
    frame.headers.push(header("seq", "1"));
    assert_eq!(
        frame_step(&frame).unwrap_err().to_text(),
        "channel error: feishu split websocket frame is not supported yet"
    );
    let answer: FeishuFrame = response_frame(frame, 200);
    assert_eq!(answer.service, 7);
    assert_eq!(answer.headers.len(), 3);
    assert_eq!(
        answer.payload,
        b"{\"code\":200,\"data\":[],\"headers\":{}}".to_vec()
    );
    assert_eq!(
        ack_payload(200).get("code"),
        Some(&Json::Number("200".to_string()))
    );
    assert_eq!(parse_service_id("wss://x/y?a=1&service_id=33"), Some(33));
    assert_eq!(parse_service_id("wss://x/y"), None);
}

fn forwarded(id: &str, sender: &str) -> FeishuMessageDetail {
    FeishuMessageDetail {
        message_id: id.to_string(),
        msg_type: "text".to_string(),
        upper_message_id: Some("top".to_string()),
        sender: Some(FeishuMessageSender {
            id: sender.to_string(),
            _sender_type: None,
        }),
        body: None,
    }
}

#[test]
fn forwarded_conversations_are_told_with_names() {
    let items = vec![
        forwarded("1", "ou_a"),
        forwarded("2", "ou_b"),
        forwarded("3", "ou_a"),
    ];
    let bodies = vec![
        Some("hello".to_string()),
        None,
        Some("two\nlines".to_string()),
    ];
    let told = render_merge_forward_items("top", &items, &bodies).unwrap();
    let lines: Vec<&str> = told.lines().collect();
    assert_eq!(lines[0], "[合并转发消息]");
    assert!(lines[1].starts_with("1. "));
    assert!(lines[1].ends_with(": hello"));
    assert!(lines[2].starts_with("2. "));
    assert_eq!(lines[3], "   lines");
    let name = &lines[1][3..lines[1].len() - ": hello".len()];
    assert!(lines[2].contains(name));
    assert!(render_merge_forward_items("top", &vec![], &vec![]).is_none());
    assert_eq!(with_root_context("c", "t"), "c\n\n[用户追问]\nt");
    let mut visited: Assoc<()> = Assoc::new();
    assert!(enter_forward(&mut visited, "x"));
    assert!(!enter_forward(&mut visited, "x"));
    leave_forward(&mut visited, "x");
    assert!(enter_forward(&mut visited, "x"));
}

#[test]
fn recipients_need_an_id() {
    let mut message = OutboundMessage {
        channel_name: "main".to_string(),
        chat_id: " on_1 ".to_string(),
        recipient: OutboundRecipient::User,
        text: "t".to_string(),
        reply_to: None,
        thread_id: None,
        format: OutboundFormat::Text,
    };
    let user = feishu_recipient_from_outbound(&message).unwrap();
    assert_eq!(user.id, "on_1");
    assert_eq!(user.id_type, FeishuReceiveIdType::UnionId);
    assert!(create_url("https://b", user.id_type).ends_with("receive_id_type=union_id"));
    let card = Fields::new().text("b", "\"").with("a", Json::Null).object();
    let body = create_body(&user, &card);
    assert_eq!(body.text_field("content"), Some("{\"a\":null,\"b\":\"\\\"\"}"));
    assert_eq!(body.text_field("receive_id"), Some("on_1"));
    assert_eq!(body.text_field("uuid").unwrap().len(), 36);
    message.chat_id = " ".to_string();
    assert_eq!(
        feishu_recipient_from_outbound(&message).unwrap_err().to_text(),
        "channel error: feishu outbound recipient id is empty"
    );
    let mut from = source();
    assert_eq!(
        feishu_recipient_from_source(&from).unwrap().id_type,
        FeishuReceiveIdType::ChatId
    );
    from.chat_id = String::new();
    assert_eq!(
        feishu_recipient_from_source(&from).unwrap_err().to_text(),
        "channel error: feishu chat recipient id is empty"
    );
    from.chat_type = "dm".to_string();
    from.user_id = None;
    assert_eq!(
        feishu_recipient_from_source(&from).unwrap_err().to_text(),
        "channel error: feishu user recipient id is empty"
    );
    let reply = reply_body_with("c", "u", true);
    assert_eq!(reply.get("reply_in_thread"), Some(&Json::Bool(true)));
}

#[test]
fn answers_of_the_platform_are_read() {
    let reply = |code: i64, message: Option<&str>, reaction: Option<&str>| MessageReply {
        code,
        msg: Some("bad".to_string()),
        message_id: message.map(|text| text.to_string()),
        reaction_id: reaction.map(|text| text.to_string()),
    };
    assert_eq!(
        message_reply_id("w", reply(0, None, Some("r"))).unwrap().as_deref(),
        Some("r")
    );
    assert_eq!(message_reply_id("w", reply(0, Some(" "), None)).unwrap(), None);
    assert_eq!(
        message_reply_id("w", reply(9, None, None)).unwrap_err().to_text(),
        "channel error: w error 9: bad"
    );
    assert_eq!(
        required_value("w", 0, &None, None, "gone").unwrap_err().to_text(),
        "channel error: gone"
    );
    assert_eq!(
        last_message_id(&vec![Some("a".to_string()), Some("b".to_string()), None]).as_deref(),
        Some("b")
    );
    assert_eq!(mime_of_header(Some("image/png; q=1")), "image/png");
    assert_eq!(
        normalize_image_mime("application/octet-stream", &[0x89, b'P', b'N', b'G']),
        "image/png"
    );
    let error = Json::parse(
        "{\"error\":{\"details\":[{\"key\":\"ErrorField\",\"value\":\"content\"}]}}",
    )
    .unwrap();
    assert_eq!(find_feishu_detail(&error, "ErrorField").as_deref(), Some("content"));
    assert_eq!(token_lifetime(Some(100)), 40);
    assert_eq!(token_lifetime(Some(10)), 0);
    assert_eq!(redact_query("https://a/b?c=d"), "https://a/b");
    assert_eq!(log_preview("a  b\nc", 3), "a b...");
    assert_eq!(
        http_failure("qq token", "401 X", "no").to_text(),
        "channel error: qq token failed with 401 X: no"
    );
}

#[test]
fn many_tables_go_to_several_cards() {
    let table = "| a | b |\n| --- | --- |\n| 1 | 2 |";
    let text = vec![table; 6].join("\n\n");
    let steps = plan_send(&text, Some("m"), true, OutboundFormat::Text);
    assert_eq!(steps.len(), 2);
    assert_eq!(steps[0].reply_to.as_deref(), Some("m"));
    assert!(steps[0].in_thread);
    assert!(steps[1].reply_to.is_none());
    assert!(!steps[1].in_thread);
    assert_eq!(plan_send(&text, None, true, OutboundFormat::Plan).len(), 1);
}

#[test]
fn confirmations_suit_the_platform() {
    let message = InboundMessage::text("hi", source(), Some("m".to_string()));
    assert!(matches!(
        feishu_ack("main", &message, ChannelAckKind::Received),
        FeishuAck::Reaction { message_id, emoji_type } if message_id == "m" && emoji_type == "Typing"
    ));
    assert!(matches!(
        feishu_ack("main", &message, ChannelAckKind::StopDone),
        FeishuAck::Reply(reply) if reply.text == "done" && reply.chat_id == "oc"
    ));
    let nameless = InboundMessage::text("hi", source(), None);
    assert!(matches!(
        feishu_ack("main", &nameless, ChannelAckKind::ResetDone),
        FeishuAck::Nothing
    ));
    assert_eq!(
        feishu_ack_capability(ChannelAckKind::StopDone),
        ChannelAckCapability::TextReply
    );
    assert_eq!(
        telegram_ack_capability(ChannelAckKind::Received, false),
        ChannelAckCapability::Silent
    );
    assert_eq!(channel_kind("tg").unwrap(), BuiltinChannelKind::Telegram);
    assert_eq!(
        channel_kind("ws").unwrap_err().to_text(),
        "unsupported channel kind: ws"
    );
    assert!(!ChannelCapabilities::none().text_ack);
}

#[test]
fn settings_name_the_domain() {
    let mut config = FeishuChannelConfig::default();
    config.domain = "lark".to_string();
    let found = ResolvedFeishuConfig::resolve(&config, Some("id"), Some("key")).unwrap();
    assert_eq!(found.base_url, "https://open.larksuite.com");
    config.domain = "moon".to_string();
    assert_eq!(
        ResolvedFeishuConfig::resolve(&config, Some("id"), Some("key"))
            .err()
            .unwrap()
            .to_text(),
        "channel error: unsupported feishu domain: moon"
    );
    assert_eq!(
        ResolvedFeishuConfig::resolve(&config, None, None).err().unwrap().to_text(),
        "channel error: feishu app_id is required"
    );
    assert_eq!(
        ResolvedFeishuConfig::resolve(&config, Some("id"), None).err().unwrap().to_text(),
        "channel error: feishu app_secret is required"
    );
    assert_eq!(resolve_secret(&Some(" a ".to_string()), None).as_deref(), Some("a"));
    assert_eq!(next_retry_delay(20), 40);
    assert_eq!(next_retry_delay(31), 60);
    assert_eq!(cached_bot_open_id(" ou_1 \n").as_deref(), Some("ou_1"));
}

#[test]
fn stored_files_get_safe_names() {
    assert_eq!(sanitize_filename("a/b:c.txt"), "a_b_c.txt");
    assert_eq!(sanitize_filename(" .. "), "file");
    assert_eq!(sanitize_filename(&"x".repeat(400)).chars().count(), 120);
    assert_eq!(unique_store_filename(5, "a"), "5_a");
    let planned = plan_inbound_attachment(
        "/s",
        7,
        &DownloadedAttachment {
            filename: "a/b",
            mime_type: "text/plain",
            bytes: &[1, 2, 3],
        },
    );
    assert_eq!(
        planned,
        InboundAttachment::StoredFile {
            path: "/s/7_a_b".to_string(),
            filename: "a_b".to_string(),
            mime_type: "text/plain".to_string(),
            size: 3,
        }
    );
    assert_eq!(feishu_sanitize_filename("a/b"), "a_b");
    let file = FeishuFileResource {
        file_key: "k".to_string(),
        filename: None,
    };
    assert_eq!(
        plan_stored_file("/s", "h", &file, "m", 2),
        InboundAttachment::StoredFile {
            path: "/s/h_k".to_string(),
            filename: "k".to_string(),
            mime_type: "m".to_string(),
            size: 2,
        }
    );
    let stored = stored_attachments(
        "/s",
        &vec!["h".to_string(), "i".to_string()],
        &vec![
            FeishuFileResource {
                file_key: "k".to_string(),
                filename: None,
            },
            FeishuFileResource {
                file_key: "l".to_string(),
                filename: Some("l.txt".to_string()),
            },
        ],
        &vec![
            StoreOutcome::Failed,
            StoreOutcome::Stored {
                mime_type: "m".to_string(),
                size: 4,
            },
        ],
    );
    assert_eq!(stored.len(), 1);
    assert!(matches!(
        &stored[0],
        InboundAttachment::StoredFile { path, .. } if path == "/s/i_l.txt"
    ));
}
