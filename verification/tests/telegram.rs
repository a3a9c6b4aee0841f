use llm_loop::channel::kinds::ChannelAckKind;
use llm_loop::channel::telegram::api::{
    acknowledge, acknowledge_without_reaction, build_message_reaction_body, check_download,
    check_status, file_download, file_url, get_updates_body, handle_callback_query, method_url,
    parse_message_id, photo_path, plan_send, plan_update, polling_config, sent_result,
    ResolvedTelegramConfig, TelegramAck, TelegramApiResponse,
};
use llm_loop::channel::telegram::outbound::{split_telegram_text, strip_bot_mention};
use llm_loop::channel::telegram::pending::{
    build_user_input_keyboard, build_user_input_text, parse_user_input_callback,
    TelegramPendingUserInputs,
};
use llm_loop::channel::telegram::update::{
    attach_telegram_files, best_photo, handle_update, next_offset, stored_offset,
    telegram_message_to_inbound, telegram_source, AttachmentStep, TelegramBehaviorConfig,
    TelegramCallbackQuery, TelegramChat, TelegramFile, TelegramFileMeta, TelegramMessage,
    TelegramPhotoSize, TelegramUpdate, TelegramUser, UpdateStep,
};
use llm_loop::config::TelegramChannelConfig;
use llm_loop::json::Json;
use llm_loop::message::{
    InboundAttachment, InboundMessage, MessageSource, MessageUpdate, OutboundFormat,
    OutboundMessage, OutboundRecipient, UserInputOption, UserInputQuestion, UserInputRequest,
};

fn at<'a>(value: &'a Json, place: &[&str]) -> &'a Json {
    let mut found = value;
    for step in place {
        found = match found {
            Json::List(items) => &items[step.parse::<usize>().unwrap()],
            _ => found.get(step).unwrap(),
        };
    }
    found
}

fn number(n: &str) -> Json {
    Json::Number(n.to_string())
}

fn test_message() -> TelegramMessage {
    TelegramMessage {
        message_id: 12,
        message_thread_id: Some(34),
        from: None,
        sender_chat: None,
        chat: TelegramChat {
            id: -100,
            kind: "supergroup".to_string(),
        },
        text: Some("hello".to_string()),
        caption: None,
        photo: None,
        document: None,
        audio: None,
        video: None,
        voice: None,
        animation: None,
    }
}

#[test]
fn telegram_source_maps_supergroup_and_thread() {
    let source = telegram_source("tg-main", &test_message());

    assert_eq!(source.channel_name, "tg-main");
    assert_eq!(source.platform, "telegram");
    assert_eq!(source.chat_id, "-100");
    assert_eq!(source.chat_type, "group");
    assert_eq!(source.thread_id.as_deref(), Some("34"));
}

#[test]
fn strip_bot_mention_removes_username() {
    let text = "你好 @demo_bot 帮我查日志";

    let cleaned = strip_bot_mention(text, "demo_bot").unwrap();

    assert_eq!(cleaned, "你好  帮我查日志");
}

#[test]
fn strip_bot_mention_rejects_missing_username() {
    assert!(strip_bot_mention("你好", "demo_bot").is_none());
}

#[test]
fn strip_bot_mention_takes_a_name_with_its_sign() {
    assert_eq!(
        strip_bot_mention("@@bot @bot", "@@bot").as_deref(),
        Some("@")
    );
}

#[test]
fn split_telegram_text_splits_long_message() {
    let text = format!("{}\n{}", "a".repeat(3900), "b".repeat(3900));

    let chunks = split_telegram_text(&text);

    assert_eq!(chunks.len(), 2);
    assert!(chunks[0].chars().count() <= 3900);
    assert!(chunks[1].chars().count() <= 3900);
}

#[test]
fn split_telegram_text_keeps_short_texts_and_long_lines() {
    assert_eq!(split_telegram_text("  \n"), vec![" ".to_string()]);
    assert_eq!(split_telegram_text(" a\nb "), vec!["a\nb".to_string()]);
    let long = "x".repeat(4000);
    assert_eq!(split_telegram_text(&long), vec![long.clone()]);
    let text = format!("{}\n\nend", "y".repeat(3900));
    assert_eq!(
        split_telegram_text(&text),
        vec!["y".repeat(3900), "end".to_string()]
    );
}

#[test]
fn split_telegram_text_cuts_lines_that_are_too_long() {
    let text = format!("{}\nend", "x".repeat(5000));
    let chunks = split_telegram_text(&text);
    assert_eq!(chunks.len(), 2);
    assert_eq!(chunks[0], "x".repeat(4096));
    assert_eq!(chunks[1], format!("{}\nend", "x".repeat(904)));
    assert_eq!(split_telegram_text(&"y".repeat(4096)).len(), 1);
    let chunks = split_telegram_text(&"汉".repeat(9000));
    let lengths: Vec<usize> = chunks.iter().map(|chunk| chunk.chars().count()).collect();
    assert_eq!(lengths, vec![4096, 4096, 808]);
    assert_eq!(chunks.concat(), "汉".repeat(9000));
}

fn photo(file_id: &str, unique: &str, width: u32, height: u32) -> TelegramPhotoSize {
    TelegramPhotoSize {
        file_id: file_id.to_string(),
        file_unique_id: unique.to_string(),
        width,
        height,
    }
}

#[test]
fn best_photo_uses_largest_area() {
    let photos = vec![photo("small", "s", 10, 10), photo("large", "l", 20, 20)];

    let photo = best_photo(&photos).unwrap();

    assert_eq!(photo.file_id, "large");
}

#[test]
fn best_photo_takes_the_last_of_equal_sizes() {
    let photos = vec![photo("a", "a", 4, 9), photo("b", "b", 6, 6), photo("c", "c", 1, 1)];
    assert_eq!(best_photo(&photos).unwrap().file_id, "b");
    assert!(best_photo(&[]).is_none());
}

#[test]
fn parse_user_input_callback_reads_indices() {
    let parsed = parse_user_input_callback("ui:req1:2:3").unwrap();

    assert_eq!(parsed, ("req1".to_string(), 2, 3));
}

#[test]
fn parse_user_input_callback_rejects_other_data() {
    assert!(parse_user_input_callback("xx:req1:2:3").is_none());
    assert!(parse_user_input_callback("ui:req1:2").is_none());
    assert!(parse_user_input_callback("ui:req1:a:3").is_none());
    assert!(parse_user_input_callback("ui:req1:2:").is_none());
}

fn request() -> UserInputRequest {
    UserInputRequest {
        questions: vec![UserInputQuestion {
            id: "mode".to_string(),
            header: "模式".to_string(),
            question: "选哪个？".to_string(),
            options: vec![UserInputOption {
                label: "快".to_string(),
                description: "更快".to_string(),
            }],
        }],
        auto_resolution_ms: None,
    }
}

fn two_questions() -> UserInputRequest {
    let mut request = request();
    request.questions.push(UserInputQuestion {
        id: "color".to_string(),
        header: "颜色".to_string(),
        question: "哪种？".to_string(),
        options: vec![
            UserInputOption {
                label: "红".to_string(),
                description: "r".to_string(),
            },
            UserInputOption {
                label: "蓝".to_string(),
                description: "b".to_string(),
            },
        ],
    });
    request
}

#[test]
fn build_user_input_keyboard_contains_callback_data() {
    let keyboard = build_user_input_keyboard("abc", &request());

    assert_eq!(
        at(&keyboard, &["inline_keyboard", "0", "0", "callback_data"]),
        &Json::text("ui:abc:0:0")
    );
}

#[test]
fn buttons_lead_back_to_their_choices() {
    let keyboard = build_user_input_keyboard("abc", &two_questions());
    let data = at(&keyboard, &["inline_keyboard", "2", "0", "callback_data"])
        .as_str()
        .unwrap();
    assert_eq!(
        parse_user_input_callback(data),
        Some(("abc".to_string(), 1, 1))
    );
}

#[test]
fn build_user_input_text_lists_questions_and_choices() {
    assert_eq!(
        build_user_input_text(&two_questions()),
        "1. 模式\n选哪个？\n- 快：更快\n\n2. 颜色\n哪种？\n- 红：r\n- 蓝：b"
    );
}

#[test]
fn build_message_reaction_body_uses_emoji_reaction() {
    let body = build_message_reaction_body("1000000000", 2, "\u{1F440}", true);

    assert_eq!(at(&body, &["chat_id"]), &Json::text("1000000000"));
    assert_eq!(at(&body, &["message_id"]), &number("2"));
    assert_eq!(at(&body, &["reaction", "0", "type"]), &Json::text("emoji"));
    assert_eq!(
        at(&body, &["reaction", "0", "emoji"]),
        &Json::text("\u{1F440}")
    );
    assert_eq!(at(&body, &["is_big"]), &Json::Bool(true));
}

#[test]
fn pending_requests_finish_with_the_last_answer() {
    let mut pending = TelegramPendingUserInputs::new();
    pending.insert("r".to_string(), two_questions());
    assert!(pending.answer_callback("other", 0, 0).unwrap().is_none());
    assert!(pending.answer_callback("r", 1, 1).unwrap().is_none());
    let answers = pending.answer_callback("r", 0, 0).unwrap().unwrap().answers;
    assert_eq!(answers.get("mode"), Some(&vec!["快".to_string()]));
    assert_eq!(answers.get("color"), Some(&vec!["蓝".to_string()]));
    assert_eq!(pending.len(), 0);
    assert!(pending.answer_callback("r", 0, 0).unwrap().is_none());
}

#[test]
fn pending_requests_reject_unknown_buttons() {
    let mut pending = TelegramPendingUserInputs::new();
    pending.insert("r".to_string(), request());
    assert_eq!(
        pending.answer_callback("r", 1, 0).unwrap_err().to_text(),
        "channel error: telegram callback question index invalid"
    );
    assert_eq!(
        pending.answer_callback("r", 0, 1).unwrap_err().to_text(),
        "channel error: telegram callback option index invalid"
    );
    let settled = pending.auto_resolve("r").unwrap();
    assert_eq!(settled.answers.get("mode"), Some(&vec!["快".to_string()]));
    assert_eq!(
        pending.auto_resolve("r").unwrap_err().to_text(),
        "channel error: telegram user input request missing"
    );
}

#[test]
fn pressed_buttons_are_answered() {
    let mut pending = TelegramPendingUserInputs::new();
    pending.insert("r".to_string(), two_questions());
    let press = |data: Option<&str>| TelegramCallbackQuery {
        id: "cb".to_string(),
        from: TelegramUser {
            id: 1,
            username: None,
        },
        data: data.map(|text| text.to_string()),
    };
    let noted = handle_callback_query(&press(Some("ui:r:0:0")), &mut pending).unwrap();
    assert_eq!(at(&noted.body, &["text"]), &Json::text("已记录"));
    assert!(noted.completed.is_none());
    let done = handle_callback_query(&press(Some("ui:r:1:0")), &mut pending).unwrap();
    assert_eq!(at(&done.body, &["text"]), &Json::text("已选择"));
    let completed = done.completed.unwrap();
    assert_eq!(completed.request_id, "r");
    assert_eq!(completed.response.answers.len(), 2);
    let empty = handle_callback_query(&press(None), &mut pending).unwrap();
    assert!(empty.body.get("text").is_none());
    let foreign = handle_callback_query(&press(Some("else")), &mut pending).unwrap();
    assert_eq!(at(&foreign.body, &["callback_query_id"]), &Json::text("cb"));
    assert!(foreign.body.get("text").is_none());
}

fn behavior(require_mention: bool) -> TelegramBehaviorConfig {
    TelegramBehaviorConfig {
        require_mention,
        send_typing: true,
        download_attachments: true,
        max_download_bytes: 100,
    }
}

#[test]
fn messages_of_groups_may_have_to_mention_the_bot() {
    let mut message = test_message();
    assert!(
        telegram_message_to_inbound("tg", &behavior(true), Some("bot"), &message).is_none()
    );
    assert!(telegram_message_to_inbound("tg", &behavior(true), None, &message).is_none());
    let plain = telegram_message_to_inbound("tg", &behavior(false), None, &message).unwrap();
    assert_eq!(plain.text, "hello");
    assert_eq!(plain.message_id.as_deref(), Some("12"));
    message.text = Some("@bot go".to_string());
    let cleaned =
        telegram_message_to_inbound("tg", &behavior(true), Some("bot"), &message).unwrap();
    assert_eq!(cleaned.text, "go");
    message.text = None;
    message.chat.kind = "private".to_string();
    let silent = telegram_message_to_inbound("tg", &behavior(true), None, &message).unwrap();
    assert_eq!(silent.text, "用户发送了附件");
    assert_eq!(silent.source.chat_type, "dm");
}

fn meta(name: Option<&str>, size: Option<u64>) -> TelegramFileMeta {
    TelegramFileMeta {
        file_id: "f".to_string(),
        file_unique_id: "u".to_string(),
        file_name: name.map(|text| text.to_string()),
        mime_type: None,
        file_size: size,
    }
}

#[test]
fn files_of_a_message_are_handled_in_order() {
    let mut message = test_message();
    message.voice = Some(meta(None, Some(101)));
    message.document = Some(meta(Some("a.txt"), Some(100)));
    message.photo = Some(vec![photo("p", "pu", 1, 1)]);
    let steps = attach_telegram_files(&message, 100);
    assert_eq!(
        steps,
        vec![
            AttachmentStep::Photo {
                file_id: "p".to_string(),
                filename: "pu.jpg".to_string(),
            },
            AttachmentStep::File {
                file_id: "f".to_string(),
                filename: Some("a.txt".to_string()),
                mime_type: "application/octet-stream".to_string(),
            },
            AttachmentStep::TooLarge(InboundAttachment::StoredFile {
                path: "<telegram-file-too-large>".to_string(),
                filename: "u".to_string(),
                mime_type: "application/octet-stream".to_string(),
                size: 101,
            }),
        ]
    );
}

#[test]
fn files_are_fetched_by_their_path() {
    let file = TelegramFile {
        file_unique_id: "u".to_string(),
        file_size: Some(5),
        file_path: Some("docs/a/b.pdf/".to_string()),
    };
    assert_eq!(
        file_download(&file, &None),
        Some(("docs/a/b.pdf/".to_string(), "b.pdf".to_string()))
    );
    assert_eq!(photo_path(&file, 5).unwrap(), "docs/a/b.pdf/");
    assert_eq!(
        photo_path(&file, 4).unwrap_err().to_text(),
        "channel error: telegram file exceeds max_download_bytes: 5 > 4"
    );
    let nowhere = TelegramFile {
        file_path: None,
        ..file.clone()
    };
    assert!(file_download(&nowhere, &None).is_none());
    assert_eq!(
        photo_path(&nowhere, 9).unwrap_err().to_text(),
        "channel error: telegram getFile missing file_path"
    );
    let up = TelegramFile {
        file_path: Some("x/..".to_string()),
        ..file
    };
    assert_eq!(file_download(&up, &None).unwrap().1, "u");
}

#[test]
fn updates_prefer_buttons_and_new_messages() {
    let mut update = TelegramUpdate {
        update_id: 1,
        message: None,
        edited_message: Some(test_message()),
        channel_post: None,
        edited_channel_post: None,
        callback_query: None,
    };
    assert!(matches!(handle_update(update.clone()), UpdateStep::Message(m) if m.message_id == 12));
    update.callback_query = Some(TelegramCallbackQuery {
        id: "c".to_string(),
        from: TelegramUser {
            id: 1,
            username: None,
        },
        data: None,
    });
    assert!(matches!(handle_update(update.clone()), UpdateStep::Callback(c) if c.id == "c"));
    update.callback_query = None;
    update.edited_message = None;
    assert!(matches!(handle_update(update), UpdateStep::Ignore));
}

#[test]
fn offsets_go_forward() {
    assert_eq!(next_offset(41), 42);
    assert_eq!(next_offset(i64::MAX), i64::MAX);
    assert_eq!(stored_offset(" 17\n"), Some(17));
    assert_eq!(stored_offset("-3"), Some(-3));
    assert_eq!(stored_offset("x"), None);
}

fn outbound(text: &str) -> OutboundMessage {
    OutboundMessage {
        channel_name: "tg".to_string(),
        chat_id: "7".to_string(),
        recipient: OutboundRecipient::Chat,
        text: text.to_string(),
        reply_to: Some("9".to_string()),
        thread_id: Some("3".to_string()),
        format: OutboundFormat::Text,
    }
}

#[test]
fn only_the_first_part_of_a_text_is_a_reply() {
    let text = format!("{}\n{}", "a".repeat(3900), "b");
    let bodies = plan_send(&outbound(&text));
    assert_eq!(bodies.len(), 2);
    assert_eq!(
        at(&bodies[0], &["reply_parameters", "message_id"]),
        &number("9")
    );
    assert_eq!(at(&bodies[0], &["message_thread_id"]), &number("3"));
    assert!(bodies[1].get("reply_parameters").is_none());
    assert_eq!(at(&bodies[1], &["text"]), &Json::text("b"));
}

#[test]
fn messages_are_changed_in_their_chat() {
    let mut update = MessageUpdate {
        channel_name: "tg".to_string(),
        chat_id: Some("7".to_string()),
        message_id: "5".to_string(),
        text: "new".to_string(),
        format: OutboundFormat::Text,
    };
    let body = plan_update(&update).unwrap();
    assert_eq!(at(&body, &["message_id"]), &number("5"));
    assert_eq!(at(&body, &["text"]), &Json::text("new"));
    update.message_id = "five".to_string();
    assert_eq!(
        plan_update(&update).unwrap_err().to_text(),
        "channel error: invalid telegram message_id=five"
    );
    update.chat_id = None;
    assert_eq!(
        plan_update(&update).unwrap_err().to_text(),
        "channel error: telegram update chat_id is missing for message_id=five"
    );
    assert_eq!(parse_message_id("12").unwrap(), 12);
}

#[test]
fn answers_of_the_interface_are_checked() {
    assert!(check_status("getMe", true, "200 OK", "").is_ok());
    assert_eq!(
        check_status("getMe", false, "404 Not Found", "gone")
            .unwrap_err()
            .to_text(),
        "channel error: telegram api getMe failed with 404 Not Found: gone"
    );
    let failed: TelegramApiResponse<bool> = TelegramApiResponse {
        ok: false,
        result: None,
        description: Some("bad".to_string()),
        error_code: Some(400),
    };
    assert_eq!(
        failed.into_result("m").unwrap_err().to_text(),
        "channel error: telegram api m error code=Some(400) desc=bad"
    );
    let empty: TelegramApiResponse<bool> = TelegramApiResponse {
        ok: true,
        result: None,
        description: None,
        error_code: None,
    };
    assert_eq!(
        empty.into_result("m").unwrap_err().to_text(),
        "channel error: telegram api m missing result"
    );
    let good = TelegramApiResponse {
        ok: true,
        result: Some(5),
        description: None,
        error_code: None,
    };
    assert_eq!(good.into_result("m").unwrap(), 5);
    assert!(check_download(true, "200 OK", "", 3, 3).is_ok());
    assert_eq!(
        check_download(true, "200 OK", "", 4, 3).unwrap_err().to_text(),
        "channel error: telegram file exceeds max_download_bytes: 4 > 3"
    );
    assert_eq!(
        check_download(false, "500 X", "t", 0, 3).unwrap_err().to_text(),
        "channel error: telegram file download failed with 500 X: t"
    );
    assert_eq!(
        sent_result(&[1, 2]).unwrap().message_id.as_deref(),
        Some("2")
    );
    assert_eq!(
        sent_result(&[]).unwrap_err().to_text(),
        "channel error: telegram sendMessage produced no message"
    );
}

#[test]
fn settings_are_resolved() {
    let mut config = TelegramChannelConfig::default();
    config.poll_limit = 1000;
    config.poll_timeout_seconds = 0;
    let polling = polling_config(&config);
    assert_eq!(polling.poll_limit, 100);
    assert_eq!(polling.poll_timeout_seconds, 1);
    let found = ResolvedTelegramConfig::resolve(&config, Some("tok")).unwrap();
    assert_eq!(
        method_url(&found, "getMe"),
        "https://api.telegram.org/bottok/getMe"
    );
    assert_eq!(
        file_url(&found, "/p/x"),
        "https://api.telegram.org/file/bottok/p/x"
    );
    config.bot_token = Some(" ".to_string());
    assert_eq!(
        ResolvedTelegramConfig::resolve(&config, Some("tok"))
            .err()
            .unwrap()
            .to_text(),
        "channel error: telegram bot token is required"
    );
}

#[test]
fn updates_are_asked_for_from_an_offset() {
    let body = get_updates_body(Some(7), 50, 100);
    assert_eq!(at(&body, &["offset"]), &number("7"));
    assert_eq!(at(&body, &["timeout"]), &number("50"));
    assert_eq!(at(&body, &["allowed_updates", "13"]), &Json::text("callback_query"));
    assert_eq!(at(&body, &["allowed_updates"]).as_array().unwrap().len(), 25);
    assert!(get_updates_body(None, 50, 100).get("offset").is_none());
}

fn inbound(message_id: Option<&str>) -> InboundMessage {
    InboundMessage::text(
        "hi",
        MessageSource {
            channel_name: "tg".to_string(),
            platform: "telegram".to_string(),
            chat_id: "7".to_string(),
            chat_type: "dm".to_string(),
            user_id: None,
            thread_id: None,
        },
        message_id.map(|id| id.to_string()),
    )
}

#[test]
fn confirmations_fall_back() {
    let known = inbound(Some("5"));
    assert!(matches!(
        acknowledge(&known, ChannelAckKind::Received, false),
        TelegramAck::Done
    ));
    assert!(matches!(
        acknowledge(&known, ChannelAckKind::StopDone, false),
        TelegramAck::Reaction(body) if at(&body, &["message_id"]) == &number("5")
    ));
    assert!(matches!(
        acknowledge_without_reaction(&known, ChannelAckKind::Received),
        TelegramAck::Typing(body) if at(&body, &["action"]) == &Json::text("typing")
    ));
    assert!(matches!(
        acknowledge_without_reaction(&known, ChannelAckKind::ResetDone),
        TelegramAck::Text(bodies) if at(&bodies[0], &["text"]) == &Json::text("已重置。")
    ));
    assert!(matches!(
        acknowledge_without_reaction(&known, ChannelAckKind::StopDone),
        TelegramAck::Fail
    ));
    assert!(matches!(
        acknowledge(&inbound(None), ChannelAckKind::StopDone, true),
        TelegramAck::Done
    ));
}
