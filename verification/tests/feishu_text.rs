use llm_loop::channel::feishu::api::{feishu_user_receive_id_type, FeishuReceiveIdType};
use llm_loop::channel::feishu::card::build_user_input_status_card;
use llm_loop::channel::feishu::event::{
    message_text, FeishuMention, FeishuMessage, FeishuReceiveMessageEvent, FeishuSender, FeishuSenderId,
};
use llm_loop::channel::feishu::markdown::{
    compact_markdown_card_content, count_markdown_tables, feishu_render_outbound_text,
    split_markdown_table_batches, MAX_MARKDOWN_TABLES_PER_CARD,
};
use llm_loop::json::Json;
use llm_loop::message::{
    Answers, OutboundFormat, UserInputOption, UserInputQuestion, UserInputRequest,
};

fn table(index: usize) -> String {
    format!("| 名称 | 值 |\n| --- | --- |\n| t{index} | {index} |")
}

/// The value at a place inside a JSON value: field names and list positions.
fn at<'a>(value: &'a Json, place: &[&str]) -> &'a Json {
    let mut found = value;
    for step in place {
        found = match found {
            Json::List(items) => &items[step.parse::<usize>().unwrap()],
            _ => found.get(step).unwrap(),
        };
    }
    found
}

fn items(value: &Json) -> &Vec<Json> {
    value.as_array().unwrap()
}

#[test]
fn split_markdown_tables_when_over_card_limit() {
    let text = (1..=6).map(table).collect::<Vec<_>>().join("\n\n");

    let batches = split_markdown_table_batches(&text, MAX_MARKDOWN_TABLES_PER_CARD);

    assert_eq!(batches.len(), 2);
    assert_eq!(count_markdown_tables(&batches[0]), 5);
    assert_eq!(count_markdown_tables(&batches[1]), 1);
}

#[test]
fn split_markdown_tables_ignores_code_fence() {
    let text = "前置\n```markdown\n| a | b |\n| --- | --- |\n| 1 | 2 |\n```\n后置";

    let batches = split_markdown_table_batches(text, MAX_MARKDOWN_TABLES_PER_CARD);

    assert_eq!(batches, vec![text.to_string()]);
    assert_eq!(count_markdown_tables(text), 0);
}

#[test]
fn split_markdown_tables_keeps_prose_with_batches() {
    let text = format!("开头\n{}\n中段\n{}\n结尾", table(1), table(2));

    let batches = split_markdown_table_batches(&text, 1);

    assert_eq!(batches.len(), 2);
    assert!(batches[0].starts_with("开头"));
    assert!(batches[0].contains("中段"));
    assert!(batches[1].ends_with("结尾"));
}

#[test]
fn batches_are_full_but_the_last() {
    let text = (1..=7).map(table).collect::<Vec<_>>().join("\n\n");
    assert_eq!(count_markdown_tables(&text), 7);
    let batches = split_markdown_table_batches(&text, 3);
    let counts: Vec<usize> = batches
        .iter()
        .map(|batch| count_markdown_tables(batch))
        .collect();
    assert_eq!(counts, vec![3, 3, 1]);
    assert_eq!(split_markdown_table_batches(&text, 0).len(), 7);
    assert_eq!(split_markdown_table_batches("no table", 3), vec!["no table".to_string()]);
}

#[test]
fn compacting_twice_is_compacting_once() {
    let text = " a\n\n  b \n```\n\ncode\n```\n \nc \n";
    let once = compact_markdown_card_content(text);
    assert_eq!(once, "a\n  b \n```\n\ncode\n```\nc");
    assert_eq!(compact_markdown_card_content(&once), once);
    assert_eq!(compact_markdown_card_content("\n "), " ");
}

#[test]
fn compact_markdown_card_content_removes_blank_lines() {
    let text = "[hash] 第一行\n\n第二行\n\n\n第三行";

    let compacted = compact_markdown_card_content(text);

    assert_eq!(compacted, "[hash] 第一行\n第二行\n第三行");
    assert_eq!(compact_markdown_card_content(&compacted), compacted);
}

#[test]
fn compact_markdown_card_content_keeps_code_block_blank_lines() {
    let text = "说明\n\n```text\n第一行\n\n第三行\n```\n\n结尾";

    let compacted = compact_markdown_card_content(text);

    assert_eq!(compacted, "说明\n```text\n第一行\n\n第三行\n```\n结尾");
}

#[test]
fn feishu_render_outbound_text_escapes_plan_markers() {
    let text = "[hash]\n1. 根计划\n  1.1. 子任务\n正文 2. 不处理";

    let rendered = feishu_render_outbound_text(text, OutboundFormat::Plan);

    assert_eq!(
        rendered,
        "[hash]\n1\\. 根计划\n  1.1\\. 子任务\n正文 2. 不处理"
    );
    assert_eq!(
        feishu_render_outbound_text(text, OutboundFormat::Text),
        text
    );
    assert_eq!(
        feishu_render_outbound_text(&rendered, OutboundFormat::Plan),
        rendered
    );
}

#[test]
fn user_receive_id_type_uses_union_id_for_on_prefix() {
    assert_eq!(
        feishu_user_receive_id_type("on_0a5ab1e60ad574c2cad570b08a43a872"),
        FeishuReceiveIdType::UnionId
    );
}

#[test]
fn user_receive_id_type_uses_open_id_for_ou_prefix() {
    assert_eq!(
        feishu_user_receive_id_type("ou_0a5ab1e60ad574c2cad570b08a43a872"),
        FeishuReceiveIdType::OpenId
    );
}

fn option(label: &str) -> UserInputOption {
    UserInputOption {
        label: label.to_string(),
        description: String::new(),
    }
}

#[test]
fn user_input_status_card_hides_answered_question_buttons() {
    let request = UserInputRequest {
        questions: vec![UserInputQuestion {
            id: "weather_api".to_string(),
            header: "天气".to_string(),
            question: "选择天气 API".to_string(),
            options: vec![option("FakeWeather"), option("FakeWeather CN")],
        }],
        auto_resolution_ms: None,
    };
    let mut answers = Answers::new();
    answers.insert(
        "weather_api".to_string(),
        vec!["FakeWeather CN".to_string()],
    );

    let card = build_user_input_status_card("request-1", &request, &answers, true);
    let elements = items(at(&card, &["body", "elements"]));
    let markdown = at(&elements[1], &["content"]).as_str().unwrap();

    assert_eq!(at(&card, &["schema"]), &Json::text("2.0"));
    assert_eq!(
        at(&card, &["body", "padding"]),
        &Json::text("2px 12px 2px 12px")
    );
    assert_eq!(at(&card, &["body", "vertical_spacing"]), &Json::text("2px"));
    assert!(markdown.contains("1. 天气 ✅"));
    assert!(markdown.contains("已选：`FakeWeather CN`"));
    assert!(markdown.contains("其他选项：FakeWeather"));
    assert_eq!(elements.len(), 2);
}

#[test]
fn user_input_status_card_uses_tiny_buttons_for_unanswered_question() {
    let request = UserInputRequest {
        questions: vec![UserInputQuestion {
            id: "format".to_string(),
            header: "格式".to_string(),
            question: "推送格式偏好？".to_string(),
            options: vec![option("纯文字简报"), option("Markdown表格")],
        }],
        auto_resolution_ms: None,
    };

    let card = build_user_input_status_card("request-1", &request, &Answers::new(), false);
    let columns = items(at(&card, &["body", "elements", "2", "columns"]));
    let first_button = at(&columns[0], &["elements", "0"]);
    let second_button = at(&columns[1], &["elements", "0"]);

    assert_eq!(at(&card, &["schema"]), &Json::text("2.0"));
    assert_eq!(at(first_button, &["size"]), &Json::text("tiny"));
    assert_eq!(at(second_button, &["size"]), &Json::text("tiny"));
    assert_eq!(
        at(first_button, &["behaviors", "0", "value", "llm_loop"]),
        &Json::text("request_user_input")
    );
}

fn receive_event(mention: FeishuMention) -> FeishuReceiveMessageEvent {
    FeishuReceiveMessageEvent {
        sender: FeishuSender {
            sender_id: FeishuSenderId {
                open_id: Some("ou_sender".to_string()),
                user_id: Some("user_sender".to_string()),
                union_id: Some("on_sender".to_string()),
            },
        },
        message: FeishuMessage {
            message_id: "om_test".to_string(),
            root_id: None,
            parent_id: None,
            thread_id: None,
            chat_id: "oc_test".to_string(),
            chat_type: "group".to_string(),
            message_type: "text".to_string(),
            content: "{\"text\":\"@_user_1 hi\"}".to_string(),
            mentions: vec![mention],
        },
    }
}

#[test]
fn mentions_bot_matches_open_id() {
    let event = receive_event(FeishuMention {
        key: Some("@_user_1".to_string()),
        id: Some(Json::text("ou_bot")),
        id_type: Some("open_id".to_string()),
        name: Some("捣蛋鬼曼波".to_string()),
    });

    assert!(event.mentions_bot("ou_bot", None));
}

#[test]
fn mentions_bot_matches_open_id_object() {
    let event = receive_event(FeishuMention {
        key: Some("@_user_1".to_string()),
        id: Json::parse("{\"open_id\":\"ou_bot\",\"user_id\":\"bot_user\"}"),
        id_type: None,
        name: Some("捣蛋鬼曼波".to_string()),
    });

    assert!(event.mentions_bot("ou_bot", None));
}

#[test]
fn mentions_bot_rejects_other_user() {
    let event = receive_event(FeishuMention {
        key: Some("@_user_1".to_string()),
        id: Some(Json::text("on_other")),
        id_type: Some("union_id".to_string()),
        name: Some("陈威".to_string()),
    });

    assert!(!event.mentions_bot("ou_bot", None));
    assert_eq!(
        event.mentions_summary(),
        "key=@_user_1 id_type=union_id id=\"on_other\" name=陈威"
    );
}

#[test]
fn text_of_a_message_is_read_from_its_content() {
    let event = receive_event(FeishuMention {
        key: None,
        id: None,
        id_type: None,
        name: None,
    });
    assert_eq!(event.message.text().as_deref(), Some("hi"));
    let text = |content: &str| message_text("text", content);
    assert_eq!(
        text("{\"text\":\" a @_user_1\\n\\tb@_c @_all \"}").as_deref(),
        Some("a b@_c")
    );
    assert_eq!(text("{\"text\":\"@_user_1\"}"), None);
}
