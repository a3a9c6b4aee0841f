use llm_loop::channel::capability::ChannelCapabilities;
use llm_loop::context_window::context_window_status;
use llm_loop::daemon::active::ActiveTurns;
use llm_loop::daemon::failure::{
    provider_error_desc, provider_error_message, provider_status_code,
};
use llm_loop::daemon::resources::{
    add_usage, is_resources_command, memory_lines, render_snapshot, resource_dirs,
    ChannelResource, PathResource, ResourceSnapshot, ResourceUsage,
};
use llm_loop::daemon::single_reply::{ReplyStep, SingleReply};
use llm_loop::daemon::status::{
    count_cron_file_tasks, is_status_memory_file, parse_proc_self_stat, process_memory,
    render_status_reply, ServiceStatusCounts,
};
use llm_loop::daemon::turn::{
    compaction_ends_text, compaction_starts_text, excluded_tool, find_channel, hashed_reply,
    plan_history, reply_to_message, route_message, scheduled_session, Route, Stage, TurnControl,
    TurnEvent,
};
use llm_loop::error::AppError;
use llm_loop::home::AppPaths;
use llm_loop::message::{
    InboundMessage, MessageSource, MessageUpdate, OutboundFormat, OutboundMessage,
    OutboundRecipient, SendResult,
};
use llm_loop::session::{ConversationItem, SessionState};

fn message(text: &str) -> InboundMessage {
    InboundMessage::text(
        text,
        MessageSource {
            channel_name: "main".to_string(),
            platform: "feishu".to_string(),
            chat_id: "chat".to_string(),
            chat_type: "group".to_string(),
            user_id: Some("u".to_string()),
            thread_id: Some("t".to_string()),
        },
        Some("m".to_string()),
    )
}

#[test]
fn commands_take_their_own_way() {
    assert_eq!(route_message(&message("/stop")), Route::Stop);
    assert_eq!(route_message(&message("@_user_1 /status")), Route::Status);
    assert_eq!(route_message(&message("/reset")), Route::Reset);
    assert_eq!(route_message(&message("/reset it")), Route::Turn);
}

fn done() -> TurnEvent {
    TurnEvent::Done { cancelled: false }
}

fn stages(scheduled: bool, cache: bool, events: &[TurnEvent]) -> Vec<Stage> {
    let mut control = TurnControl::start(scheduled, cache);
    let mut seen = vec![control.stage];
    for event in events {
        control = control.advance(*event);
        seen.push(control.stage);
    }
    seen
}

#[test]
fn an_ordinary_turn_is_stored_and_answered() {
    let ready = TurnEvent::HistoryReady {
        cancelled: false,
        limit_reached: false,
    };
    assert_eq!(
        stages(
            false,
            true,
            &[
                done(),
                done(),
                ready,
                done(),
                TurnEvent::Replied { reset: false },
                done(),
                done(),
                done(),
            ]
        ),
        vec![
            Stage::Acknowledging,
            Stage::LoadingSession,
            Stage::LoadingHistory,
            Stage::Starting,
            Stage::Completing,
            Stage::Recording,
            Stage::StoringTurn,
            Stage::Replying,
            Stage::Finished,
        ]
    );
}

#[test]
fn a_full_window_is_compacted_first() {
    let full = TurnEvent::HistoryReady {
        cancelled: false,
        limit_reached: true,
    };
    assert_eq!(
        stages(
            false,
            true,
            &[
                done(),
                done(),
                full,
                done(),
                TurnEvent::Compacted { compacted: true },
                done(),
                done(),
                done(),
                TurnEvent::ProviderFailed,
                done(),
                done(),
            ]
        )[3..],
        [
            Stage::Announcing,
            Stage::Compacting,
            Stage::StoringCompaction,
            Stage::Reporting,
            Stage::Starting,
            Stage::Completing,
            Stage::FailingPlan,
            Stage::ReplyingFailure,
            Stage::Finished,
        ]
    );
    // Without a cache, and for scheduled tasks, nothing is compacted.
    assert_eq!(stages(false, false, &[done(), done(), full])[3], Stage::Starting);
    assert_eq!(stages(true, true, &[done(), done(), full])[3], Stage::Starting);
}

#[test]
fn a_new_session_removes_the_history() {
    let ready = TurnEvent::HistoryReady {
        cancelled: false,
        limit_reached: false,
    };
    let events = [
        done(),
        done(),
        ready,
        done(),
        TurnEvent::Replied { reset: true },
        done(),
    ];
    assert_eq!(stages(false, true, &events)[6], Stage::RemovingHistory);
    assert_eq!(stages(true, true, &events)[5], Stage::Replying);
}

#[test]
fn stopped_turns_end() {
    let stopped = TurnEvent::Done { cancelled: true };
    assert_eq!(stages(false, true, &[stopped])[1], Stage::Finished);
    assert_eq!(stages(false, true, &[done(), stopped])[2], Stage::Finished);
    let late = TurnEvent::HistoryReady {
        cancelled: true,
        limit_reached: true,
    };
    assert_eq!(stages(false, true, &[done(), done(), late])[3], Stage::Finished);
    let control = TurnControl {
        scheduled: false,
        cache_session: true,
        reset: false,
        stage: Stage::Completing,
    };
    assert_eq!(control.advance(TurnEvent::Cancelled).stage, Stage::Finished);
    assert_eq!(control.advance(TurnEvent::Failed).stage, Stage::Finished);
    let scheduled = TurnControl {
        scheduled: true,
        ..control
    };
    assert!(control.interruptible());
    assert!(!scheduled.interruptible());
    assert_eq!(scheduled.advance(TurnEvent::Cancelled), scheduled);
    // Events that do not belong to the stage change nothing.
    assert_eq!(
        control.advance(TurnEvent::Compacted { compacted: true }),
        control
    );
}

#[test]
fn running_turns_are_known_by_session() {
    let mut turns = ActiveTurns::new();
    let first = turns.register("s").unwrap();
    assert_eq!(turns.cancel("s"), Some(first));
    assert!(turns.get("s").unwrap().cancelled);
    let second = turns.register("s").unwrap();
    assert_ne!(first, second);
    assert!(!turns.get("s").unwrap().cancelled);
    assert!(!turns.finish("s", first));
    assert_eq!(turns.len(), 1);
    assert!(turns.finish("s", second));
    assert_eq!(turns.cancel("s"), None);
}

fn outbound(text: &str, format: OutboundFormat) -> OutboundMessage {
    OutboundMessage {
        channel_name: "main".to_string(),
        chat_id: "chat".to_string(),
        recipient: OutboundRecipient::Chat,
        text: text.to_string(),
        reply_to: None,
        thread_id: None,
        format,
    }
}

#[test]
fn a_message_gets_one_reply() {
    let mut reply = SingleReply::new(Some("m".to_string()));
    let plan = outbound("p", OutboundFormat::Plan);
    assert!(matches!(
        reply.plan_send(plan),
        ReplyStep::Send(sent) if sent.reply_to.is_none()
    ));
    assert!(matches!(
        reply.plan_send(outbound("a", OutboundFormat::Text)),
        ReplyStep::Send(sent) if sent.reply_to.as_deref() == Some("m")
    ));
    reply.note_sent(
        "chat",
        &SendResult {
            success: true,
            message_id: Some("bot".to_string()),
        },
    );
    assert!(matches!(
        reply.plan_send(outbound("b", OutboundFormat::Text)),
        ReplyStep::Update(update) if update.message_id == "bot" && update.text == "b"
    ));
    let (update, target) = reply.plan_update(MessageUpdate {
        channel_name: "main".to_string(),
        chat_id: None,
        message_id: "other".to_string(),
        text: "c".to_string(),
        format: OutboundFormat::Text,
    });
    assert_eq!(update.message_id, "bot");
    let result = reply.note_updated(
        target.unwrap(),
        &SendResult {
            success: true,
            message_id: None,
        },
    );
    assert_eq!(result.message_id.as_deref(), Some("bot"));
}

#[test]
fn updates_before_a_reply_name_their_message() {
    let mut reply = SingleReply::new(None);
    let (update, target) = reply.plan_update(MessageUpdate {
        channel_name: "main".to_string(),
        chat_id: None,
        message_id: "x".to_string(),
        text: "c".to_string(),
        format: OutboundFormat::Text,
    });
    assert_eq!(update.message_id, "x");
    assert_eq!(update.chat_id.as_deref(), Some(""));
    reply.note_updated(
        target.unwrap(),
        &SendResult {
            success: true,
            message_id: None,
        },
    );
    assert_eq!(reply.target.unwrap().message_id, "x");
}

#[test]
fn replies_are_marked_and_addressed() {
    let reply = hashed_reply(&message("q"), "abcd1234", "answer");
    assert_eq!(reply.text, "[abcd1234] answer");
    assert_eq!(reply.chat_id, "chat");
    assert_eq!(reply.reply_to.as_deref(), Some("m"));
    assert_eq!(reply.thread_id.as_deref(), Some("t"));
    assert_eq!(reply_to_message(&message("q"), "x".to_string()).channel_name, "main");
    let names = vec!["a".to_string(), "main".to_string()];
    assert_eq!(find_channel(&names, "main", "tool context").unwrap(), 1);
    assert_eq!(
        find_channel(&names, "zz", "direct reply").unwrap_err().to_text(),
        "channel error: channel `zz` not found for direct reply"
    );
}

#[test]
fn compaction_is_announced_and_reported() {
    let mut session = SessionState::new("k".to_string());
    session.max_context_tokens = Some(20);
    let history = vec![
        ConversationItem::User {
            text: "x".repeat(100_000),
        },
        ConversationItem::Assistant {
            text: "y".repeat(100_000),
        },
        ConversationItem::User {
            text: "z".to_string(),
        },
    ];
    let status = context_window_status(&session, &history, "go");
    assert!(compaction_starts_text(&status).ends_with(" / 18 tokens)"));
    let plan = plan_history(&session, &history, &message("go"), Some("sum".to_string()));
    assert!(plan.compacted);
    assert_eq!(
        compaction_ends_text(true, 3, 2),
        "上下文压缩完成，保留 3 条历史，压缩 2 条。"
    );
    assert_eq!(
        compaction_ends_text(false, 3, 0),
        "上下文压缩结束，没有可压缩的历史。"
    );
}

#[test]
fn scheduled_tasks_have_their_own_session() {
    let session = scheduled_session("k", "sess_1", 100, "do it".to_string());
    assert_eq!(session.key, "k:cron:sess_1");
    assert_eq!(session.instructions, "do it");
    assert!(session.initial_context_loaded);
    assert_eq!(excluded_tool(true), Some("__cron"));
    assert_eq!(excluded_tool(false), None);
}

#[test]
fn failures_are_described_in_short() {
    let error = |text: &str| AppError::Provider(text.to_string());
    assert_eq!(
        provider_error_desc(&error("status 503: {\"message\":\" busy \"}")),
        "provider 503，busy"
    );
    assert_eq!(
        provider_error_desc(&error("status 502")),
        "provider 502，上游请求失败"
    );
    assert_eq!(provider_error_desc(&error("refused")), "provider 请求失败");
    assert_eq!(provider_status_code("a 55 5x 529").as_deref(), Some("529"));
    assert_eq!(provider_error_message("\"message\":\"\""), None);
    assert_eq!(
        provider_error_message("\"message\":\"open").as_deref(),
        Some("open")
    );
}

#[test]
fn the_status_is_reported() {
    assert_eq!(
        count_cron_file_tasks("# c\n\n* * * * * do it\n* * * * *\n  1 2 3 4 5 go  "),
        2
    );
    assert!(is_status_memory_file("/m/Note1.md"));
    assert!(!is_status_memory_file("/m/note-1.md"));
    let stat = "12 (a b) c) S 1 2 3 4 5 6 7 8 9 10 100 20 15 16 17 18 19 20 777 22";
    assert_eq!(parse_proc_self_stat(stat), Some((120, 777)));
    assert_eq!(parse_proc_self_stat("12 (x)"), None);
    assert_eq!(
        process_memory("Name: x\nVmSize:\t  10 kB\nVmRSS:\t 3 kB\n"),
        (Some(3072), Some(10240))
    );
    assert_eq!(process_memory("VmRSS: lots"), (None, None));
    let counts = ServiceStatusCounts {
        global_memories: 1,
        user_memories: 2,
        user_skills: 3,
        cron_tasks: 4,
    };
    assert_eq!(
        render_status_reply(5, 6, 7, &counts, "1.00 MiB", "2.00s"),
        "状态\n上下文: 5 / 6 tokens\n活跃会话: 7\n记忆: 全局 1, 个人 2\n技能: 个人 3\n定时任务: 4\n服务: rss 1.00 MiB, cpu 2.00s"
    );
}

fn usage(name: &str, capacity: Option<usize>, bytes: usize) -> ResourceUsage {
    ResourceUsage {
        name: name.to_string(),
        kind: "cache".to_string(),
        items: 1,
        capacity,
        estimated_bytes: bytes,
    }
}

#[test]
fn resources_are_listed() {
    assert!(is_resources_command(" resources\n"));
    assert!(!is_resources_command("other"));
    assert_eq!(add_usage((1, 2), 3, 4), (4, 6));
    assert_eq!(add_usage((u64::MAX, 0), 1, 1), (u64::MAX, 1));
    let paths = AppPaths::from_home("/h");
    assert_eq!(resource_dirs(&paths)[2], ("mems".to_string(), paths.mems_dir.clone()));
    let lines = memory_lines(&vec![usage("small", None, 1), usage("big", Some(9), 10)]);
    assert!(lines[0].starts_with("  big "));
    assert!(lines[0].contains("capacity=9 "));
    assert!(lines[1].ends_with(" capacity=-      estimated_bytes=1"));
    let snapshot = ResourceSnapshot {
        pid: 9,
        rss_bytes: None,
        virtual_bytes: Some(5),
        session_count: 1,
        session_lock_count: 2,
        active_turn_count: 3,
        cron_available_permits: 4,
        channels: vec![ChannelResource {
            name: "main".to_string(),
            platform: "qq".to_string(),
            capabilities: ChannelCapabilities::none(),
        }],
        memory: vec![usage("m", None, 1)],
        paths: vec![PathResource {
            name: "mems".to_string(),
            path: "/m".to_string(),
            files: 2,
            bytes: 3,
        }],
    };
    let shown = render_snapshot(&snapshot);
    assert_eq!(shown[1], "  pid: 9");
    assert_eq!(shown[2], "  rss: unavailable");
    assert_eq!(shown[12], "  main (qq)");
    assert!(shown[13].starts_with("    patch=false append_update=false input=false"));
    assert_eq!(shown[shown.len() - 1], "  mems           files=2      bytes=3          /m");
}
