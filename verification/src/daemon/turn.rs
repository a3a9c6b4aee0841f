//! The course of a message through the daemon.

use crate::context_window::{
    prepare_context_window, prepare_context_window_with_summary, ContextWindowPlan,
    ContextWindowStatus,
};
use crate::error::{AppError, AppResult, ErrorView};
use crate::message::{
    clone_opt, is_command, law_command_follows_mentions, law_control_commands_exclude_each_other,
    outbound_target_from_source, InboundMessage, OutboundFormat, OutboundMessage,
    OutboundRecipient,
};
use crate::numbers::{dec, decimal, decimal_usize};
use crate::session::{items, ConversationItem, SessionState};
use crate::text::{is_blank, opt_text, same_text, texts, words};
use vstd::prelude::*;

verus! {

/// How a message is handled.
#[derive(Debug, Clone, Copy, PartialEq, Eq, Structural)]
pub enum Route {
    /// The running turn is stopped, without waiting for it.
    Stop,
    /// The daemon reports its state, without waiting for a running turn.
    Status,
    /// The session is reset.
    Reset,
    /// The provider is asked.
    Turn,
}

/// How a text is handled.
pub open spec fn route_of(text: Seq<char>) -> Route {
    if is_command(text, "/stop"@) {
        Route::Stop
    } else if is_command(text, "/status"@) {
        Route::Status
    } else if is_command(text, "/reset"@) {
        Route::Reset
    } else {
        Route::Turn
    }
}

/// Finds out how a message is handled.
pub fn route_message(message: &InboundMessage) -> (r: Route)
    ensures
        r == route_of(message.text@),
{
    if message.is_stop_command() {
        Route::Stop
    } else if message.is_status_command() {
        Route::Status
    } else if message.is_reset_command() {
        Route::Reset
    } else {
        Route::Turn
    }
}

/// What a turn is busy with.
#[derive(Debug, Clone, Copy, PartialEq, Eq, Structural)]
pub enum Stage {
    /// The channel confirms that the message was received.
    Acknowledging,
    /// The session and its instructions are found.
    LoadingSession,
    /// The history is loaded.
    LoadingHistory,
    /// The user is told that the history will be compacted.
    Announcing,
    /// The provider summarises the history.
    Compacting,
    /// The compacted history is stored.
    StoringCompaction,
    /// The user is told how the compaction ended.
    Reporting,
    /// All is ready to ask the provider.
    Starting,
    /// The provider answers.
    Completing,
    /// The plan of the session is marked as failed.
    FailingPlan,
    /// The user is told that the provider failed.
    ReplyingFailure,
    /// The session notes what the answer used.
    Recording,
    /// The question and the answer are stored.
    StoringTurn,
    /// The stored history is removed.
    RemovingHistory,
    /// The answer is sent.
    Replying,
    /// Nothing is left to do.
    Finished,
}

/// What came of the work of a stage.
#[derive(Debug, Clone, Copy, PartialEq, Eq, Structural)]
pub enum TurnEvent {
    /// It is done; `cancelled` tells whether the turn was stopped meanwhile.
    Done {
        /// Whether the turn was stopped.
        cancelled: bool,
    },
    /// The history is there; `limit_reached` tells whether the context window
    /// is nearly full.
    HistoryReady {
        /// Whether the turn was stopped.
        cancelled: bool,
        /// Whether the context window is nearly full.
        limit_reached: bool,
    },
    /// The history has been gone through; `compacted` tells whether anything
    /// was dropped.
    Compacted {
        /// Whether anything was dropped.
        compacted: bool,
    },
    /// The provider answered; `reset` tells whether it asks for a new session.
    Replied {
        /// Whether the provider asks for a new session.
        reset: bool,
    },
    /// The turn was stopped while the provider worked.
    Cancelled,
    /// The provider failed.
    ProviderFailed,
    /// The work failed in a way that ends the turn.
    Failed,
}

/// How far a turn has come.
#[derive(Debug, Clone, Copy, PartialEq, Eq, Structural)]
pub struct TurnControl {
    /// Whether the scheduler made the message.
    pub scheduled: bool,
    /// Whether histories are kept.
    pub cache_session: bool,
    /// Whether the provider asked for a new session.
    pub reset: bool,
    /// What the turn is busy with.
    pub stage: Stage,
}

impl TurnControl {
    /// A turn at its start.
    pub open spec fn initial(scheduled: bool, cache_session: bool) -> TurnControl {
        TurnControl { scheduled, cache_session, reset: false, stage: Stage::Acknowledging }
    }

    /// The turn at another stage.
    pub open spec fn to(self, stage: Stage) -> TurnControl {
        TurnControl { stage, ..self }
    }

    /// Whether the history is kept and may have to be compacted.
    pub open spec fn keeps_history(self) -> bool {
        !self.scheduled && self.cache_session
    }

    /// The stage after work that is done, where it was not stopped.
    pub open spec fn after_done(self) -> Stage {
        match self.stage {
            Stage::Acknowledging => Stage::LoadingSession,
            Stage::LoadingSession => Stage::LoadingHistory,
            Stage::Announcing => Stage::Compacting,
            Stage::StoringCompaction => Stage::Reporting,
            Stage::Reporting => Stage::Starting,
            Stage::Starting => Stage::Completing,
            Stage::FailingPlan => Stage::ReplyingFailure,
            Stage::Recording => if self.cache_session && !self.reset {
                Stage::StoringTurn
            } else {
                Stage::RemovingHistory
            },
            Stage::StoringTurn => Stage::Replying,
            Stage::RemovingHistory => Stage::Replying,
            Stage::ReplyingFailure => Stage::Finished,
            Stage::Replying => Stage::Finished,
            _ => self.stage,
        }
    }

    /// Whether a stop that comes while this stage works ends the turn.
    pub open spec fn heeds_stop(self) -> bool {
        self.stage == Stage::Acknowledging || self.stage == Stage::LoadingSession || self.stage
            == Stage::Starting
    }

    /// Whether a stop interrupts the work of this stage: that of the provider,
    /// unless the scheduler made the message.
    pub open spec fn is_interruptible(self) -> bool {
        !self.scheduled && (self.stage == Stage::Compacting || self.stage == Stage::Completing)
    }

    /// The turn after an event. Events that do not belong to the stage change
    /// nothing.
    pub open spec fn next(self, event: TurnEvent) -> TurnControl {
        match event {
            TurnEvent::Done { cancelled } => if cancelled && self.heeds_stop() {
                self.to(Stage::Finished)
            } else {
                self.to(self.after_done())
            },
            TurnEvent::HistoryReady { cancelled, limit_reached } => if self.stage
                != Stage::LoadingHistory {
                self
            } else if cancelled {
                self.to(Stage::Finished)
            } else if self.keeps_history() && limit_reached {
                self.to(Stage::Announcing)
            } else {
                self.to(Stage::Starting)
            },
            TurnEvent::Compacted { compacted } => if self.stage != Stage::Compacting {
                self
            } else if compacted {
                self.to(Stage::StoringCompaction)
            } else {
                self.to(Stage::Reporting)
            },
            TurnEvent::Replied { reset } => if self.stage != Stage::Completing {
                self
            } else if self.scheduled {
                self.to(Stage::Replying)
            } else {
                TurnControl { reset, stage: Stage::Recording, ..self }
            },
            TurnEvent::Cancelled => if self.is_interruptible() {
                self.to(Stage::Finished)
            } else {
                self
            },
            TurnEvent::ProviderFailed => if self.stage == Stage::Completing {
                self.to(Stage::FailingPlan)
            } else {
                self
            },
            TurnEvent::Failed => self.to(Stage::Finished),
        }
    }

    /// Starts a turn.
    pub fn start(scheduled: bool, cache_session: bool) -> (r: Self)
        ensures
            r == TurnControl::initial(scheduled, cache_session),
    {
        TurnControl { scheduled, cache_session, reset: false, stage: Stage::Acknowledging }
    }

    /// Whether a stop interrupts the work of this stage.
    pub fn interruptible(&self) -> (r: bool)
        ensures
            r == self.is_interruptible(),
    {
        !self.scheduled && (self.stage == Stage::Compacting || self.stage == Stage::Completing)
    }

    fn moved(self, stage: Stage) -> (r: Self)
        ensures
            r == self.to(stage),
    {
        TurnControl {
            scheduled: self.scheduled,
            cache_session: self.cache_session,
            reset: self.reset,
            stage,
        }
    }

    /// Takes a turn to its next stage.
    pub fn advance(self, event: TurnEvent) -> (r: Self)
        ensures
            r == self.next(event),
    {
        match event {
            TurnEvent::Done { cancelled } => {
                if cancelled && (self.stage == Stage::Acknowledging || self.stage
                    == Stage::LoadingSession || self.stage == Stage::Starting) {
                    return self.moved(Stage::Finished);
                }
                match self.stage {
                    Stage::Acknowledging => self.moved(Stage::LoadingSession),
                    Stage::LoadingSession => self.moved(Stage::LoadingHistory),
                    Stage::Announcing => self.moved(Stage::Compacting),
                    Stage::StoringCompaction => self.moved(Stage::Reporting),
                    Stage::Reporting => self.moved(Stage::Starting),
                    Stage::Starting => self.moved(Stage::Completing),
                    Stage::FailingPlan => self.moved(Stage::ReplyingFailure),
                    Stage::Recording => if self.cache_session && !self.reset {
                        self.moved(Stage::StoringTurn)
                    } else {
                        self.moved(Stage::RemovingHistory)
                    },
                    Stage::StoringTurn => self.moved(Stage::Replying),
                    Stage::RemovingHistory => self.moved(Stage::Replying),
                    Stage::ReplyingFailure => self.moved(Stage::Finished),
                    Stage::Replying => self.moved(Stage::Finished),
                    _ => self,
                }
            },
            TurnEvent::HistoryReady { cancelled, limit_reached } => {
                if self.stage != Stage::LoadingHistory {
                    self
                } else if cancelled {
                    self.moved(Stage::Finished)
                } else if !self.scheduled && self.cache_session && limit_reached {
                    self.moved(Stage::Announcing)
                } else {
                    self.moved(Stage::Starting)
                }
            },
            TurnEvent::Compacted { compacted } => {
                if self.stage != Stage::Compacting {
                    self
                } else if compacted {
                    self.moved(Stage::StoringCompaction)
                } else {
                    self.moved(Stage::Reporting)
                }
            },
            TurnEvent::Replied { reset } => {
                if self.stage != Stage::Completing {
                    self
                } else if self.scheduled {
                    self.moved(Stage::Replying)
                } else {
                    TurnControl {
                        scheduled: self.scheduled,
                        cache_session: self.cache_session,
                        reset,
                        stage: Stage::Recording,
                    }
                }
            },
            TurnEvent::Cancelled => {
                if self.interruptible() {
                    self.moved(Stage::Finished)
                } else {
                    self
                }
            },
            TurnEvent::ProviderFailed => {
                if self.stage == Stage::Completing {
                    self.moved(Stage::FailingPlan)
                } else {
                    self
                }
            },
            TurnEvent::Failed => self.moved(Stage::Finished),
        }
    }
}

/// A turn after the given events.
pub open spec fn run(control: TurnControl, events: Seq<TurnEvent>) -> TurnControl
    decreases events.len(),
{
    if events.len() == 0 {
        control
    } else {
        run(control, events.drop_last()).next(events.last())
    }
}

/// How many stages may still follow.
pub open spec fn stages_left(stage: Stage) -> nat {
    match stage {
        Stage::Acknowledging => 12,
        Stage::LoadingSession => 11,
        Stage::LoadingHistory => 10,
        Stage::Announcing => 9,
        Stage::Compacting => 8,
        Stage::StoringCompaction => 7,
        Stage::Reporting => 6,
        Stage::Starting => 5,
        Stage::Completing => 4,
        Stage::FailingPlan => 3,
        Stage::ReplyingFailure => 2,
        Stage::Recording => 3,
        Stage::StoringTurn => 2,
        Stage::RemovingHistory => 2,
        Stage::Replying => 1,
        Stage::Finished => 0,
    }
}

/// A turn never goes back to a stage: each event leaves it where it is or
/// brings it nearer to its end. So every turn ends, and the provider is asked
/// for an answer once at most.
pub proof fn law_turns_only_go_forward(control: TurnControl, event: TurnEvent)
    ensures
        control.next(event) == control || stages_left(control.next(event).stage) < stages_left(
            control.stage,
        ),
{
}

/// Whether a stage touches the session or its history.
pub open spec fn touches_session(stage: Stage) -> bool {
    stage == Stage::Announcing || stage == Stage::Compacting || stage == Stage::StoringCompaction
        || stage == Stage::Reporting || stage == Stage::Recording || stage == Stage::StoringTurn
        || stage == Stage::RemovingHistory
}

/// A turn that the scheduler started leaves sessions and histories alone.
pub proof fn law_scheduled_turns_leave_sessions_alone(
    cache_session: bool,
    events: Seq<TurnEvent>,
)
    ensures
        run(TurnControl::initial(true, cache_session), events).scheduled,
        !touches_session(run(TurnControl::initial(true, cache_session), events).stage),
    decreases events.len(),
{
    if events.len() > 0 {
        law_scheduled_turns_leave_sessions_alone(cache_session, events.drop_last());
    }
}

/// Where histories are not kept, none is compacted and nothing is stored.
pub proof fn law_nothing_is_stored_without_a_cache(scheduled: bool, events: Seq<TurnEvent>)
    ensures
        ({
            let control = run(TurnControl::initial(scheduled, false), events);
            &&& !control.cache_session
            &&& control.stage != Stage::Announcing
            &&& control.stage != Stage::Compacting
            &&& control.stage != Stage::StoringCompaction
            &&& control.stage != Stage::StoringTurn
        }),
    decreases events.len(),
{
    if events.len() > 0 {
        law_nothing_is_stored_without_a_cache(scheduled, events.drop_last());
    }
}

/// An answer is stored only where histories are kept and the provider did not
/// ask for a new session.
pub proof fn law_only_lasting_turns_are_stored(
    scheduled: bool,
    cache_session: bool,
    events: Seq<TurnEvent>,
)
    ensures
        ({
            let control = run(TurnControl::initial(scheduled, cache_session), events);
            &&& control.scheduled == scheduled
            &&& control.cache_session == cache_session
            &&& control.stage == Stage::Recording ==> !scheduled
            &&& control.stage == Stage::StoringTurn ==> cache_session && !scheduled
                && !control.reset
        }),
    decreases events.len(),
{
    if events.len() > 0 {
        law_only_lasting_turns_are_stored(scheduled, cache_session, events.drop_last());
    }
}

/// A turn that was stopped before the provider was asked ends without asking
/// it, and a finished turn stays finished.
pub proof fn law_stopped_turns_end(control: TurnControl, event: TurnEvent)
    ensures
        control.stage == Stage::Finished ==> control.next(event).stage == Stage::Finished,
        control.heeds_stop() ==> control.next(TurnEvent::Done { cancelled: true }).stage
            == Stage::Finished,
        control.stage == Stage::LoadingHistory ==> forall|limit_reached: bool|
            #[trigger] control.next(
                TurnEvent::HistoryReady { cancelled: true, limit_reached },
            ).stage == Stage::Finished,
        control.is_interruptible() ==> control.next(TurnEvent::Cancelled).stage
            == Stage::Finished,
{
}

/// A request that the provider fails is answered: the plan is marked, and then
/// the user is told, whether or not the turn is stopped meanwhile.
pub proof fn law_failures_are_told(control: TurnControl, first: bool, second: bool)
    requires
        control.stage == Stage::Completing,
    ensures
        ({
            let failed = control.next(TurnEvent::ProviderFailed);
            let marked = failed.next(TurnEvent::Done { cancelled: first });
            &&& failed.stage == Stage::FailingPlan
            &&& marked.stage == Stage::ReplyingFailure
            &&& marked.next(TurnEvent::Done { cancelled: second }).stage == Stage::Finished
        }),
{
}

/// An answer of the provider is sent, once the session has noted it and the
/// history has been brought up to date; a stop that comes meanwhile changes
/// nothing.
pub proof fn law_answers_are_sent(control: TurnControl, reset: bool, first: bool, second: bool)
    requires
        control.stage == Stage::Completing,
    ensures
        ({
            let answered = control.next(TurnEvent::Replied { reset });
            let noted = answered.next(TurnEvent::Done { cancelled: first });
            &&& control.scheduled ==> answered.stage == Stage::Replying
            &&& !control.scheduled ==> answered.stage == Stage::Recording && noted.next(
                TurnEvent::Done { cancelled: second },
            ).stage == Stage::Replying
        }),
{
}

/// Whether `outbound` answers `message` with the given text.
pub open spec fn answers(
    outbound: OutboundMessage,
    message: InboundMessage,
    text: Seq<char>,
) -> bool {
    let source = message.source;
    &&& outbound.channel_name@ == source.channel_name@
    &&& outbound.text@ == text
    &&& outbound.reply_to == message.message_id
    &&& outbound.thread_id == source.thread_id
    &&& outbound.format == OutboundFormat::Text
    &&& if source.addresses_user() {
        outbound.recipient == OutboundRecipient::User && outbound.chat_id@ == source.user_id->0@
    } else {
        outbound.recipient == OutboundRecipient::Chat && outbound.chat_id@ == source.chat_id@
    }
}

/// The message that answers `message` with the given text.
pub fn reply_to_message(message: &InboundMessage, text: String) -> (r: OutboundMessage)
    ensures
        answers(r, *message, text@),
{
    let (recipient, chat_id) = outbound_target_from_source(&message.source);
    OutboundMessage {
        channel_name: message.source.channel_name.clone(),
        chat_id,
        recipient,
        text,
        reply_to: clone_opt(&message.message_id),
        thread_id: clone_opt(&message.source.thread_id),
        format: OutboundFormat::Text,
    }
}

/// The answer to a message, marked with the hash of the reply.
pub fn hashed_reply(message: &InboundMessage, reply_hash: &str, text: &str) -> (r: OutboundMessage)
    ensures
        answers(r, *message, "["@ + reply_hash@ + "] "@ + text@),
{
    let mut out = String::from_str("[");
    out.append(reply_hash);
    out.append("] ");
    out.append(text);
    reply_to_message(message, out)
}

/// Goes through the history before the provider is asked: with the summary that
/// the provider wrote, else with one of the library's own.
pub fn plan_history(
    session: &SessionState,
    history: &[ConversationItem],
    message: &InboundMessage,
    summary: Option<String>,
) -> (r: ContextWindowPlan)
    ensures
        r.is_for(*session, items(history@), message.text@, opt_text(summary)),
{
    match summary {
        Some(text) => prepare_context_window_with_summary(
            session,
            history,
            message.text.as_str(),
            text,
        ),
        None => prepare_context_window(session, history, message.text.as_str()),
    }
}

/// What the user is told before the history is compacted.
pub fn compaction_starts_text(status: &ContextWindowStatus) -> (r: String)
    ensures
        r@ == "上下文接近窗口上限，开始压缩... (~"@ + dec(status.estimated_tokens as nat) + " / "@ + dec(
            match status.auto_compact_limit {
                Some(limit) => limit as nat,
                None => 0,
            },
        ) + " tokens)"@,
{
    let mut out = String::from_str("上下文接近窗口上限，开始压缩... (~");
    out.append(decimal(status.estimated_tokens as u128).as_str());
    out.append(" / ");
    let limit: u64 = match status.auto_compact_limit {
        Some(n) => n,
        None => 0,
    };
    out.append(decimal(limit as u128).as_str());
    out.append(" tokens)");
    out
}

/// What the user is told after the history was gone through: how many items
/// were kept and dropped, or that nothing could be dropped.
pub fn compaction_ends_text(compacted: bool, kept: usize, dropped: usize) -> (r: String)
    ensures
        r@ == if compacted {
            "上下文压缩完成，保留 "@ + dec(kept as nat) + " 条历史，压缩 "@ + dec(dropped as nat) + " 条。"@
        } else {
            "上下文压缩结束，没有可压缩的历史。"@
        },
{
    if !compacted {
        return String::from_str("上下文压缩结束，没有可压缩的历史。");
    }
    let mut out = String::from_str("上下文压缩完成，保留 ");
    out.append(decimal_usize(kept).as_str());
    out.append(" 条历史，压缩 ");
    out.append(decimal_usize(dropped).as_str());
    out.append(" 条。");
    out
}

/// The session of a turn that the scheduler started: a new one for each turn.
pub fn scheduled_session(
    session_key: &str,
    session_id: &str,
    context_window: u64,
    instructions: String,
) -> (r: SessionState)
    ensures
        r.key@ == session_key@ + ":cron:"@ + session_id@,
        r.id@ == Seq::<char>::empty(),
        r.instructions == instructions,
        r.max_context_tokens == Some(context_window),
        r.used_tokens == 0,
        r.initial_context_loaded,
{
    let mut key = String::from_str(session_key);
    key.append(":cron:");
    key.append(session_id);
    let mut session = SessionState::new(key);
    session.max_context_tokens = Some(context_window);
    session.instructions = instructions;
    session.initial_context_loaded = true;
    session
}

/// The tool that the provider does not get: a scheduled task must not change
/// the schedule.
pub fn excluded_tool(scheduled: bool) -> (r: Option<&'static str>)
    ensures
        match r {
            Some(name) => scheduled && name@ == "__cron"@,
            None => !scheduled,
        },
{
    if scheduled {
        Some("__cron")
    } else {
        None
    }
}

/// The position of the first channel with the given name.
pub open spec fn channel_at(names: Seq<Seq<char>>, name: Seq<char>) -> Option<int>
    decreases names.len(),
{
    if names.len() == 0 {
        None
    } else {
        match channel_at(names.drop_last(), name) {
            Some(i) => Some(i),
            None => if names.last() == name {
                Some(names.len() - 1)
            } else {
                None
            },
        }
    }
}

/// Finds the first channel with the given name; `purpose` says what it is
/// wanted for.
pub fn find_channel(names: &Vec<String>, name: &str, purpose: &str) -> (r: AppResult<usize>)
    ensures
        match r {
            Ok(i) => channel_at(texts(names@), name@) == Some(i as int) && i < names@.len(),
            Err(e) => channel_at(texts(names@), name@) is None && e@ == ErrorView::Channel(
                "channel `"@ + name@ + "` not found for "@ + purpose@,
            ),
        },
{
    let ghost all = texts(names@);
    let mut i: usize = 0;
    assert(all.take(0) =~= Seq::<Seq<char>>::empty());
    while i < names.len()
        invariant
            i <= names@.len(),
            all == texts(names@),
            channel_at(all.take(i as int), name@) is None,
        decreases names@.len() - i,
    {
        assert(all.take(i + 1).drop_last() =~= all.take(i as int));
        assert(all.take(i + 1).last() == names@[i as int]@);
        if same_text(names[i].as_str(), name) {
            proof {
                lemma_channel_found(all, i + 1, name@);
            }
            return Ok(i);
        }
        i += 1;
    }
    assert(all.take(all.len() as int) =~= all);
    let mut text = String::from_str("channel `");
    text.append(name);
    text.append("` not found for ");
    text.append(purpose);
    Err(AppError::Channel(text))
}

proof fn lemma_channel_found(names: Seq<Seq<char>>, n: int, name: Seq<char>)
    requires
        0 <= n <= names.len(),
        channel_at(names.take(n), name) is Some,
    ensures
        channel_at(names, name) == channel_at(names.take(n), name),
    decreases names.len() - n,
{
    if n < names.len() {
        assert(names.take(n + 1).drop_last() =~= names.take(n));
        lemma_channel_found(names, n + 1, name);
    } else {
        assert(names.take(n) =~= names);
    }
}

/// The commands that stop, report and reset are handled as such, after any
/// mentions, and every other text goes to the provider.
pub proof fn law_commands_are_handled(text: Seq<char>)
    ensures
        is_command(text, "/stop"@) <==> route_of(text) == Route::Stop,
        is_command(text, "/status"@) <==> route_of(text) == Route::Status,
        is_command(text, "/reset"@) <==> route_of(text) == Route::Reset,
        words(text).len() == 0 || words(text).last()[0] != '/' ==> route_of(text) == Route::Turn,
        words(text) == seq![seq!['/', 's', 't', 'o', 'p']] ==> route_of(text) == Route::Stop,
        words(text) == seq![seq!['/', 's', 't', 'a', 't', 'u', 's']] ==> route_of(text)
            == Route::Status,
        words(text) == seq![seq!['/', 'r', 'e', 's', 'e', 't']] ==> route_of(text)
            == Route::Reset,
{
    reveal_strlit("/stop");
    reveal_strlit("/status");
    reveal_strlit("/reset");
    reveal_strlit("@_");
    assert("/stop"@ =~= seq!['/', 's', 't', 'o', 'p']);
    assert("/status"@ =~= seq!['/', 's', 't', 'a', 't', 'u', 's']);
    assert("/reset"@ =~= seq!['/', 'r', 'e', 's', 'e', 't']);
    assert("@_"@[0] == '@');
    law_control_commands_exclude_each_other(text);
    law_command_follows_mentions(text, "/stop"@);
    law_command_follows_mentions(text, "/status"@);
    law_command_follows_mentions(text, "/reset"@);
}

/// A channel is found by its name, and the first of that name counts.
pub proof fn law_channels_are_found_by_name(names: Seq<Seq<char>>, name: Seq<char>)
    ensures
        match channel_at(names, name) {
            Some(i) => 0 <= i < names.len() && names[i] == name && forall|k: int|
                0 <= k < i ==> #[trigger] names[k] != name,
            None => !names.contains(name),
        },
    decreases names.len(),
{
    if names.len() > 0 {
        let front = names.drop_last();
        law_channels_are_found_by_name(front, name);
        match channel_at(front, name) {
            Some(i) => {
                assert(names[i] == front[i]);
                assert forall|k: int| 0 <= k < i implies #[trigger] names[k] != name by {
                    assert(front[k] != name);
                }
            },
            None => {
                assert forall|k: int| 0 <= k < front.len() implies #[trigger] names[k] != name by {
                    assert(front[k] == names[k]);
                    assert(front.contains(front[k]));
                }
            },
        }
    }
}

/// An answer goes back to where its message came from: to its chat, in its
/// thread and as a reply to it.
pub proof fn law_answers_go_back(
    outbound: OutboundMessage,
    message: InboundMessage,
    text: Seq<char>,
)
    requires
        answers(outbound, message, text),
    ensures
        outbound.text@ == text,
        outbound.channel_name@ == message.source.channel_name@,
        outbound.reply_to == message.message_id,
        outbound.thread_id == message.source.thread_id,
        !is_blank(message.source.chat_id@) ==> outbound.recipient == OutboundRecipient::Chat
            && outbound.chat_id@ == message.source.chat_id@,
{
}

} // verus!
