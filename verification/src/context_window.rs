//! Keeps the history that goes to the provider inside the context window.

use crate::numbers::{dec, decimal_usize};
use crate::session::{copy_items, items, ConversationItem, ItemView, SessionState};
use crate::text::{
    blank, chars_of, ellipsis, is_blank, is_white, join, join_strings, lemma_joined_part,
    lemma_not_blank, occurs, occurs_at, same_text, texts, trim, trimmed, with_ellipsis,
};
use vstd::prelude::*;

verus! {

/// Tokens of recent history that stay after a compaction.
pub const COMPACT_USER_MESSAGE_MAX_TOKENS: u64 = 20_000;

/// Old user requests that a compaction summary quotes at most.
pub const SUMMARY_USER_SNIPPET_LIMIT: usize = 12;

/// Characters that a compaction summary quotes of one request at most.
pub const SUMMARY_USER_SNIPPET_MAX_CHARS: usize = 220;

/// What the provider should see of the history this turn.
#[derive(Debug, Clone, PartialEq, Eq)]
pub struct ContextWindowPlan {
    /// The history for the provider.
    pub history: Vec<ConversationItem>,
    /// The estimated size of the request that was asked for.
    pub estimated_tokens: u64,
    /// Whether the history was compacted.
    pub compacted: bool,
    /// How many items the compaction took out.
    pub dropped_items: usize,
}

/// How full the context window is.
#[derive(Debug, Clone, PartialEq, Eq)]
pub struct ContextWindowStatus {
    /// The estimated size of the request.
    pub estimated_tokens: u64,
    /// The size from which on the history is compacted.
    pub auto_compact_limit: Option<u64>,
    /// Whether the request reaches that size.
    pub limit_reached: bool,
}

/// `n`, or the largest machine number where `n` is larger.
pub open spec fn saturated(n: nat) -> u64 {
    if n > u64::MAX {
        u64::MAX
    } else {
        n as u64
    }
}

/// The estimated tokens of a text: a quarter of its characters, rounded up,
/// and four.
pub open spec fn text_tokens(text: Seq<char>) -> nat {
    (text.len() + 3) / 4 + 4
}

/// The estimated tokens of a history.
pub open spec fn history_tokens(history: Seq<ItemView>) -> nat
    decreases history.len(),
{
    if history.len() == 0 {
        0
    } else {
        history_tokens(history.drop_last()) + text_tokens(history.last().text())
    }
}

/// The history that a request carries: a last user message that repeats the
/// input is not sent twice.
pub open spec fn sent_history(history: Seq<ItemView>, user_input: Seq<char>) -> Seq<ItemView> {
    if history.len() > 0 && history.last() == ItemView::User(user_input) {
        history.drop_last()
    } else {
        history
    }
}

/// The estimated tokens of a request.
pub open spec fn request_tokens(
    instructions: Seq<char>,
    history: Seq<ItemView>,
    user_input: Seq<char>,
) -> u64 {
    saturated(
        text_tokens(instructions) + history_tokens(sent_history(history, user_input)) + text_tokens(
            user_input,
        ),
    )
}

/// Nine tenths of the context window.
pub open spec fn compact_limit(max_context_tokens: u64) -> u64 {
    saturated(max_context_tokens as nat * 9) / 10
}

/// Whether a request reaches the size from which on history is compacted.
pub open spec fn limit_reached(
    max_context_tokens: Option<u64>,
    instructions: Seq<char>,
    history: Seq<ItemView>,
    user_input: Seq<char>,
) -> bool {
    match max_context_tokens {
        Some(max) => request_tokens(instructions, history, user_input) >= compact_limit(max),
        None => false,
    }
}

/// How many items at the end of `history` a compaction keeps, where items of
/// `used` tokens after them are kept already. The last item always stays; each
/// earlier one stays as long as the kept items fit the limit together.
pub open spec fn kept(history: Seq<ItemView>, used: nat) -> nat
    decreases history.len(),
{
    if history.len() == 0 {
        0
    } else {
        let with_last = used + text_tokens(history.last().text());
        if used > 0 && with_last > COMPACT_USER_MESSAGE_MAX_TOKENS {
            0
        } else {
            1 + kept(history.drop_last(), with_last)
        }
    }
}

/// The quoted old user requests of a summary: the first ones that are not
/// blank, each clipped.
pub open spec fn snippets(dropped: Seq<ItemView>) -> Seq<Seq<char>>
    decreases dropped.len(),
{
    if dropped.len() == 0 {
        Seq::empty()
    } else {
        let before = snippets(dropped.drop_last());
        match dropped.last() {
            ItemView::User(text) => if before.len() < SUMMARY_USER_SNIPPET_LIMIT && !is_blank(text) {
                before.push("- "@ + ellipsis(trim(text), SUMMARY_USER_SNIPPET_MAX_CHARS as int))
            } else {
                before
            },
            ItemView::Assistant(_) => before,
        }
    }
}

/// The fixed opening of a summary that the library writes itself.
pub open spec fn summary_opening() -> Seq<char> {
    "[CONTEXT COMPACTION - REFERENCE ONLY]\nEarlier turns were compacted because this session reached the Codex-style auto compact limit. Treat this block as background only; the latest user message after this block is authoritative.\nCompacted history items: "@
}

/// The summary that the library writes for dropped items.
pub open spec fn built_summary(dropped: Seq<ItemView>) -> Seq<char> {
    let head = summary_opening() + dec(dropped.len()) + "."@;
    let quotes = snippets(dropped);
    if quotes.len() > 0 {
        head + "\nOld user requests kept as weak hints:\n"@ + join(quotes, "\n"@)
    } else {
        head
    }
}

/// The summary that is used: the model's where it says anything, else the
/// library's own.
pub open spec fn used_summary(summary: Option<Seq<char>>, dropped: Seq<ItemView>) -> Seq<char> {
    match summary {
        Some(text) => if is_blank(text) {
            built_summary(dropped)
        } else {
            text
        },
        None => built_summary(dropped),
    }
}

/// `retained` with the summary in front, so that no two user messages follow
/// each other because of it.
pub open spec fn with_summary(summary: Seq<char>, retained: Seq<ItemView>) -> Seq<ItemView> {
    if retained.len() > 0 && retained[0] is User {
        retained.update(0, ItemView::User(summary + "\n\n"@ + retained[0].text()))
    } else {
        seq![ItemView::User(summary)] + retained
    }
}

/// How many items a compaction takes out of `history`, if there is one: it
/// needs more than two items and at least one that does not fit.
pub open spec fn dropped_count(history: Seq<ItemView>, reached: bool) -> nat {
    if reached && history.len() > 2 {
        (history.len() - kept(history, 0)) as nat
    } else {
        0
    }
}

/// The history for the provider.
pub open spec fn planned_history(
    history: Seq<ItemView>,
    reached: bool,
    summary: Option<Seq<char>>,
) -> Seq<ItemView> {
    let n = dropped_count(history, reached) as int;
    if n == 0 {
        history
    } else {
        with_summary(used_summary(summary, history.take(n)), history.skip(n))
    }
}

impl ContextWindowPlan {
    /// Whether this is the plan for the given request and summary.
    pub open spec fn is_for(
        self,
        session: SessionState,
        history: Seq<ItemView>,
        user_input: Seq<char>,
        summary: Option<Seq<char>>,
    ) -> bool {
        let reached = limit_reached(
            session.max_context_tokens,
            session.instructions@,
            history,
            user_input,
        );
        &&& self.estimated_tokens == request_tokens(session.instructions@, history, user_input)
        &&& self.dropped_items == dropped_count(history, reached)
        &&& self.compacted == (self.dropped_items > 0)
        &&& items(self.history@) == planned_history(history, reached, summary)
    }
}

/// Estimates how full the context window is for a request.
pub fn context_window_status(
    session: &SessionState,
    history: &[ConversationItem],
    user_input: &str,
) -> (r: ContextWindowStatus)
    ensures
        r.estimated_tokens == request_tokens(
            session.instructions@,
            items(history@),
            user_input@,
        ),
        r.auto_compact_limit == match session.max_context_tokens {
            Some(max) => Some(compact_limit(max)),
            None => None,
        },
        r.limit_reached == limit_reached(
            session.max_context_tokens,
            session.instructions@,
            items(history@),
            user_input@,
        ),
{
    let estimated_tokens: u64 = estimate_request_tokens(session, history, user_input);
    match session.max_context_tokens {
        Some(max) => {
            let limit: u64 = auto_compact_token_limit(max);
            ContextWindowStatus {
                estimated_tokens,
                auto_compact_limit: Some(limit),
                limit_reached: estimated_tokens >= limit,
            }
        },
        None => ContextWindowStatus {
            estimated_tokens,
            auto_compact_limit: None,
            limit_reached: false,
        },
    }
}

/// Prepares the history for the provider with a summary of the library's own.
pub fn prepare_context_window(
    session: &SessionState,
    history: &[ConversationItem],
    user_input: &str,
) -> (r: ContextWindowPlan)
    ensures
        r.is_for(*session, items(history@), user_input@, None),
{
    prepare_context_window_inner(session, history, user_input, None)
}

/// Prepares the history for the provider with a summary that the model wrote.
pub fn prepare_context_window_with_summary(
    session: &SessionState,
    history: &[ConversationItem],
    user_input: &str,
    summary_text: String,
) -> (r: ContextWindowPlan)
    ensures
        r.is_for(*session, items(history@), user_input@, Some(summary_text@)),
{
    prepare_context_window_inner(session, history, user_input, Some(summary_text))
}

fn prepare_context_window_inner(
    session: &SessionState,
    history: &[ConversationItem],
    user_input: &str,
    summary_text: Option<String>,
) -> (r: ContextWindowPlan)
    ensures
        r.is_for(
            *session,
            items(history@),
            user_input@,
            match summary_text {
                Some(text) => Some(text@),
                None => None,
            },
        ),
{
    let status = context_window_status(session, history, user_input);
    let estimated_tokens: u64 = status.estimated_tokens;
    if !status.limit_reached || history.len() <= 2 {
        let copy = copy_items(history, 0);
        assert(copy@ =~= history@);
        return ContextWindowPlan {
            history: copy,
            estimated_tokens,
            compacted: false,
            dropped_items: 0,
        };
    }
    compact_history(history, estimated_tokens, summary_text)
}

/// Nine tenths of the context window.
fn auto_compact_token_limit(max_context_tokens: u64) -> (r: u64)
    ensures
        r == compact_limit(max_context_tokens),
{
    if max_context_tokens > u64::MAX / 9 {
        u64::MAX / 10
    } else {
        max_context_tokens * 9 / 10
    }
}

/// Estimates the tokens of a request.
pub fn estimate_request_tokens(
    session: &SessionState,
    history: &[ConversationItem],
    user_input: &str,
) -> (r: u64)
    ensures
        r == request_tokens(session.instructions@, items(history@), user_input@),
{
    let instruction_tokens: u64 = estimate_text_tokens(session.instructions.as_str());
    let n: usize = effective_len(history, user_input);
    let ghost all = items(history@);
    let mut total: u64 = 0;
    let mut i: usize = 0;
    while i < n
        invariant
            i <= n <= history@.len(),
            all == items(history@),
            total == saturated(history_tokens(all.take(i as int))),
        decreases n - i,
    {
        assert(all.take(i + 1).drop_last() =~= all.take(i as int));
        total = total.saturating_add(estimate_item_tokens(&history[i]));
        i += 1;
    }
    assert(sent_history(all, user_input@) =~= all.take(n as int));
    instruction_tokens.saturating_add(total).saturating_add(estimate_text_tokens(user_input))
}

fn compact_history(
    history: &[ConversationItem],
    estimated_tokens: u64,
    summary_text: Option<String>,
) -> (r: ContextWindowPlan)
    requires
        history@.len() > 2,
    ensures
        r.estimated_tokens == estimated_tokens,
        r.dropped_items == dropped_count(items(history@), true),
        r.compacted == (r.dropped_items > 0),
        items(r.history@) == planned_history(
            items(history@),
            true,
            match summary_text {
                Some(text) => Some(text@),
                None => None,
            },
        ),
{
    let ghost all = items(history@);
    let mut start: usize = history.len();
    let mut retained_tokens: u64 = 0;
    assert(all.take(all.len() as int) =~= all);
    while start > 0
        invariant
            start <= history@.len(),
            all == items(history@),
            kept(all, 0) == history@.len() - start + kept(
                all.take(start as int),
                retained_tokens as nat,
            ),
            retained_tokens > 0 <==> start < history@.len(),
            retained_tokens <= u64::MAX / 2,
        ensures
            start <= history@.len(),
            kept(all, 0) == history@.len() - start,
        decreases start,
    {
        let item_tokens: u64 = estimate_item_tokens(&history[start - 1]);
        let ghost front = all.take(start as int);
        assert(front.last() == all[start - 1]);
        if start < history.len() && retained_tokens.saturating_add(item_tokens)
            > COMPACT_USER_MESSAGE_MAX_TOKENS {
            break;
        }
        retained_tokens = retained_tokens + item_tokens;
        start -= 1;
        assert(front.drop_last() =~= all.take(start as int));
    }
    let dropped_items: usize = start;
    if dropped_items == 0 {
        let copy = copy_items(history, 0);
        assert(copy@ =~= history@);
        return ContextWindowPlan {
            history: copy,
            estimated_tokens,
            compacted: false,
            dropped_items: 0,
        };
    }
    let summary = match summary_text {
        Some(text) => {
            if blank(text.as_str()) {
                build_compaction_summary(history, dropped_items)
            } else {
                text
            }
        },
        None => build_compaction_summary(history, dropped_items),
    };
    let retained = copy_items(history, dropped_items);
    assert(items(retained@) =~= all.skip(dropped_items as int));
    let compacted = prepend_compaction_summary(summary, retained);
    ContextWindowPlan {
        history: compacted,
        estimated_tokens,
        compacted: true,
        dropped_items,
    }
}

fn prepend_compaction_summary(
    summary: String,
    retained: Vec<ConversationItem>,
) -> (r: Vec<ConversationItem>)
    ensures
        items(r@) == with_summary(summary@, items(retained@)),
{
    let ghost before = items(retained@);
    let mut out = retained;
    if out.len() > 0 {
        if let ConversationItem::User { text } = &out[0] {
            let mut joined = summary;
            joined.append("\n\n");
            joined.append(text.as_str());
            out.set(0, ConversationItem::User { text: joined });
            assert(items(out@) =~= with_summary(summary@, before));
            return out;
        }
    }
    out.insert(0, ConversationItem::User { text: summary });
    assert(items(out@) =~= with_summary(summary@, before));
    out
}

fn build_compaction_summary(history: &[ConversationItem], dropped_items: usize) -> (r: String)
    requires
        dropped_items <= history@.len(),
    ensures
        r@ == built_summary(items(history@).take(dropped_items as int)),
{
    let ghost all = items(history@).take(dropped_items as int);
    let mut quotes: Vec<String> = Vec::new();
    let mut i: usize = 0;
    assert(texts(quotes@) =~= snippets(all.take(0)));
    while i < dropped_items
        invariant
            i <= dropped_items <= history@.len(),
            all == items(history@).take(dropped_items as int),
            texts(quotes@) == snippets(all.take(i as int)),
            texts(quotes@).len() == quotes@.len(),
        decreases dropped_items - i,
    {
        assert(all.take(i + 1).drop_last() =~= all.take(i as int));
        assert(all.take(i + 1).last() == history@[i as int]@);
        if let ConversationItem::User { text } = &history[i] {
            let cs = chars_of(text.as_str());
            let body = trimmed(&cs);
            if quotes.len() < SUMMARY_USER_SNIPPET_LIMIT && body.len() > 0 {
                let mut quote = String::from_str("- ");
                quote.append(with_ellipsis(body, SUMMARY_USER_SNIPPET_MAX_CHARS).as_str());
                let ghost before = texts(quotes@);
                let ghost q = quote@;
                quotes.push(quote);
                assert(texts(quotes@) =~= before.push(q));
            }
        }
        i += 1;
    }
    assert(all.take(dropped_items as int) =~= all);
    let mut summary = String::from_str(
        "[CONTEXT COMPACTION - REFERENCE ONLY]\nEarlier turns were compacted because this session reached the Codex-style auto compact limit. Treat this block as background only; the latest user message after this block is authoritative.\nCompacted history items: ",
    );
    summary.append(decimal_usize(dropped_items).as_str());
    summary.append(".");
    if quotes.len() > 0 {
        summary.append("\nOld user requests kept as weak hints:\n");
        summary.append(join_strings(&quotes, "\n").as_str());
    }
    summary
}

/// How many items at the start of `history` a request carries.
fn effective_len(history: &[ConversationItem], user_input: &str) -> (r: usize)
    ensures
        r <= history@.len(),
        sent_history(items(history@), user_input@) == items(history@).take(r as int),
{
    let n: usize = history.len();
    assert(items(history@).take(n as int) =~= items(history@));
    if n > 0 {
        if let ConversationItem::User { text } = &history[n - 1] {
            if same_text(text.as_str(), user_input) {
                assert(items(history@).take(n - 1) =~= items(history@).drop_last());
                return n - 1;
            }
        }
    }
    n
}

fn estimate_item_tokens(item: &ConversationItem) -> (r: u64)
    ensures
        r == text_tokens(item@.text()),
        r <= u64::MAX / 4 + 5,
{
    match item {
        ConversationItem::User { text } => estimate_text_tokens(text.as_str()),
        ConversationItem::Assistant { text } => estimate_text_tokens(text.as_str()),
    }
}

fn estimate_text_tokens(text: &str) -> (r: u64)
    ensures
        r == text_tokens(text@),
        r <= u64::MAX / 4 + 5,
{
    let chars: u64 = text.unicode_len() as u64;
    let quarter: u64 = chars / 4;
    let rest: u64 = chars % 4;
    if rest > 0 {
        quarter + 1 + 4
    } else {
        quarter + 4
    }
}

proof fn lemma_kept_bounds(history: Seq<ItemView>, used: nat)
    ensures
        kept(history, used) <= history.len(),
        history.len() > 0 && used == 0 ==> kept(history, used) >= 1,
        used <= COMPACT_USER_MESSAGE_MAX_TOKENS ==> {
            let n = kept(history, used) as int;
            let tail = history.skip(history.len() - n);
            used + history_tokens(tail) <= COMPACT_USER_MESSAGE_MAX_TOKENS || (used == 0 && n == 1)
        },
        used > COMPACT_USER_MESSAGE_MAX_TOKENS ==> kept(history, used) == 0,
    decreases history.len(),
{
    if history.len() > 0 {
        let with_last = used + text_tokens(history.last().text());
        lemma_kept_bounds(history.drop_last(), with_last);
        let n = kept(history, used) as int;
        let tail = history.skip(history.len() - n);
        if n > 0 {
            let m = kept(history.drop_last(), with_last) as int;
            let inner = history.drop_last().skip(history.drop_last().len() - m);
            assert(tail.drop_last() =~= inner);
            assert(tail.last() == history.last());
        } else {
            assert(history_tokens(tail) == 0);
        }
    }
}

proof fn lemma_kept_is_most(history: Seq<ItemView>, used: nat)
    requires
        kept(history, used) < history.len(),
    ensures
        used + history_tokens(history.skip(history.len() - kept(history, used) - 1))
            > COMPACT_USER_MESSAGE_MAX_TOKENS,
    decreases history.len(),
{
    let front = history.drop_last();
    let with_last = used + text_tokens(history.last().text());
    let tail = history.skip(history.len() - kept(history, used) - 1);
    assert(tail.last() == history.last());
    if used > 0 && with_last > COMPACT_USER_MESSAGE_MAX_TOKENS {
        assert(tail.drop_last() =~= Seq::<ItemView>::empty());
        assert(history_tokens(tail.drop_last()) == 0);
    } else {
        lemma_kept_is_most(front, with_last);
        assert(tail.drop_last() =~= front.skip(front.len() - kept(front, with_last) - 1));
    }
}

/// A compaction keeps the most recent items: what is dropped and what is kept
/// make up the history, at least the last item stays, the kept items fit the
/// limit unless a single item already exceeds it, and with one item more they
/// would not.
pub proof fn law_compaction_keeps_a_fitting_suffix(history: Seq<ItemView>)
    requires
        history.len() > 2,
    ensures
        dropped_count(history, true) < history.len(),
        ({
            let n = dropped_count(history, true) as int;
            let retained = history.skip(n);
            &&& history == history.take(n) + retained
            &&& history_tokens(retained) <= 20_000 || retained.len() == 1
            &&& n > 0 ==> history_tokens(history.skip(n - 1)) > 20_000
        }),
{
    lemma_kept_bounds(history, 0);
    let n = dropped_count(history, true) as int;
    if n > 0 {
        lemma_kept_is_most(history, 0);
    }
    assert(history =~= history.take(n) + history.skip(n));
}

/// After a compaction the history opens with a user message that holds the
/// summary, and every item after the first retained one is unchanged.
pub proof fn law_compacted_history_opens_with_the_summary(
    history: Seq<ItemView>,
    summary: Option<Seq<char>>,
)
    requires
        dropped_count(history, true) > 0,
    ensures
        ({
            let n = dropped_count(history, true) as int;
            let planned = planned_history(history, true, summary);
            let text = used_summary(summary, history.take(n));
            &&& planned.len() > 0
            &&& planned[0] is User
            &&& text.is_prefix_of(planned[0].text())
            &&& history.skip(n + 1).is_suffix_of(planned)
        }),
{
    lemma_kept_bounds(history, 0);
    let n = dropped_count(history, true) as int;
    let retained = history.skip(n);
    let planned = planned_history(history, true, summary);
    let rest = history.skip(n + 1);
    assert(planned.subrange(planned.len() - rest.len(), planned.len() as int) =~= rest);
    let text = used_summary(summary, history.take(n));
    assert(planned[0].text().subrange(0, text.len() as int) =~= text);
}

/// A compaction loses no retained text: a first retained message of the user
/// ends the message that holds the summary, and where the assistant comes
/// first, all retained items stand behind the summary.
pub proof fn law_compaction_loses_no_retained_text(
    history: Seq<ItemView>,
    summary: Option<Seq<char>>,
)
    requires
        dropped_count(history, true) > 0,
    ensures
        ({
            let retained = history.skip(dropped_count(history, true) as int);
            let planned = planned_history(history, true, summary);
            &&& retained.len() > 0
            &&& match retained[0] {
                ItemView::User(text) => {
                    &&& planned.len() == retained.len()
                    &&& text.is_suffix_of(planned[0].text())
                    &&& planned.skip(1) == retained.skip(1)
                },
                ItemView::Assistant(_) => {
                    &&& planned.len() == retained.len() + 1
                    &&& planned.skip(1) == retained
                },
            }
        }),
{
    lemma_kept_bounds(history, 0);
    let n = dropped_count(history, true) as int;
    let retained = history.skip(n);
    let planned = planned_history(history, true, summary);
    match retained[0] {
        ItemView::User(text) => {
            let first = planned[0].text();
            assert(first.subrange(first.len() - text.len(), first.len() as int) =~= text);
            assert(planned.skip(1) =~= retained.skip(1));
        },
        ItemView::Assistant(_) => {
            assert(planned.skip(1) =~= retained);
        },
    }
}

/// A summary of the model opens the compacted history, unless it is blank.
pub proof fn law_the_models_summary_is_used(history: Seq<ItemView>, summary: Seq<char>)
    requires
        dropped_count(history, true) > 0,
        exists|i: int| 0 <= i < summary.len() && !is_white(#[trigger] summary[i]),
    ensures
        ({
            let retained = history.skip(dropped_count(history, true) as int);
            let first = planned_history(history, true, Some(summary))[0];
            match retained[0] {
                ItemView::User(text) => first == ItemView::User(summary + "\n\n"@ + text),
                ItemView::Assistant(_) => first == ItemView::User(summary),
            }
        }),
{
    lemma_kept_bounds(history, 0);
    let i = choose|i: int| 0 <= i < summary.len() && !is_white(#[trigger] summary[i]);
    lemma_not_blank(summary, i);
}

/// The history is compacted once a request needs nine tenths of the context
/// window.
pub proof fn law_compaction_starts_at_nine_tenths(
    max: u64,
    instructions: Seq<char>,
    history: Seq<ItemView>,
    user_input: Seq<char>,
)
    requires
        max <= u64::MAX / 9,
        text_tokens(instructions) + history_tokens(history) + text_tokens(user_input) <= u64::MAX,
        history.len() == 0 || history.last() != ItemView::User(user_input),
    ensures
        limit_reached(Some(max), instructions, history, user_input) <==> text_tokens(instructions)
            + history_tokens(history) + text_tokens(user_input) >= max * 9 / 10,
{
}

/// A text counts for at least a token for each four characters, and a history
/// for at least as much as each of its texts.
pub proof fn law_every_text_counts(history: Seq<ItemView>, i: int)
    requires
        0 <= i < history.len(),
    ensures
        4 * text_tokens(history[i].text()) >= history[i].text().len(),
        4 * text_tokens(history[i].text()) <= history[i].text().len() + 19,
        history_tokens(history) >= text_tokens(history[i].text()),
    decreases history.len(),
{
    if i < history.len() - 1 {
        law_every_text_counts(history.drop_last(), i);
    }
}

/// A summary of the library's own says how many items were dropped.
pub proof fn law_own_summary_counts_what_was_dropped(dropped: Seq<ItemView>)
    ensures
        occurs("Compacted history items: "@ + dec(dropped.len()) + "."@, built_summary(dropped)),
{
    reveal_strlit("Compacted history items: ");
    reveal_strlit(
        "[CONTEXT COMPACTION - REFERENCE ONLY]\nEarlier turns were compacted because this session reached the Codex-style auto compact limit. Treat this block as background only; the latest user message after this block is authoritative.\nCompacted history items: ",
    );
    let label = "Compacted history items: "@;
    let told = label + dec(dropped.len()) + "."@;
    let whole = built_summary(dropped);
    let opening = summary_opening();
    let at = opening.len() - label.len();
    assert(opening.subrange(at, opening.len() as int) =~= label);
    assert(whole.subrange(at, at + told.len()) =~= told) by {
        assert forall|k: int| 0 <= k < told.len() implies whole[at + k] == told[k] by {
            if k < label.len() {
                assert(opening.subrange(at, opening.len() as int)[k] == label[k]);
            }
        }
    }
    assert(occurs_at(told, whole, at));
}

/// A summary of the library's own quotes an old request of the user: one that
/// says something and is not preceded by too many others.
pub proof fn law_own_summary_quotes_requests(dropped: Seq<ItemView>, i: int)
    requires
        0 <= i < dropped.len(),
        i < 12,
        dropped[i] is User,
        !is_blank(dropped[i].text()),
    ensures
        occurs(
            "- "@ + ellipsis(trim(dropped[i].text()), 220),
            built_summary(dropped),
        ),
{
    let quote = "- "@ + ellipsis(
        trim(dropped[i].text()),
        SUMMARY_USER_SNIPPET_MAX_CHARS as int,
    );
    lemma_snippet_is_there(dropped, i);
    let quotes = snippets(dropped);
    let k = choose|k: int| 0 <= k < quotes.len() && quotes[k] == quote;
    lemma_joined_part(quotes, "\n"@, k);
    let all = join(quotes, "\n"@);
    let at = choose|at: int| occurs_at(quote, all, at);
    let whole = built_summary(dropped);
    let head = whole.len() - all.len();
    assert(whole.skip(head) =~= all);
    assert(whole.subrange(head + at, head + at + quote.len()) =~= all.subrange(
        at,
        at + quote.len(),
    ));
    assert(occurs_at(quote, whole, head + at));
}

proof fn lemma_snippet_is_there(dropped: Seq<ItemView>, i: int)
    requires
        0 <= i < dropped.len(),
        i < SUMMARY_USER_SNIPPET_LIMIT,
        dropped[i] is User,
        !is_blank(dropped[i].text()),
    ensures
        snippets(dropped).len() <= dropped.len(),
        snippets(dropped).contains(
            "- "@ + ellipsis(trim(dropped[i].text()), SUMMARY_USER_SNIPPET_MAX_CHARS as int),
        ),
    decreases dropped.len(),
{
    let before = snippets(dropped.drop_last());
    let quote = "- "@ + ellipsis(
        trim(dropped[i].text()),
        SUMMARY_USER_SNIPPET_MAX_CHARS as int,
    );
    lemma_snippet_count(dropped);
    lemma_snippet_count(dropped.drop_last());
    if i == dropped.len() - 1 {
        assert(snippets(dropped).last() == quote);
    } else {
        lemma_snippet_is_there(dropped.drop_last(), i);
        let k = choose|k: int| 0 <= k < before.len() && before[k] == quote;
        assert(snippets(dropped)[k] == quote);
    }
}

proof fn lemma_snippet_count(dropped: Seq<ItemView>)
    ensures
        snippets(dropped).len() <= dropped.len(),
    decreases dropped.len(),
{
    if dropped.len() > 0 {
        lemma_snippet_count(dropped.drop_last());
    }
}

/// A last user message that repeats the input does not count twice.
pub proof fn law_repeated_input_counts_once(
    instructions: Seq<char>,
    history: Seq<ItemView>,
    user_input: Seq<char>,
)
    requires
        history.len() == 0 || history.last() != ItemView::User(user_input),
    ensures
        request_tokens(instructions, history.push(ItemView::User(user_input)), user_input)
            == request_tokens(instructions, history, user_input),
{
    assert(history.push(ItemView::User(user_input)).drop_last() =~= history);
}

/// Without a known context window nothing is compacted.
pub proof fn law_unknown_window_keeps_history(
    instructions: Seq<char>,
    history: Seq<ItemView>,
    user_input: Seq<char>,
    summary: Option<Seq<char>>,
)
    ensures
        planned_history(
            history,
            limit_reached(None, instructions, history, user_input),
            summary,
        ) == history,
{
}

/// A model's summary that says nothing is no summary: the history is then the
/// same as without one.
pub proof fn law_blank_summaries_are_not_used(
    history: Seq<ItemView>,
    reached: bool,
    blank: Seq<char>,
)
    requires
        is_blank(blank),
    ensures
        planned_history(history, reached, Some(blank)) == planned_history(history, reached, None),
{
}

} // verus!
