//! Questions to Feishu users that wait for answers.

use crate::assoc::{
    assign, at, distinct, erase, has_entry, lemma_at, lemma_same_keys, lookup, Assoc,
};
use crate::channel::feishu::card::{build_user_input_status_card, status_card};
use crate::channel::user_input::{
    all_answered, answer_open_questions, first_open, lemma_first_open, next_unanswered, resolved,
    set_answer, AnswerViews,
};
use crate::error::{AppError, AppResult, ErrorView};
use crate::json::Json;
use crate::message::{
    answers_of, questions_of, Answers, MessageSource, UserInputRequest, UserInputResponse,
};
use crate::text::{opt_text, same_text};
use vstd::prelude::*;

verus! {

/// A request that waits for answers.
pub struct PendingUserInput {
    /// Where the request was asked.
    pub source: Option<MessageSource>,
    /// The questions.
    pub request: UserInputRequest,
    /// The answers so far.
    pub answers: Answers,
    /// The card that shows the questions.
    pub card_message_id: Option<String>,
}

/// The contents of a waiting request.
pub struct PendingView {
    pub source: Option<MessageSource>,
    pub request: UserInputRequest,
    pub answers: AnswerViews,
    pub card_message_id: Option<String>,
}

impl View for PendingUserInput {
    type V = PendingView;

    open spec fn view(&self) -> PendingView {
        PendingView {
            source: self.source,
            request: self.request,
            answers: answers_of(self.answers),
            card_message_id: self.card_message_id,
        }
    }
}

/// Requests that wait for answers, by request id.
pub struct PendingUserInputs {
    items: Assoc<PendingUserInput>,
}

/// What came of an answer.
pub enum UserInputAnswerResult {
    /// No request waits for it.
    Missing,
    /// The answer was taken.
    Accepted {
        /// The request that it belongs to.
        request_id: String,
        /// The new state of the card, where the card is known.
        update: Option<UserInputMessageUpdate>,
        /// All answers, once every question has one.
        response: Option<UserInputResponse>,
    },
}

/// A new state for a card.
pub struct UserInputMessageUpdate {
    /// The message that holds the card.
    pub message_id: String,
    /// The card.
    pub card: Json,
}

impl PendingView {
    /// The request with one more answer.
    pub open spec fn answered(self, question_id: Seq<char>, value: Seq<char>) -> PendingView {
        PendingView { answers: assign(self.answers, question_id, seq![value]), ..self }
    }

    /// Whether every question has an answer.
    pub open spec fn is_finished(self) -> bool {
        all_answered(questions_of(self.request), self.answers)
    }
}

/// Whether two sources are the same user in the same conversation.
pub open spec fn same_source(a: MessageSource, b: MessageSource) -> bool {
    &&& a.channel_name@ == b.channel_name@
    &&& a.chat_id@ == b.chat_id@
    &&& opt_text(a.user_id) == opt_text(b.user_id)
}

/// The position of the first request that was asked at the given source, or
/// the number of requests where there is none.
pub open spec fn asked_at(list: Seq<(Seq<char>, PendingView)>, source: MessageSource) -> int
    decreases list.len(),
{
    if list.len() == 0 {
        0
    } else if list[0].1.source is Some && same_source(list[0].1.source->0, source) {
        0
    } else {
        1 + asked_at(list.skip(1), source)
    }
}

/// The request and the question that a text from the given source answers:
/// the first request that was asked there, and its first open question.
pub open spec fn open_question(
    list: Seq<(Seq<char>, PendingView)>,
    source: MessageSource,
) -> Option<(Seq<char>, PendingView, Seq<char>)> {
    let i = asked_at(list, source);
    if i < list.len() {
        let (id, p) = list[i];
        let questions = questions_of(p.request);
        let open = first_open(questions, p.answers);
        if open < questions.len() {
            Some((id, p, questions[open].id))
        } else {
            None
        }
    } else {
        None
    }
}

/// The waiting requests after an answer.
pub open spec fn after_answer(
    list: Seq<(Seq<char>, PendingView)>,
    request_id: Seq<char>,
    pending: PendingView,
    question_id: Seq<char>,
    value: Seq<char>,
) -> Seq<(Seq<char>, PendingView)> {
    let after = pending.answered(question_id, value);
    if after.is_finished() {
        erase(list, request_id)
    } else {
        assign(list, request_id, after)
    }
}

impl UserInputAnswerResult {
    /// Whether this is the result of adding an answer to the given request.
    pub open spec fn is_of(
        self,
        request_id: Seq<char>,
        pending: Option<PendingView>,
        question_id: Seq<char>,
        value: Seq<char>,
    ) -> bool {
        match pending {
            None => self is Missing,
            Some(before) => {
                let after = before.answered(question_id, value);
                match self {
                    UserInputAnswerResult::Missing => false,
                    UserInputAnswerResult::Accepted { request_id: id, update, response } => {
                        &&& id@ == request_id
                        &&& match before.card_message_id {
                            Some(message_id) => {
                                &&& update is Some
                                &&& update->0.message_id@ == message_id@
                                &&& update->0.card@ == status_card(
                                    request_id,
                                    questions_of(before.request),
                                    after.answers,
                                    after.is_finished(),
                                )
                            },
                            None => update is None,
                        }
                        &&& if after.is_finished() {
                            response is Some && answers_of(response->0.answers) == after.answers
                        } else {
                            response is None
                        }
                    },
                }
            },
        }
    }
}

fn same_optional(a: &Option<String>, b: &Option<String>) -> (r: bool)
    ensures
        r == (opt_text(*a) == opt_text(*b)),
{
    match (a, b) {
        (Some(x), Some(y)) => same_text(x.as_str(), y.as_str()),
        (None, None) => true,
        _ => false,
    }
}

/// Whether two sources are the same user in the same conversation.
pub fn same_user_input_source(left: &MessageSource, right: &MessageSource) -> (r: bool)
    ensures
        r == same_source(*left, *right),
{
    same_text(left.channel_name.as_str(), right.channel_name.as_str()) && same_text(
        left.chat_id.as_str(),
        right.chat_id.as_str(),
    ) && same_optional(&left.user_id, &right.user_id)
}

impl View for PendingUserInputs {
    type V = Seq<(Seq<char>, PendingView)>;

    closed spec fn view(&self) -> Seq<(Seq<char>, PendingView)> {
        Seq::new(self.items@.len(), |i: int| (self.items@[i].0, self.items@[i].1@))
    }
}

impl PendingUserInputs {
    /// No request id occurs twice.
    pub open spec fn wf(self) -> bool {
        distinct(self@)
    }

    proof fn lemma_entries(self, key: Seq<char>)
        ensures
            has_entry(self.items@, key) == has_entry(self@, key),
            at(self.items@, key) == at(self@, key),
            0 <= at(self@, key) <= self@.len(),
            lookup(self@, key) == match lookup(self.items@, key) {
                Some(p) => Some(p@),
                None => None,
            },
            distinct(self@) == distinct(self.items@),
    {
        lemma_same_keys(self.items@, self@, key);
        lemma_at(self.items@, key);
        let a = self@;
        let b = self.items@;
        assert(a.len() == b.len());
        assert(forall|i: int| 0 <= i < a.len() ==> (#[trigger] a[i]).0 == b[i].0);
        assert(forall|i: int| 0 <= i < a.len() ==> (#[trigger] b[i]).0 == a[i].0);
    }

    /// No requests.
    pub fn new() -> (r: Self)
        ensures
            r.wf(),
            r@ == Seq::<(Seq<char>, PendingView)>::empty(),
    {
        let r = PendingUserInputs { items: Assoc::new() };
        assert(r@ =~= Seq::<(Seq<char>, PendingView)>::empty());
        r
    }

    /// The number of waiting requests.
    pub fn len(&self) -> (r: usize)
        ensures
            r == self@.len(),
    {
        self.items.len()
    }

    /// Adds a request that nobody has answered yet.
    pub fn insert(&mut self, request_id: String, request: UserInputRequest)
        requires
            old(self).wf(),
        ensures
            final(self).wf(),
            final(self)@ == assign(
                old(self)@,
                request_id@,
                PendingView {
                    source: None,
                    request,
                    answers: Seq::empty(),
                    card_message_id: None,
                },
            ),
    {
        let ghost before = *self;
        let ghost key = request_id@;
        proof {
            before.lemma_entries(key);
        }
        let pending = PendingUserInput {
            source: None,
            request,
            answers: Answers::new(),
            card_message_id: None,
        };
        assert(answers_of(pending.answers) =~= Seq::empty());
        let ghost view = pending@;
        self.items.insert(request_id, pending);
        assert(self@ =~= assign(before@, key, view));
        proof {
            self.lemma_entries(key);
        }
    }

    /// Removes a request.
    pub fn remove(&mut self, request_id: &str)
        requires
            old(self).wf(),
        ensures
            final(self).wf(),
            final(self)@ == erase(old(self)@, request_id@),
    {
        let ghost before = *self;
        proof {
            before.lemma_entries(request_id@);
        }
        self.items.remove(request_id);
        assert(self@ =~= erase(before@, request_id@));
        proof {
            self.lemma_entries(request_id@);
        }
    }

    /// Notes where a request was asked.
    pub fn bind_source(&mut self, request_id: &str, source: MessageSource)
        requires
            old(self).wf(),
        ensures
            final(self).wf(),
            final(self)@ == match lookup(old(self)@, request_id@) {
                Some(p) => assign(
                    old(self)@,
                    request_id@,
                    PendingView { source: Some(source), ..p },
                ),
                None => old(self)@,
            },
    {
        let ghost before = *self;
        proof {
            before.lemma_entries(request_id@);
        }
        let i: usize = self.items.position(request_id);
        if i < self.items.len() {
            let pending = self.items.value_mut(i);
            pending.source = Some(source);
            assert(self@ =~= assign(
                before@,
                request_id@,
                PendingView { source: Some(source), ..before@[i as int].1 },
            )) by {
                lemma_at(before.items@, request_id@);
            }
            proof {
                lemma_at(before@, request_id@);
                crate::assoc::lemma_assign_distinct(
                    before@,
                    request_id@,
                    PendingView { source: Some(source), ..before@[i as int].1 },
                );
            }
        }
    }

    /// Notes which message shows a request.
    pub fn bind_card_message(&mut self, request_id: &str, message_id: String)
        requires
            old(self).wf(),
        ensures
            final(self).wf(),
            final(self)@ == match lookup(old(self)@, request_id@) {
                Some(p) => assign(
                    old(self)@,
                    request_id@,
                    PendingView { card_message_id: Some(message_id), ..p },
                ),
                None => old(self)@,
            },
    {
        let ghost before = *self;
        proof {
            before.lemma_entries(request_id@);
        }
        let i: usize = self.items.position(request_id);
        if i < self.items.len() {
            let pending = self.items.value_mut(i);
            pending.card_message_id = Some(message_id);
            assert(self@ =~= assign(
                before@,
                request_id@,
                PendingView { card_message_id: Some(message_id), ..before@[i as int].1 },
            )) by {
                lemma_at(before.items@, request_id@);
            }
            proof {
                lemma_at(before@, request_id@);
                crate::assoc::lemma_assign_distinct(
                    before@,
                    request_id@,
                    PendingView { card_message_id: Some(message_id), ..before@[i as int].1 },
                );
            }
        }
    }

    /// Takes an answer to a question. A request whose questions are all
    /// answered stops waiting.
    pub fn answer(&mut self, request_id: &str, question_id: &str, value: String) -> (r:
        UserInputAnswerResult)
        requires
            old(self).wf(),
        ensures
            final(self).wf(),
            r.is_of(request_id@, lookup(old(self)@, request_id@), question_id@, value@),
            final(self)@ == match lookup(old(self)@, request_id@) {
                Some(p) => after_answer(old(self)@, request_id@, p, question_id@, value@),
                None => old(self)@,
            },
    {
        let ghost before = *self;
        proof {
            before.lemma_entries(request_id@);
            lemma_at(before.items@, request_id@);
            lemma_at(before@, request_id@);
        }
        let i: usize = self.items.position(request_id);
        if i >= self.items.len() {
            return UserInputAnswerResult::Missing;
        }
        let ghost view = before@[i as int].1;
        let ghost after = view.answered(question_id@, value@);
        let pending = self.items.value_mut(i);
        set_answer(&mut pending.answers, question_id, value);
        assert(pending@ == after);
        let ghost middle = *self;
        assert(middle@ =~= assign(before@, request_id@, after));
        proof {
            crate::assoc::lemma_assign_distinct(before@, request_id@, after);
            middle.lemma_entries(request_id@);
            crate::assoc::lemma_lookup_assigned(before@, request_id@, after, request_id@);
        }
        let waiting = self.items.value_at(i);
        proof {
            lemma_first_open(questions_of(view.request), after.answers);
        }
        let finished = next_unanswered(&waiting.request, &waiting.answers)
            >= waiting.request.questions.len();
        let update = match &waiting.card_message_id {
            Some(message_id) => Some(
                UserInputMessageUpdate {
                    message_id: message_id.clone(),
                    card: build_user_input_status_card(
                        request_id,
                        &waiting.request,
                        &waiting.answers,
                        finished,
                    ),
                },
            ),
            None => None,
        };
        if !finished {
            return UserInputAnswerResult::Accepted {
                request_id: String::from_str(request_id),
                update,
                response: None,
            };
        }
        let removed = self.items.remove(request_id);
        assert(self@ =~= erase(before@, request_id@)) by {
            lemma_at(middle@, request_id@);
            assert(at(middle@, request_id@) == at(before@, request_id@)) by {
                crate::assoc::lemma_at_is(middle@, request_id@, at(before@, request_id@));
            }
        }
        proof {
            crate::assoc::lemma_erase_distinct(before@, request_id@);
        }
        match removed {
            Some(done) => UserInputAnswerResult::Accepted {
                request_id: String::from_str(request_id),
                update,
                response: Some(UserInputResponse { answers: done.answers }),
            },
            None => UserInputAnswerResult::Missing,
        }
    }

    /// Takes a text as the answer to the next open question that was asked at
    /// the given source.
    pub fn answer_next_by_source(&mut self, source: &MessageSource, value: String) -> (r:
        UserInputAnswerResult)
        requires
            old(self).wf(),
        ensures
            final(self).wf(),
            match open_question(old(self)@, *source) {
                Some((id, p, question_id)) => {
                    &&& r.is_of(id, Some(p), question_id, value@)
                    &&& final(self)@ == after_answer(old(self)@, id, p, question_id, value@)
                },
                None => r is Missing && final(self)@ == old(self)@,
            },
    {
        let ghost list = self@;
        let mut i: usize = 0;
        assert(list.skip(0) =~= list);
        while i < self.items.len()
            invariant
                i <= self.items@.len(),
                list == self@,
                asked_at(list, *source) == i + asked_at(list.skip(i as int), *source),
            ensures
                i <= self.items@.len(),
                asked_at(list, *source) == i,
            decreases self.items@.len() - i,
        {
            assert(list.skip(i as int)[0] == list[i as int]);
            let found = match &self.items.value_at(i).source {
                Some(known) => same_user_input_source(known, source),
                None => false,
            };
            if found {
                break;
            }
            assert(list.skip(i as int).skip(1) =~= list.skip(i + 1));
            i += 1;
        }
        if i >= self.items.len() {
            return UserInputAnswerResult::Missing;
        }
        let ghost p = list[i as int].1;
        let request_id = self.items.key_at(i).clone();
        let waiting = self.items.value_at(i);
        let open: usize = next_unanswered(&waiting.request, &waiting.answers);
        proof {
            lemma_first_open(questions_of(p.request), p.answers);
        }
        if open >= waiting.request.questions.len() {
            return UserInputAnswerResult::Missing;
        }
        let question_id = waiting.request.questions[open].id.clone();
        proof {
            assert forall|k: int| 0 <= k < i implies (#[trigger] list[k]).0 != request_id@ by {
                assert(list[k].0 != list[i as int].0);
            }
            crate::assoc::lemma_at_is(list, request_id@, i as int);
        }
        self.answer(request_id.as_str(), question_id.as_str(), value)
    }

    /// Settles a request without the user: each open question is answered with
    /// its first choice.
    pub fn auto_resolve(&mut self, request_id: &str) -> (r: AppResult<UserInputResponse>)
        requires
            old(self).wf(),
        ensures
            final(self).wf(),
            final(self)@ == erase(old(self)@, request_id@),
            match lookup(old(self)@, request_id@) {
                Some(p) => r is Ok && answers_of(r->Ok_0.answers) == resolved(
                    p.answers,
                    questions_of(p.request),
                ),
                None => r is Err && r->Err_0@ == ErrorView::Channel(
                    "feishu user input request is missing"@,
                ),
            },
    {
        let ghost before = *self;
        proof {
            before.lemma_entries(request_id@);
            crate::assoc::lemma_erase_distinct(before@, request_id@);
        }
        let removed = self.items.remove(request_id);
        assert(self@ =~= erase(before@, request_id@));
        match removed {
            Some(p) => Ok(
                UserInputResponse { answers: answer_open_questions(p.answers, &p.request) },
            ),
            None => Err(AppError::channel("feishu user input request is missing")),
        }
    }

    /// Removes all requests.
    pub fn clear(&mut self)
        requires
            old(self).wf(),
        ensures
            final(self).wf(),
            final(self)@ == Seq::<(Seq<char>, PendingView)>::empty(),
    {
        self.items.clear();
        assert(self@ =~= Seq::<(Seq<char>, PendingView)>::empty());
    }
}

/// A request stops waiting with its last answer: what comes for it later finds
/// nothing.
pub proof fn law_finished_request_is_gone(
    list: Seq<(Seq<char>, PendingView)>,
    request_id: Seq<char>,
)
    requires
        distinct(list),
    ensures
        lookup(erase(list, request_id), request_id) is None,
{
    crate::assoc::lemma_lookup_erased(list, request_id, request_id);
}

/// Answering the open questions of a request one after the other finishes it
/// with the last one.
pub proof fn law_last_open_answer_finishes(
    pending: PendingView,
    question_id: Seq<char>,
    value: Seq<char>,
)
    requires
        forall|i: int|
            0 <= i < questions_of(pending.request).len() ==> (#[trigger] questions_of(
                pending.request,
            )[i]).id == question_id || has_entry(
                pending.answers,
                questions_of(pending.request)[i].id,
            ),
    ensures
        pending.answered(question_id, value).is_finished(),
{
    let questions = questions_of(pending.request);
    let after = pending.answered(question_id, value).answers;
    assert forall|i: int| 0 <= i < questions.len() implies has_entry(
        after,
        (#[trigger] questions[i]).id,
    ) by {
        crate::assoc::lemma_lookup_assigned(
            pending.answers,
            question_id,
            seq![value],
            questions[i].id,
        );
    }
}

/// An answer is noted under its question, and nothing else about the request
/// changes.
pub proof fn law_answers_are_noted(
    pending: PendingView,
    question_id: Seq<char>,
    value: Seq<char>,
    other: Seq<char>,
)
    ensures
        ({
            let after = pending.answered(question_id, value);
            &&& lookup(after.answers, question_id) == Some(seq![value])
            &&& other != question_id ==> lookup(after.answers, other) == lookup(
                pending.answers,
                other,
            )
            &&& after.request == pending.request
            &&& after.source == pending.source
            &&& after.card_message_id == pending.card_message_id
        }),
{
    crate::assoc::lemma_lookup_assigned(pending.answers, question_id, seq![value], question_id);
    crate::assoc::lemma_lookup_assigned(pending.answers, question_id, seq![value], other);
}

/// A request waits on until each of its questions has an answer, and other
/// requests are not touched.
pub proof fn law_requests_wait_for_all_answers(
    list: Seq<(Seq<char>, PendingView)>,
    request_id: Seq<char>,
    pending: PendingView,
    question_id: Seq<char>,
    value: Seq<char>,
    other: Seq<char>,
)
    requires
        distinct(list),
    ensures
        ({
            let after = pending.answered(question_id, value);
            let open = exists|i: int|
                0 <= i < questions_of(after.request).len() && !has_entry(
                    after.answers,
                    (#[trigger] questions_of(after.request)[i]).id,
                );
            let next = after_answer(list, request_id, pending, question_id, value);
            &&& lookup(next, request_id) == if open {
                Some(after)
            } else {
                None
            }
            &&& other != request_id ==> lookup(next, other) == lookup(list, other)
        }),
{
    let after = pending.answered(question_id, value);
    crate::assoc::lemma_lookup_assigned(list, request_id, after, request_id);
    crate::assoc::lemma_lookup_assigned(list, request_id, after, other);
    crate::assoc::lemma_lookup_erased(list, request_id, request_id);
    crate::assoc::lemma_lookup_erased(list, request_id, other);
}

/// The response to a finished request holds the last answer and all earlier
/// ones.
pub proof fn law_the_response_holds_all_answers(
    result: UserInputAnswerResult,
    request_id: Seq<char>,
    pending: PendingView,
    question_id: Seq<char>,
    value: Seq<char>,
    other: Seq<char>,
)
    requires
        result.is_of(request_id, Some(pending), question_id, value),
        result matches UserInputAnswerResult::Accepted { response, .. } && response is Some,
    ensures
        ({
            let given = answers_of(result->response->0.answers);
            &&& lookup(given, question_id) == Some(seq![value])
            &&& other != question_id ==> lookup(given, other) == lookup(pending.answers, other)
            &&& forall|i: int|
                0 <= i < questions_of(pending.request).len() ==> has_entry(
                    given,
                    (#[trigger] questions_of(pending.request)[i]).id,
                )
        }),
{
    law_answers_are_noted(pending, question_id, value, other);
}

proof fn lemma_asked_at(list: Seq<(Seq<char>, PendingView)>, source: MessageSource)
    ensures
        0 <= asked_at(list, source) <= list.len(),
        asked_at(list, source) < list.len() ==> list[asked_at(list, source)].1.source is Some
            && same_source(list[asked_at(list, source)].1.source->0, source),
        forall|k: int|
            0 <= k < asked_at(list, source) ==> !((#[trigger] list[k]).1.source is Some
                && same_source(list[k].1.source->0, source)),
    decreases list.len(),
{
    if list.len() > 0 && !(list[0].1.source is Some && same_source(
        list[0].1.source->0,
        source,
    )) {
        let rest = list.skip(1);
        lemma_asked_at(rest, source);
        assert forall|k: int| 0 <= k < asked_at(list, source) implies !((
        #[trigger] list[k]).1.source is Some && same_source(list[k].1.source->0, source)) by {
            if k > 0 {
                assert(rest[k - 1] == list[k]);
            }
        }
    }
}

/// A text answers a request only where it was asked: in the same channel and
/// conversation, by the same user. It answers the first question that is open.
pub proof fn law_texts_answer_where_they_were_asked(
    list: Seq<(Seq<char>, PendingView)>,
    source: MessageSource,
)
    requires
        open_question(list, source) is Some,
    ensures
        ({
            let (id, p, question_id) = open_question(list, source)->0;
            &&& list.contains((id, p))
            &&& p.source is Some
            &&& p.source->0.channel_name@ == source.channel_name@
            &&& p.source->0.chat_id@ == source.chat_id@
            &&& opt_text(p.source->0.user_id) == opt_text(source.user_id)
            &&& !has_entry(p.answers, question_id)
            &&& exists|k: int|
                {
                    &&& 0 <= k < questions_of(p.request).len()
                    &&& (#[trigger] questions_of(p.request)[k]).id == question_id
                    &&& forall|j: int| 0 <= j < k ==> has_entry(
                        p.answers,
                        (#[trigger] questions_of(p.request)[j]).id,
                    )
                }
        }),
{
    let i = asked_at(list, source);
    lemma_asked_at(list, source);
    let (id, p) = list[i];
    lemma_first_open(questions_of(p.request), p.answers);
    assert(list[i] == (id, p));
    let open = first_open(questions_of(p.request), p.answers);
    let (_id, _p, question_id) = open_question(list, source)->0;
    assert(questions_of(p.request)[open].id == question_id);
}

/// Where the only request that was asked at a source has an open question, a
/// text from there answers it.
pub proof fn law_open_requests_take_texts(
    list: Seq<(Seq<char>, PendingView)>,
    source: MessageSource,
    i: int,
    k: int,
)
    requires
        0 <= i < list.len(),
        list[i].1.source == Some(source),
        0 <= k < questions_of(list[i].1.request).len(),
        !has_entry(list[i].1.answers, questions_of(list[i].1.request)[k].id),
        forall|j: int|
            0 <= j < list.len() && j != i ==> !((#[trigger] list[j]).1.source is Some
                && list[j].1.source->0.chat_id@ == source.chat_id@),
    ensures
        ({
            let (id, _p, _question) = open_question(list, source)->0;
            open_question(list, source) is Some && id == list[i].0
        }),
{
    lemma_asked_at(list, source);
    let a = asked_at(list, source);
    if a > i {
        assert(!(list[i].1.source is Some && same_source(list[i].1.source->0, source)));
    }
    lemma_first_open(questions_of(list[i].1.request), list[i].1.answers);
}

} // verus!
