//! Questions to QQ users that wait for answers.

use crate::assoc::{
    assign, at, distinct, erase, has_entry, lemma_assign_distinct, lemma_at, lemma_at_is,
    lemma_erase_distinct, lemma_lookup_assigned, lemma_lookup_erased, lemma_same_keys, lookup,
    Assoc,
};
use crate::channel::user_input::{
    all_answered, answer_open_questions, lemma_first_open, next_unanswered, resolved, set_answer,
    WaitingView,
};
use crate::error::{AppError, AppResult, ErrorView};
use crate::json::{fields, json_text, lemma_with, trees, Fields, Json, Tree};
use crate::message::{
    answers_of, questions_of, Answers, QuestionView, UserInputRequest, UserInputResponse,
};
use crate::numbers::{dec, decimal_usize, parse_unsigned, parsed};
use crate::text::{
    chars_of, join, join_strings, lemma_joined_part, lemma_occurs_between, lemma_occurs_within,
    occurs, occurs_at, same_text, texts,
};
use vstd::prelude::*;

verus! {

/// A request that waits for answers.
pub struct QqPendingUserInput {
    /// The questions.
    pub request: UserInputRequest,
    /// The answers so far.
    pub answers: Answers,
}

impl View for QqPendingUserInput {
    type V = WaitingView;

    open spec fn view(&self) -> WaitingView {
        WaitingView { request: self.request, answers: answers_of(self.answers) }
    }
}

/// What came of an answer.
pub enum QqAnswer {
    /// No request waits for it.
    Missing,
    /// It was noted; other questions are open.
    Noted,
    /// It was the last one: these are all answers.
    Finished(UserInputResponse),
}

/// The waiting requests after an answer; answers that nothing waits for change
/// nothing.
pub open spec fn after_answer(
    list: Seq<(Seq<char>, WaitingView)>,
    request_id: Seq<char>,
    question_id: Seq<char>,
    value: Seq<char>,
) -> Seq<(Seq<char>, WaitingView)> {
    match lookup(list, request_id) {
        Some(p) => {
            let answers = assign(p.answers, question_id, seq![value]);
            if all_answered(questions_of(p.request), answers) {
                erase(list, request_id)
            } else {
                assign(list, request_id, WaitingView { answers, ..p })
            }
        },
        None => list,
    }
}

impl QqAnswer {
    /// Whether this is what comes of an answer.
    pub open spec fn is_of(
        self,
        list: Seq<(Seq<char>, WaitingView)>,
        request_id: Seq<char>,
        question_id: Seq<char>,
        value: Seq<char>,
    ) -> bool {
        match lookup(list, request_id) {
            Some(p) => {
                let answers = assign(p.answers, question_id, seq![value]);
                if all_answered(questions_of(p.request), answers) {
                    self is Finished && answers_of(self->Finished_0.answers) == answers
                } else {
                    self is Noted
                }
            },
            None => self is Missing,
        }
    }
}

/// Requests that wait for answers, by request id.
pub struct QqPendingUserInputs {
    items: Assoc<QqPendingUserInput>,
}

impl View for QqPendingUserInputs {
    type V = Seq<(Seq<char>, WaitingView)>;

    closed spec fn view(&self) -> Seq<(Seq<char>, WaitingView)> {
        Seq::new(self.items@.len(), |i: int| (self.items@[i].0, self.items@[i].1@))
    }
}

impl QqPendingUserInputs {
    /// No request id occurs twice.
    pub open spec fn wf(self) -> bool {
        distinct(self@)
    }

    proof fn lemma_entries(self, key: Seq<char>)
        ensures
            has_entry(self.items@, key) == has_entry(self@, key),
            at(self.items@, key) == at(self@, key),
            0 <= at(self@, key) <= self@.len(),
            lookup(self@, key) == match lookup(self.items@, key) {
                Some(p) => Some(p@),
                None => None,
            },
            distinct(self@) == distinct(self.items@),
    {
        lemma_same_keys(self.items@, self@, key);
        lemma_at(self.items@, key);
        let a = self@;
        let b = self.items@;
        assert(a.len() == b.len());
        assert(forall|i: int| 0 <= i < a.len() ==> (#[trigger] a[i]).0 == b[i].0);
        assert(forall|i: int| 0 <= i < a.len() ==> (#[trigger] b[i]).0 == a[i].0);
    }

    /// No requests.
    pub fn new() -> (r: Self)
        ensures
            r.wf(),
            r@ == Seq::<(Seq<char>, WaitingView)>::empty(),
    {
        let r = QqPendingUserInputs { items: Assoc::new() };
        assert(r@ =~= Seq::<(Seq<char>, WaitingView)>::empty());
        r
    }

    /// The number of waiting requests.
    pub fn len(&self) -> (r: usize)
        ensures
            r == self@.len(),
    {
        self.items.len()
    }

    /// Adds a request that nobody has answered yet.
    pub fn insert(&mut self, request_id: String, request: UserInputRequest)
        requires
            old(self).wf(),
        ensures
            final(self).wf(),
            final(self)@ == assign(
                old(self)@,
                request_id@,
                WaitingView { request, answers: Seq::empty() },
            ),
    {
        let ghost before = *self;
        let ghost key = request_id@;
        proof {
            before.lemma_entries(key);
        }
        let pending = QqPendingUserInput { request, answers: Answers::new() };
        assert(answers_of(pending.answers) =~= Seq::empty());
        let ghost view = pending@;
        self.items.insert(request_id, pending);
        assert(self@ =~= assign(before@, key, view));
        proof {
            self.lemma_entries(key);
        }
    }

    /// Removes a request.
    pub fn remove(&mut self, request_id: &str)
        requires
            old(self).wf(),
        ensures
            final(self).wf(),
            final(self)@ == erase(old(self)@, request_id@),
    {
        let ghost before = *self;
        proof {
            before.lemma_entries(request_id@);
        }
        self.items.remove(request_id);
        assert(self@ =~= erase(before@, request_id@));
        proof {
            self.lemma_entries(request_id@);
        }
    }

    /// Removes all requests.
    pub fn clear(&mut self)
        requires
            old(self).wf(),
        ensures
            final(self).wf(),
            final(self)@ == Seq::<(Seq<char>, WaitingView)>::empty(),
    {
        self.items.clear();
        assert(self@ =~= Seq::<(Seq<char>, WaitingView)>::empty());
    }

    /// Takes an answer to a question. A request whose questions are all
    /// answered stops waiting.
    pub fn answer(&mut self, request_id: &str, question_id: &str, value: String) -> (r: QqAnswer)
        requires
            old(self).wf(),
        ensures
            final(self).wf(),
            r.is_of(old(self)@, request_id@, question_id@, value@),
            final(self)@ == after_answer(old(self)@, request_id@, question_id@, value@),
    {
        let ghost before = *self;
        proof {
            before.lemma_entries(request_id@);
            lemma_at(before.items@, request_id@);
            lemma_at(before@, request_id@);
        }
        let i: usize = self.items.position(request_id);
        if i >= self.items.len() {
            return QqAnswer::Missing;
        }
        let ghost view = before@[i as int].1;
        let ghost answers = assign(view.answers, question_id@, seq![value@]);
        let ghost after = WaitingView { answers, ..view };
        let pending = self.items.value_mut(i);
        set_answer(&mut pending.answers, question_id, value);
        assert(pending@ == after);
        let ghost middle = *self;
        assert(middle@ =~= assign(before@, request_id@, after));
        proof {
            lemma_assign_distinct(before@, request_id@, after);
            middle.lemma_entries(request_id@);
            lemma_lookup_assigned(before@, request_id@, after, request_id@);
            lemma_first_open(questions_of(view.request), answers);
        }
        let waiting = self.items.value_at(i);
        if next_unanswered(&waiting.request, &waiting.answers) < waiting.request.questions.len() {
            return QqAnswer::Noted;
        }
        let removed = self.items.remove(request_id);
        assert(self@ =~= erase(before@, request_id@)) by {
            lemma_at(middle@, request_id@);
            lemma_at_is(middle@, request_id@, at(before@, request_id@));
        }
        proof {
            lemma_erase_distinct(before@, request_id@);
        }
        match removed {
            Some(done) => QqAnswer::Finished(UserInputResponse { answers: done.answers }),
            None => QqAnswer::Missing,
        }
    }

    /// Settles a request without the user: each open question is answered with
    /// its first choice.
    pub fn auto_resolve(&mut self, request_id: &str) -> (r: AppResult<UserInputResponse>)
        requires
            old(self).wf(),
        ensures
            final(self).wf(),
            final(self)@ == erase(old(self)@, request_id@),
            match lookup(old(self)@, request_id@) {
                Some(p) => r is Ok && answers_of(r->Ok_0.answers) == resolved(
                    p.answers,
                    questions_of(p.request),
                ),
                None => r is Err && r->Err_0@ == ErrorView::Channel(
                    "qq user input request is missing"@,
                ),
            },
    {
        let ghost before = *self;
        proof {
            before.lemma_entries(request_id@);
            lemma_erase_distinct(before@, request_id@);
        }
        let removed = self.items.remove(request_id);
        assert(self@ =~= erase(before@, request_id@));
        match removed {
            Some(p) => Ok(
                UserInputResponse { answers: answer_open_questions(p.answers, &p.request) },
            ),
            None => Err(AppError::channel("qq user input request is missing")),
        }
    }
}

/// What a button stands for.
#[derive(Debug, Clone, PartialEq, Eq)]
pub struct QqUserInputButtonData {
    /// The mark of the application's own buttons.
    pub llm_loop: String,
    /// The request.
    pub request_id: String,
    /// The question.
    pub question_id: String,
    /// The answer.
    pub answer: String,
}

/// The mark of buttons that answer questions.
pub open spec fn is_own_button(button: QqUserInputButtonData) -> bool {
    button.llm_loop@ == "request_user_input"@
}

/// What a pressed button comes to: the code that the platform is answered, and
/// all answers where it was the last one.
pub struct InteractionResult {
    /// The code.
    pub code: i64,
    /// All answers.
    pub response: Option<UserInputResponse>,
}

/// Handles a button that was pressed, given what it stands for. The platform is
/// answered 0 for an answer that was taken, 3 for one that nothing waits for,
/// and 1 for a button that is not understood.
pub fn handle_qq_interaction(
    button: Option<&QqUserInputButtonData>,
    user_inputs: &mut QqPendingUserInputs,
) -> (r: InteractionResult)
    requires
        old(user_inputs).wf(),
    ensures
        final(user_inputs).wf(),
        match button {
            Some(b) if is_own_button(*b) => {
                let list = old(user_inputs)@;
                &&& final(user_inputs)@ == after_answer(
                    list,
                    b.request_id@,
                    b.question_id@,
                    b.answer@,
                )
                &&& match lookup(list, b.request_id@) {
                    Some(p) => {
                        let answers = assign(p.answers, b.question_id@, seq![b.answer@]);
                        &&& r.code == 0
                        &&& if all_answered(questions_of(p.request), answers) {
                            r.response is Some && answers_of(r.response->0.answers) == answers
                        } else {
                            r.response is None
                        }
                    },
                    None => r.code == 3 && r.response is None,
                }
            },
            _ => {
                &&& r.code == 1
                &&& r.response is None
                &&& final(user_inputs)@ == old(user_inputs)@
            },
        },
{
    let own = match button {
        Some(b) => if same_text(b.llm_loop.as_str(), "request_user_input") {
            b
        } else {
            return InteractionResult { code: 1, response: None };
        },
        None => return InteractionResult { code: 1, response: None },
    };
    match user_inputs.answer(
        own.request_id.as_str(),
        own.question_id.as_str(),
        own.answer.clone(),
    ) {
        QqAnswer::Missing => InteractionResult { code: 3, response: None },
        QqAnswer::Noted => InteractionResult { code: 0, response: None },
        QqAnswer::Finished(response) => InteractionResult { code: 0, response: Some(response) },
    }
}

/// The JSON text of a string.
pub open spec fn quoted_text(s: Seq<char>) -> Seq<char> {
    json_text(Tree::Text(s))
}

fn quoted(s: &str) -> (r: String)
    ensures
        r@ == quoted_text(s@),
{
    Json::text(s).render()
}

/// The data of a button, as JSON.
pub open spec fn button_data(
    request_id: Seq<char>,
    question_id: Seq<char>,
    answer: Seq<char>,
) -> Seq<char> {
    "{\"llm_loop\":\"request_user_input\",\"request_id\":"@ + quoted_text(request_id)
        + ",\"question_id\":"@ + quoted_text(question_id) + ",\"answer\":"@ + quoted_text(answer)
        + "}"@
}

fn button_text(request_id: &str, question_id: &str, answer: &str) -> (r: String)
    ensures
        r@ == button_data(request_id@, question_id@, answer@),
{
    let mut out = String::from_str("{\"llm_loop\":\"request_user_input\",\"request_id\":");
    out.append(quoted(request_id).as_str());
    out.append(",\"question_id\":");
    out.append(quoted(question_id).as_str());
    out.append(",\"answer\":");
    out.append(quoted(answer).as_str());
    out.append("}");
    out
}

/// The button for one choice.
pub open spec fn choice_button(
    request_id: Seq<char>,
    question_id: Seq<char>,
    label: Seq<char>,
) -> Tree {
    let shown = fields().text("label"@, label).text("visited_label"@, "已选 "@ + label).with(
        "style"@,
        Tree::Number("1"@),
    ).tree();
    let permission = fields().with("type"@, Tree::Number("2"@)).tree();
    let action = fields().with("type"@, Tree::Number("1"@)).with("permission"@, permission).text(
        "data"@,
        button_data(request_id, question_id, label),
    ).text("unsupport_tips"@, "当前客户端不支持按钮，请直接回复文字。"@).tree();
    fields().text("id"@, question_id + ":"@ + label).with("render_data"@, shown).with(
        "action"@,
        action,
    ).tree()
}

fn choice_button_json(request_id: &str, question_id: &str, label: &str) -> (r: Json)
    ensures
        r@ == choice_button(request_id@, question_id@, label@),
{
    let mut visited = String::from_str("已选 ");
    visited.append(label);
    let shown = Fields::new().text("label", label).text("visited_label", visited.as_str()).with(
        "style",
        Json::Number(String::from_str("1")),
    ).object();
    let permission = Fields::new().with("type", Json::Number(String::from_str("2"))).object();
    let data = button_text(request_id, question_id, label);
    let action = Fields::new().with("type", Json::Number(String::from_str("1"))).with(
        "permission",
        permission,
    ).text("data", data.as_str()).text(
        "unsupport_tips",
        "当前客户端不支持按钮，请直接回复文字。",
    ).object();
    let mut id = String::from_str(question_id);
    id.append(":");
    id.append(label);
    Fields::new().text("id", id.as_str()).with("render_data", shown).with("action", action).object()
}

/// The buttons of a question.
pub open spec fn question_buttons(request_id: Seq<char>, question: QuestionView) -> Seq<Tree> {
    Seq::new(
        question.labels.len(),
        |i: int| choice_button(request_id, question.id, question.labels[i]),
    )
}

/// The rows of the keyboard: one for each question that has choices.
pub open spec fn button_rows(request_id: Seq<char>, questions: Seq<QuestionView>) -> Seq<Tree>
    decreases questions.len(),
{
    if questions.len() == 0 {
        Seq::empty()
    } else {
        let before = button_rows(request_id, questions.drop_last());
        let last = questions.last();
        if last.labels.len() == 0 {
            before
        } else {
            before.push(
                fields().with("buttons"@, Tree::List(question_buttons(request_id, last))).tree(),
            )
        }
    }
}

/// The id of the application as a number, or zero.
pub open spec fn app_number(app_id: Seq<char>) -> nat {
    match parsed(app_id, u64::MAX as nat) {
        Some(n) => n,
        None => 0,
    }
}

/// The keyboard that asks questions.
pub open spec fn qq_keyboard(
    app_id: Seq<char>,
    request_id: Seq<char>,
    questions: Seq<QuestionView>,
) -> Tree {
    let content = fields().with("rows"@, Tree::List(button_rows(request_id, questions))).with(
        "bot_appid"@,
        Tree::Number(dec(app_number(app_id))),
    ).tree();
    fields().with("content"@, content).tree()
}

/// Makes the keyboard that asks questions.
pub fn build_qq_user_input_keyboard(
    app_id: &str,
    request_id: &str,
    request: &UserInputRequest,
) -> (r: Json)
    ensures
        r@ == qq_keyboard(app_id@, request_id@, questions_of(*request)),
{
    let ghost all = questions_of(*request);
    let mut rows: Vec<Json> = Vec::new();
    let mut q: usize = 0;
    assert(all.take(0) =~= Seq::<QuestionView>::empty());
    assert(trees(rows@) =~= Seq::<Tree>::empty());
    while q < request.questions.len()
        invariant
            q <= request.questions@.len(),
            all == questions_of(*request),
            trees(rows@) == button_rows(request_id@, all.take(q as int)),
        decreases request.questions@.len() - q,
    {
        let question = &request.questions[q];
        let ghost view = all[q as int];
        let ghost wanted = question_buttons(request_id@, view);
        let mut buttons: Vec<Json> = Vec::new();
        let mut o: usize = 0;
        while o < question.options.len()
            invariant
                o <= question.options@.len(),
                view == question@,
                wanted == question_buttons(request_id@, view),
                buttons@.len() == o,
                forall|k: int| 0 <= k < o ==> (#[trigger] buttons@[k])@ == wanted[k],
            decreases question.options@.len() - o,
        {
            assert(view.labels[o as int] == question.options@[o as int].label@);
            let button = choice_button_json(
                request_id,
                question.id.as_str(),
                question.options[o].label.as_str(),
            );
            assert(button@ == wanted[o as int]);
            buttons.push(button);
            o += 1;
        }
        assert(trees(buttons@) =~= wanted);
        assert(all.take(q + 1).drop_last() =~= all.take(q as int));
        assert(all.take(q + 1).last() == view);
        if buttons.len() > 0 {
            let ghost before = trees(rows@);
            let row = Fields::new().with("buttons", Json::list(buttons)).object();
            rows.push(row);
            assert(trees(rows@) =~= before.push(row@));
        }
        q += 1;
    }
    assert(all.take(all.len() as int) =~= all);
    let cs = chars_of(app_id);
    let number = match parse_unsigned(&cs, u64::MAX as u128) {
        Some(n) => n,
        None => 0,
    };
    let content = Fields::new().with("rows", Json::list(rows)).with(
        "bot_appid",
        Json::Number(crate::numbers::decimal(number)),
    ).object();
    Fields::new().with("content", content).object()
}

/// The labels of a question's choices, as code.
pub open spec fn code_labels(labels: Seq<Seq<char>>) -> Seq<Seq<char>> {
    Seq::new(labels.len(), |i: int| "`"@ + labels[i] + "`"@)
}

/// The lines about the question with the given number: the question, its
/// choices where it has any, and an empty line.
pub open spec fn question_lines(number: nat, question: QuestionView) -> Seq<Seq<char>> {
    let title = dec(number) + ". **"@ + question.header + "** "@ + question.question;
    let choices = join(code_labels(question.labels), " / "@);
    let asked = Seq::<Seq<char>>::empty().push(title);
    let listed = if choices.len() == 0 {
        asked
    } else {
        asked.push("可选："@ + choices)
    };
    listed.push(Seq::empty())
}

/// The lines about all questions.
pub open spec fn all_question_lines(questions: Seq<QuestionView>) -> Seq<Seq<char>>
    decreases questions.len(),
{
    if questions.len() == 0 {
        Seq::<Seq<char>>::empty().push("**需要你确认**"@).push(Seq::empty())
    } else {
        all_question_lines(questions.drop_last()) + question_lines(
            questions.len(),
            questions.last(),
        )
    }
}

/// The Markdown that asks questions.
pub open spec fn question_markdown(questions: Seq<QuestionView>) -> Seq<char> {
    join(all_question_lines(questions).push("请选择下面的按钮。"@), "\n"@)
}

/// Writes the Markdown that asks questions.
pub fn build_qq_user_input_markdown(request: &UserInputRequest) -> (r: String)
    ensures
        r@ == question_markdown(questions_of(*request)),
{
    let ghost all = questions_of(*request);
    let mut lines: Vec<String> = Vec::new();
    lines.push(String::from_str("**需要你确认**"));
    lines.push(String::new());
    let mut q: usize = 0;
    assert(all.take(0) =~= Seq::<QuestionView>::empty());
    assert(lines@[1]@ =~= Seq::<char>::empty());
    assert(texts(lines@) =~= all_question_lines(all.take(0)));
    while q < request.questions.len()
        invariant
            q <= request.questions@.len(),
            all == questions_of(*request),
            texts(lines@) == all_question_lines(all.take(q as int)),
        decreases request.questions@.len() - q,
    {
        let question = &request.questions[q];
        let ghost view = all[q as int];
        let ghost before = texts(lines@);
        let number: usize = q + 1;
        let mut title = decimal_usize(number);
        title.append(". **");
        title.append(question.header.as_str());
        title.append("** ");
        title.append(question.question.as_str());
        let ghost shown_title = title@;
        lines.push(title);
        assert(texts(lines@) =~= before.push(shown_title));
        let mut labels: Vec<String> = Vec::new();
        let mut o: usize = 0;
        while o < question.options.len()
            invariant
                o <= question.options@.len(),
                view == question@,
                labels@.len() == o,
                forall|k: int|
                    0 <= k < o ==> (#[trigger] labels@[k])@ == code_labels(view.labels)[k],
            decreases question.options@.len() - o,
        {
            let mut label = String::from_str("`");
            label.append(question.options[o].label.as_str());
            label.append("`");
            assert(label@ == code_labels(view.labels)[o as int]);
            labels.push(label);
            o += 1;
        }
        assert(texts(labels@) =~= code_labels(view.labels));
        let choices = join_strings(&labels, " / ");
        let ghost middle = texts(lines@);
        if !choices.as_str().is_empty() {
            let mut line = String::from_str("可选：");
            line.append(choices.as_str());
            let ghost shown = line@;
            lines.push(line);
            assert(texts(lines@) =~= middle.push(shown));
        }
        let ghost listed = texts(lines@);
        let empty = String::new();
        assert(empty@ =~= Seq::<char>::empty());
        lines.push(empty);
        assert(texts(lines@) =~= listed.push(Seq::<char>::empty()));
        assert(all.take(q + 1).drop_last() =~= all.take(q as int));
        assert(all.take(q + 1).last() == view);
        assert(texts(lines@) =~= before + question_lines((q + 1) as nat, view));
        q += 1;
    }
    assert(all.take(all.len() as int) =~= all);
    let ghost before = texts(lines@);
    lines.push(String::from_str("请选择下面的按钮。"));
    assert(texts(lines@) =~= before.push("请选择下面的按钮。"@));
    join_strings(&lines, "\n")
}

/// A request whose questions are all answered stops waiting: what comes for it
/// later is answered with code 3.
pub proof fn law_finished_request_is_gone(
    list: Seq<(Seq<char>, WaitingView)>,
    request_id: Seq<char>,
    question_id: Seq<char>,
    value: Seq<char>,
)
    requires
        distinct(list),
        lookup(list, request_id) is Some,
        all_answered(
            questions_of(lookup(list, request_id)->0.request),
            assign(lookup(list, request_id)->0.answers, question_id, seq![value]),
        ),
    ensures
        lookup(after_answer(list, request_id, question_id, value), request_id) is None,
{
    lemma_lookup_erased(list, request_id, request_id);
}

/// An answer is noted under its question; a request waits on until each of its
/// questions has an answer, and other requests are not touched.
pub proof fn law_requests_wait_for_all_answers(
    list: Seq<(Seq<char>, WaitingView)>,
    request_id: Seq<char>,
    question_id: Seq<char>,
    value: Seq<char>,
    other: Seq<char>,
)
    requires
        distinct(list),
        lookup(list, request_id) is Some,
    ensures
        ({
            let before = lookup(list, request_id)->0;
            let next = after_answer(list, request_id, question_id, value);
            let questions = questions_of(before.request);
            let last = forall|i: int|
                0 <= i < questions.len() ==> (#[trigger] questions[i]).id == question_id
                    || has_entry(before.answers, questions[i].id);
            &&& last ==> lookup(next, request_id) is None
            &&& !last ==> lookup(next, request_id) is Some && lookup(
                lookup(next, request_id)->0.answers,
                question_id,
            ) == Some(seq![value])
            &&& other != request_id ==> lookup(next, other) == lookup(list, other)
        }),
{
    let before = lookup(list, request_id)->0;
    let answers = assign(before.answers, question_id, seq![value]);
    let questions = questions_of(before.request);
    let after = WaitingView { answers, ..before };
    crate::assoc::lemma_lookup_assigned(list, request_id, after, request_id);
    crate::assoc::lemma_lookup_assigned(list, request_id, after, other);
    crate::assoc::lemma_lookup_erased(list, request_id, request_id);
    crate::assoc::lemma_lookup_erased(list, request_id, other);
    crate::assoc::lemma_lookup_assigned(before.answers, question_id, seq![value], question_id);
    assert forall|i: int| 0 <= i < questions.len() implies has_entry(
        answers,
        (#[trigger] questions[i]).id,
    ) == (questions[i].id == question_id || has_entry(before.answers, questions[i].id)) by {
        crate::assoc::lemma_lookup_assigned(
            before.answers,
            question_id,
            seq![value],
            questions[i].id,
        );
    }
}

/// The response to a finished request holds the last answer and all earlier
/// ones.
pub proof fn law_the_response_holds_all_answers(
    result: QqAnswer,
    list: Seq<(Seq<char>, WaitingView)>,
    request_id: Seq<char>,
    question_id: Seq<char>,
    value: Seq<char>,
    other: Seq<char>,
)
    requires
        result.is_of(list, request_id, question_id, value),
        result is Finished,
    ensures
        lookup(list, request_id) is Some,
        lookup(answers_of(result->Finished_0.answers), question_id) == Some(seq![value]),
        other != question_id ==> lookup(answers_of(result->Finished_0.answers), other) == lookup(
            lookup(list, request_id)->0.answers,
            other,
        ),
{
    let before = lookup(list, request_id)->0;
    crate::assoc::lemma_lookup_assigned(before.answers, question_id, seq![value], question_id);
    crate::assoc::lemma_lookup_assigned(before.answers, question_id, seq![value], other);
}

/// The Markdown that asks questions holds every question with its header.
pub proof fn law_every_question_is_asked(questions: Seq<QuestionView>, i: int)
    requires
        0 <= i < questions.len(),
    ensures
        occurs(questions[i].header, question_markdown(questions)),
        occurs(questions[i].question, question_markdown(questions)),
        forall|j: int|
            0 <= j < questions[i].labels.len() ==> occurs(
                #[trigger] questions[i].labels[j],
                question_markdown(questions),
            ),
{
    let q = questions[i];
    let whole = question_markdown(questions);
    let number = (i + 1) as nat;
    let all = all_question_lines(questions).push("请选择下面的按钮。"@);
    let at = lemma_question_place(questions, i);
    let asked = question_lines(number, q);
    let title = dec(number) + ". **"@ + q.header + "** "@ + q.question;
    assert(all[at] == asked[0]);
    lemma_joined_part(all, "\n"@, at);
    assert(title =~= (dec(number) + ". **"@) + q.header + ("** "@ + q.question));
    lemma_occurs_between(dec(number) + ". **"@, q.header, "** "@ + q.question);
    lemma_occurs_within(q.header, title, whole);
    assert(title =~= (dec(number) + ". **"@ + q.header + "** "@) + q.question + Seq::empty());
    lemma_occurs_between(dec(number) + ". **"@ + q.header + "** "@, q.question, Seq::empty());
    lemma_occurs_within(q.question, title, whole);
    let choices = join(code_labels(q.labels), " / "@);
    assert forall|j: int| 0 <= j < q.labels.len() implies occurs(
        #[trigger] q.labels[j],
        whole,
    ) by {
        let shown = code_labels(q.labels)[j];
        lemma_joined_part(code_labels(q.labels), " / "@, j);
        reveal_strlit("`");
        lemma_occurs_between("`"@, q.labels[j], "`"@);
        assert(shown.len() > 0);
        let k = choose|k: int| occurs_at(shown, choices, k);
        assert(choices.len() > 0);
        let line = "可选："@ + choices;
        assert(asked[1] == line);
        assert(all[at + 1] == line);
        lemma_joined_part(all, "\n"@, at + 1);
        assert(line =~= "可选："@ + choices + Seq::empty());
        lemma_occurs_between("可选："@, choices, Seq::empty());
        lemma_occurs_within(choices, line, whole);
        lemma_occurs_within(shown, choices, whole);
        lemma_occurs_within(q.labels[j], shown, whole);
    }
}

proof fn lemma_question_place(questions: Seq<QuestionView>, i: int) -> (at: int)
    requires
        0 <= i < questions.len(),
    ensures
        ({
            let all = all_question_lines(questions);
            let asked = question_lines((i + 1) as nat, questions[i]);
            &&& 0 <= at
            &&& at + asked.len() <= all.len()
            &&& forall|k: int| 0 <= k < asked.len() ==> all[at + k] == #[trigger] asked[k]
        }),
    decreases questions.len(),
{
    let front = questions.drop_last();
    let before = all_question_lines(front);
    if i == questions.len() - 1 {
        before.len() as int
    } else {
        assert(front[i] == questions[i]);
        let at = lemma_question_place(front, i);
        let asked = question_lines((i + 1) as nat, questions[i]);
        assert forall|k: int| 0 <= k < asked.len() implies all_question_lines(questions)[at + k]
            == #[trigger] asked[k] by {
            assert(all_question_lines(questions)[at + k] == before[at + k]);
        }
        at
    }
}

/// Whether `row` holds one button for each choice of a question, in order,
/// which shows the choice and carries it as its data.
pub open spec fn has_buttons_for(
    row: Tree,
    request_id: Seq<char>,
    question: QuestionView,
) -> bool {
    match row.get("buttons"@) {
        Some(Tree::List(buttons)) => {
            &&& buttons.len() == question.labels.len()
            &&& forall|j: int|
                0 <= j < buttons.len() ==> is_button_for(
                    #[trigger] buttons[j],
                    question.labels[j],
                    button_data(request_id, question.id, question.labels[j]),
                )
        },
        _ => false,
    }
}

/// Whether a button shows `label` and sends `data`.
pub open spec fn is_button_for(button: Tree, label: Seq<char>, data: Seq<char>) -> bool {
    &&& button.get("render_data"@) is Some
    &&& button.get("render_data"@)->0.text_field("label"@) == Some(label)
    &&& button.get("action"@) is Some
    &&& button.get("action"@)->0.text_field("data"@) == Some(data)
}

/// Every question with choices has its row of buttons.
pub proof fn law_every_choice_has_a_button(
    request_id: Seq<char>,
    questions: Seq<QuestionView>,
    i: int,
)
    requires
        0 <= i < questions.len(),
        questions[i].labels.len() > 0,
    ensures
        exists|k: int|
            0 <= k < button_rows(request_id, questions).len() && has_buttons_for(
                #[trigger] button_rows(request_id, questions)[k],
                request_id,
                questions[i],
            ),
    decreases questions.len(),
{
    let front = questions.drop_last();
    let before = button_rows(request_id, front);
    let rows = button_rows(request_id, questions);
    if i == questions.len() - 1 {
        let q = questions[i];
        let buttons = question_buttons(request_id, q);
        lemma_with(fields(), "buttons"@, Tree::List(buttons), "buttons"@);
        assert forall|j: int| 0 <= j < buttons.len() implies is_button_for(
            #[trigger] buttons[j],
            q.labels[j],
            button_data(request_id, q.id, q.labels[j]),
        ) by {
            lemma_choice_button(request_id, q.id, q.labels[j]);
        }
        let k = before.len() as int;
        assert(rows[k].get("buttons"@) == Some(Tree::List(buttons)));
        assert(has_buttons_for(rows[k], request_id, q));
    } else {
        assert(front[i] == questions[i]);
        law_every_choice_has_a_button(request_id, front, i);
        let k = choose|k: int|
            0 <= k < before.len() && has_buttons_for(
                #[trigger] before[k],
                request_id,
                questions[i],
            );
        assert(rows[k] == before[k]);
    }
}

proof fn lemma_choice_button(request_id: Seq<char>, question_id: Seq<char>, label: Seq<char>)
    ensures
        is_button_for(
            choice_button(request_id, question_id, label),
            label,
            button_data(request_id, question_id, label),
        ),
{
    reveal_strlit("id");
    reveal_strlit("render_data");
    reveal_strlit("action");
    reveal_strlit("label");
    reveal_strlit("visited_label");
    reveal_strlit("style");
    reveal_strlit("type");
    reveal_strlit("permission");
    reveal_strlit("data");
    reveal_strlit("unsupport_tips");
    assert("id"@.len() == 2 && "render_data"@.len() == 11 && "action"@.len() == 6);
    assert("label"@.len() == 5 && "type"@.len() == 4 && "type"@[0] == 't');
    assert("permission"@.len() == 10 && "data"@.len() == 4 && "data"@[0] == 'd');
    reveal_with_fuel(crate::json::field_of, 5);
    let button = choice_button(request_id, question_id, label);
    let all = button->Object_0;
    assert(all.skip(1)[0] == all[1] && all.skip(1).skip(1)[0] == all[2]);
    let action = all[2].1;
    let parts = action->Object_0;
    assert(parts.skip(1)[0] == parts[1] && parts.skip(1).skip(1)[0] == parts[2]);
    assert(button.get("render_data"@) == Some(all[1].1));
    assert(button.get("action"@) == Some(action));
    assert(action.text_field("data"@) == Some(button_data(request_id, question_id, label)));
}

} // verus!
