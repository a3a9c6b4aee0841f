//! Questions to Telegram users that wait for answers.

use crate::assoc::{
    assign, at, distinct, erase, has_entry, lemma_assign_distinct, lemma_at, lemma_at_is,
    lemma_erase_distinct, lemma_lookup_assigned, lemma_lookup_erased, lemma_same_keys, lookup,
    Assoc,
};
use crate::channel::user_input::{
    all_answered, answer_open_questions, resolved, set_answer, AnswerViews, WaitingView,
};
use crate::error::{AppError, AppResult, ErrorView};
use crate::json::{fields, lemma_with, trees, Fields, Json, Tree};
use crate::message::{
    answers_of, questions_of, Answers, QuestionView, UserInputQuestion, UserInputRequest,
    UserInputResponse,
};
use crate::numbers::{
    dec, decimal_usize, law_decimal_round_trip, lemma_dec_digits, parse_unsigned, parsed,
};
use crate::text::{
    chars_of, is_digit, join, join_strings, lemma_joined_part, lemma_occur_in_turn,
    lemma_occurs_between, lemma_occurs_within, lemma_split_of_join, occurs, same_chars, split_chars, split_on, string_of,
    texts, views,
};
use vstd::prelude::*;

verus! {

/// A request that waits for answers.
pub struct TelegramPendingUserInput {
    /// The questions.
    pub request: UserInputRequest,
    /// The answers so far.
    pub answers: Answers,
}

impl View for TelegramPendingUserInput {
    type V = WaitingView;

    open spec fn view(&self) -> WaitingView {
        WaitingView { request: self.request, answers: answers_of(self.answers) }
    }
}

impl WaitingView {
    /// Whether a button exists.
    pub open spec fn has_choice(self, question: int, option: int) -> bool {
        let questions = questions_of(self.request);
        &&& 0 <= question < questions.len()
        &&& 0 <= option < questions[question].labels.len()
    }

    /// The answers after a button was pressed.
    pub open spec fn chosen(self, question: int, option: int) -> AnswerViews {
        let q = questions_of(self.request)[question];
        assign(self.answers, q.id, seq![q.labels[option]])
    }

    /// Whether there are as many answers as questions.
    pub open spec fn is_complete(self, answers: AnswerViews) -> bool {
        answers.len() >= questions_of(self.request).len()
    }
}

/// Requests that wait for answers, by request id.
pub struct TelegramPendingUserInputs {
    items: Assoc<TelegramPendingUserInput>,
}

impl View for TelegramPendingUserInputs {
    type V = Seq<(Seq<char>, WaitingView)>;

    closed spec fn view(&self) -> Seq<(Seq<char>, WaitingView)> {
        Seq::new(self.items@.len(), |i: int| (self.items@[i].0, self.items@[i].1@))
    }
}

/// The waiting requests after a button was pressed; buttons that do not exist
/// change nothing.
pub open spec fn after_choice(
    list: Seq<(Seq<char>, WaitingView)>,
    request_id: Seq<char>,
    question: int,
    option: int,
) -> Seq<(Seq<char>, WaitingView)> {
    match lookup(list, request_id) {
        Some(p) => if !p.has_choice(question, option) {
            list
        } else if p.is_complete(p.chosen(question, option)) {
            erase(list, request_id)
        } else {
            assign(list, request_id, WaitingView { answers: p.chosen(question, option), ..p })
        },
        None => list,
    }
}

impl TelegramPendingUserInputs {
    /// No request id occurs twice.
    pub open spec fn wf(self) -> bool {
        distinct(self@)
    }

    proof fn lemma_entries(self, key: Seq<char>)
        ensures
            has_entry(self.items@, key) == has_entry(self@, key),
            at(self.items@, key) == at(self@, key),
            0 <= at(self@, key) <= self@.len(),
            lookup(self@, key) == match lookup(self.items@, key) {
                Some(p) => Some(p@),
                None => None,
            },
            distinct(self@) == distinct(self.items@),
    {
        lemma_same_keys(self.items@, self@, key);
        lemma_at(self.items@, key);
        let a = self@;
        let b = self.items@;
        assert(a.len() == b.len());
        assert(forall|i: int| 0 <= i < a.len() ==> (#[trigger] a[i]).0 == b[i].0);
        assert(forall|i: int| 0 <= i < a.len() ==> (#[trigger] b[i]).0 == a[i].0);
    }

    /// No requests.
    pub fn new() -> (r: Self)
        ensures
            r.wf(),
            r@ == Seq::<(Seq<char>, WaitingView)>::empty(),
    {
        let r = TelegramPendingUserInputs { items: Assoc::new() };
        assert(r@ =~= Seq::<(Seq<char>, WaitingView)>::empty());
        r
    }

    /// The number of waiting requests.
    pub fn len(&self) -> (r: usize)
        ensures
            r == self@.len(),
    {
        self.items.len()
    }

    /// Adds a request that nobody has answered yet.
    pub fn insert(&mut self, request_id: String, request: UserInputRequest)
        requires
            old(self).wf(),
        ensures
            final(self).wf(),
            final(self)@ == assign(
                old(self)@,
                request_id@,
                WaitingView { request, answers: Seq::empty() },
            ),
    {
        let ghost before = *self;
        let ghost key = request_id@;
        proof {
            before.lemma_entries(key);
        }
        let pending = TelegramPendingUserInput { request, answers: Answers::new() };
        assert(answers_of(pending.answers) =~= Seq::empty());
        let ghost view = pending@;
        self.items.insert(request_id, pending);
        assert(self@ =~= assign(before@, key, view));
        proof {
            self.lemma_entries(key);
        }
    }

    /// Removes a request.
    pub fn remove(&mut self, request_id: &str)
        requires
            old(self).wf(),
        ensures
            final(self).wf(),
            final(self)@ == erase(old(self)@, request_id@),
    {
        let ghost before = *self;
        proof {
            before.lemma_entries(request_id@);
        }
        self.items.remove(request_id);
        assert(self@ =~= erase(before@, request_id@));
        proof {
            self.lemma_entries(request_id@);
        }
    }

    /// Removes all requests.
    pub fn clear(&mut self)
        requires
            old(self).wf(),
        ensures
            final(self).wf(),
            final(self)@ == Seq::<(Seq<char>, WaitingView)>::empty(),
    {
        self.items.clear();
        assert(self@ =~= Seq::<(Seq<char>, WaitingView)>::empty());
    }

    /// Takes the choice that a button stands for. With as many answers as
    /// questions the request stops waiting, and all answers are returned.
    pub fn answer_callback(
        &mut self,
        request_id: &str,
        question_index: usize,
        option_index: usize,
    ) -> (r: AppResult<Option<UserInputResponse>>)
        requires
            old(self).wf(),
        ensures
            final(self).wf(),
            final(self)@ == after_choice(
                old(self)@,
                request_id@,
                question_index as int,
                option_index as int,
            ),
            match lookup(old(self)@, request_id@) {
                None => r is Ok && r->Ok_0 is None,
                Some(p) => {
                    let questions = questions_of(p.request);
                    if question_index >= questions.len() {
                        r is Err && r->Err_0@ == ErrorView::Channel(
                            "telegram callback question index invalid"@,
                        )
                    } else if option_index >= questions[question_index as int].labels.len() {
                        r is Err && r->Err_0@ == ErrorView::Channel(
                            "telegram callback option index invalid"@,
                        )
                    } else {
                        let answers = p.chosen(question_index as int, option_index as int);
                        if p.is_complete(answers) {
                            &&& r is Ok
                            &&& r->Ok_0 is Some
                            &&& answers_of(r->Ok_0->0.answers) == answers
                        } else {
                            r is Ok && r->Ok_0 is None
                        }
                    }
                },
            },
    {
        let ghost before = *self;
        proof {
            before.lemma_entries(request_id@);
            lemma_at(before.items@, request_id@);
            lemma_at(before@, request_id@);
        }
        let i: usize = self.items.position(request_id);
        if i >= self.items.len() {
            return Ok(None);
        }
        let ghost view = before@[i as int].1;
        let waiting = self.items.value_at(i);
        let asked: usize = waiting.request.questions.len();
        if question_index >= asked {
            return Err(AppError::channel("telegram callback question index invalid"));
        }
        let question = &waiting.request.questions[question_index];
        assert(question@ == questions_of(view.request)[question_index as int]);
        if option_index >= question.options.len() {
            return Err(AppError::channel("telegram callback option index invalid"));
        }
        let question_id = question.id.clone();
        let label = question.options[option_index].label.clone();
        let ghost answers = view.chosen(question_index as int, option_index as int);
        let ghost after = WaitingView { answers, ..view };
        let pending = self.items.value_mut(i);
        set_answer(&mut pending.answers, question_id.as_str(), label);
        assert(pending@ == after);
        let given: usize = pending.answers.len();
        let ghost middle = *self;
        assert(middle@ =~= assign(before@, request_id@, after));
        proof {
            lemma_assign_distinct(before@, request_id@, after);
            middle.lemma_entries(request_id@);
            lemma_lookup_assigned(before@, request_id@, after, request_id@);
        }
        if given < asked {
            return Ok(None);
        }
        let removed = self.items.remove(request_id);
        assert(self@ =~= erase(before@, request_id@)) by {
            lemma_at(middle@, request_id@);
            lemma_at_is(middle@, request_id@, at(before@, request_id@));
        }
        proof {
            lemma_erase_distinct(before@, request_id@);
        }
        match removed {
            Some(done) => Ok(Some(UserInputResponse { answers: done.answers })),
            None => Ok(None),
        }
    }

    /// Settles a request without the user: each open question is answered with
    /// its first choice.
    pub fn auto_resolve(&mut self, request_id: &str) -> (r: AppResult<UserInputResponse>)
        requires
            old(self).wf(),
        ensures
            final(self).wf(),
            final(self)@ == erase(old(self)@, request_id@),
            match lookup(old(self)@, request_id@) {
                Some(p) => r is Ok && answers_of(r->Ok_0.answers) == resolved(
                    p.answers,
                    questions_of(p.request),
                ),
                None => r is Err && r->Err_0@ == ErrorView::Channel(
                    "telegram user input request missing"@,
                ),
            },
    {
        let ghost before = *self;
        proof {
            before.lemma_entries(request_id@);
            lemma_erase_distinct(before@, request_id@);
        }
        let removed = self.items.remove(request_id);
        assert(self@ =~= erase(before@, request_id@));
        match removed {
            Some(p) => Ok(
                UserInputResponse { answers: answer_open_questions(p.answers, &p.request) },
            ),
            None => Err(AppError::channel("telegram user input request missing")),
        }
    }
}

/// The data of a button.
pub open spec fn callback_data(request_id: Seq<char>, question: nat, option: nat) -> Seq<char> {
    "ui:"@ + request_id + ":"@ + dec(question) + ":"@ + dec(option)
}

/// What the data of a button stands for.
pub open spec fn callback_choice(data: Seq<char>) -> Option<(Seq<char>, nat, nat)> {
    let parts = split_on(data, ':');
    if parts.len() >= 4 && parts[0] == "ui"@ {
        match (parsed(parts[2], usize::MAX as nat), parsed(parts[3], usize::MAX as nat)) {
            (Some(question), Some(option)) => Some((parts[1], question, option)),
            _ => None,
        }
    } else {
        None
    }
}

/// What the data of a button stands for.
pub fn parse_user_input_callback(data: &str) -> (r: Option<(String, usize, usize)>)
    ensures
        match r {
            Some((id, question, option)) => callback_choice(data@) == Some(
                (id@, question as nat, option as nat),
            ),
            None => callback_choice(data@) is None,
        },
{
    let cs = chars_of(data);
    let parts = split_chars(&cs, ':');
    let ghost all = views(parts@);
    let ui = chars_of("ui");
    if parts.len() < 4 {
        return None;
    }
    assert(all[0] == parts@[0]@ && all[1] == parts@[1]@ && all[2] == parts@[2]@ && all[3]
        == parts@[3]@);
    if !same_chars(&parts[0], &ui) {
        return None;
    }
    let max: u128 = usize::MAX as u128;
    match (parse_unsigned(&parts[2], max), parse_unsigned(&parts[3], max)) {
        (Some(question), Some(option)) => Some(
            (string_of(&parts[1]), question as usize, option as usize),
        ),
        _ => None,
    }
}

/// The row of the keyboard for one choice.
pub open spec fn choice_row(
    request_id: Seq<char>,
    question: nat,
    option: nat,
    label: Seq<char>,
) -> Tree {
    let button = fields().text("text"@, label).text(
        "callback_data"@,
        callback_data(request_id, question, option),
    ).tree();
    Tree::List(seq![button])
}

/// The rows for the first `count` choices of a question.
pub open spec fn question_rows(
    request_id: Seq<char>,
    question: nat,
    labels: Seq<Seq<char>>,
) -> Seq<Tree> {
    Seq::new(labels.len(), |i: int| choice_row(request_id, question, i as nat, labels[i]))
}

/// The rows of the keyboard, question by question.
pub open spec fn keyboard_rows(request_id: Seq<char>, questions: Seq<QuestionView>) -> Seq<Tree>
    decreases questions.len(),
{
    if questions.len() == 0 {
        Seq::empty()
    } else {
        keyboard_rows(request_id, questions.drop_last()) + question_rows(
            request_id,
            (questions.len() - 1) as nat,
            questions.last().labels,
        )
    }
}

/// The keyboard that asks questions.
pub open spec fn keyboard(request_id: Seq<char>, questions: Seq<QuestionView>) -> Tree {
    fields().with("inline_keyboard"@, Tree::List(keyboard_rows(request_id, questions))).tree()
}

fn callback_text(request_id: &str, question: usize, option: usize) -> (r: String)
    ensures
        r@ == callback_data(request_id@, question as nat, option as nat),
{
    let mut out = String::from_str("ui:");
    out.append(request_id);
    out.append(":");
    out.append(decimal_usize(question).as_str());
    out.append(":");
    out.append(decimal_usize(option).as_str());
    out
}

/// Makes the keyboard that asks questions.
pub fn build_user_input_keyboard(request_id: &str, request: &UserInputRequest) -> (r: Json)
    ensures
        r@ == keyboard(request_id@, questions_of(*request)),
{
    let ghost all = questions_of(*request);
    let mut rows: Vec<Json> = Vec::new();
    let mut q: usize = 0;
    assert(all.take(0) =~= Seq::<QuestionView>::empty());
    assert(trees(rows@) =~= Seq::<Tree>::empty());
    while q < request.questions.len()
        invariant
            q <= request.questions@.len(),
            all == questions_of(*request),
            trees(rows@) == keyboard_rows(request_id@, all.take(q as int)),
        decreases request.questions@.len() - q,
    {
        let question = &request.questions[q];
        let ghost labels = all[q as int].labels;
        let ghost start = trees(rows@);
        let mut o: usize = 0;
        assert(question_rows(request_id@, q as nat, labels).take(0) =~= Seq::<Tree>::empty());
        assert(start + Seq::<Tree>::empty() =~= start);
        while o < question.options.len()
            invariant
                o <= question.options@.len(),
                labels == question@.labels,
                trees(rows@) == start + question_rows(request_id@, q as nat, labels).take(o as int),
            decreases question.options@.len() - o,
        {
            let ghost before = trees(rows@);
            let data = callback_text(request_id, q, o);
            let button = Fields::new().text("text", question.options[o].label.as_str()).text(
                "callback_data",
                data.as_str(),
            ).object();
            let mut row: Vec<Json> = Vec::new();
            row.push(button);
            assert(trees(row@) =~= seq![button@]);
            let line = Json::list(row);
            assert(line@ == question_rows(request_id@, q as nat, labels)[o as int]);
            rows.push(line);
            assert(trees(rows@) =~= before.push(line@));
            assert(question_rows(request_id@, q as nat, labels).take(o + 1) =~= question_rows(
                request_id@,
                q as nat,
                labels,
            ).take(o as int).push(line@));
            assert(trees(rows@) =~= start + question_rows(request_id@, q as nat, labels).take(
                o + 1,
            ));
            o += 1;
        }
        assert(question_rows(request_id@, q as nat, labels).take(labels.len() as int)
            =~= question_rows(request_id@, q as nat, labels));
        assert(all.take(q + 1).drop_last() =~= all.take(q as int));
        assert(all.take(q + 1).last() == all[q as int]);
        q += 1;
    }
    assert(all.take(all.len() as int) =~= all);
    Fields::new().with("inline_keyboard", Json::list(rows)).object()
}

/// The lines that describe the choices of a question.
pub open spec fn choice_lines(question: UserInputQuestion) -> Seq<Seq<char>> {
    Seq::new(
        question.options@.len(),
        |i: int|
            "- "@ + question.options@[i].label@ + "："@ + question.options@[i].description@,
    )
}

/// The text that describes the question with the given number.
pub open spec fn question_text(number: nat, question: UserInputQuestion) -> Seq<char> {
    dec(number) + ". "@ + question.header@ + "\n"@ + question.question@ + "\n"@ + join(
        choice_lines(question),
        "\n"@,
    )
}

/// The texts of all questions, numbered from one.
pub open spec fn question_texts(questions: Seq<UserInputQuestion>) -> Seq<Seq<char>> {
    Seq::new(questions.len(), |i: int| question_text((i + 1) as nat, questions[i]))
}

fn choice_line(label: &str, description: &str) -> (r: String)
    ensures
        r@ == "- "@ + label@ + "："@ + description@,
{
    let mut out = String::from_str("- ");
    out.append(label);
    out.append("：");
    out.append(description);
    out
}

/// Writes the questions as a text.
pub fn build_user_input_text(request: &UserInputRequest) -> (r: String)
    ensures
        r@ == join(question_texts(request.questions@), "\n\n"@),
{
    let ghost all = question_texts(request.questions@);
    let mut parts: Vec<String> = Vec::new();
    let mut i: usize = 0;
    while i < request.questions.len()
        invariant
            i <= request.questions@.len(),
            parts@.len() == i,
            all == question_texts(request.questions@),
            forall|k: int| 0 <= k < i ==> (#[trigger] parts@[k])@ == all[k],
        decreases request.questions@.len() - i,
    {
        let question = &request.questions[i];
        let ghost choices = choice_lines(*question);
        let mut lines: Vec<String> = Vec::new();
        let mut o: usize = 0;
        while o < question.options.len()
            invariant
                o <= question.options@.len(),
                lines@.len() == o,
                choices == choice_lines(*question),
                forall|k: int| 0 <= k < o ==> (#[trigger] lines@[k])@ == choices[k],
            decreases question.options@.len() - o,
        {
            let option = &question.options[o];
            lines.push(choice_line(option.label.as_str(), option.description.as_str()));
            o += 1;
        }
        assert(texts(lines@) =~= choices);
        let number: usize = i + 1;
        let mut out = decimal_usize(number);
        out.append(". ");
        out.append(question.header.as_str());
        out.append("\n");
        out.append(question.question.as_str());
        out.append("\n");
        let listed = join_strings(&lines, "\n");
        out.append(listed.as_str());
        assert(out@ == all[i as int]);
        parts.push(out);
        i += 1;
    }
    assert(texts(parts@) =~= all);
    join_strings(&parts, "\n\n")
}

/// A button leads back to the choice that it was made for.
pub proof fn law_button_leads_to_its_choice(request_id: Seq<char>, question: nat, option: nat)
    requires
        !request_id.contains(':'),
        question <= usize::MAX,
        option <= usize::MAX,
    ensures
        callback_choice(callback_data(request_id, question, option)) == Some(
            (request_id, question, option),
        ),
{
    reveal_strlit("ui");
    reveal_strlit("ui:");
    reveal_strlit(":");
    let parts = seq!["ui"@, request_id, dec(question), dec(option)];
    let data = callback_data(request_id, question, option);
    law_decimal_round_trip(question, usize::MAX as nat);
    law_decimal_round_trip(option, usize::MAX as nat);
    lemma_no_colon(question);
    lemma_no_colon(option);
    assert(!"ui"@.contains(':'));
    assert forall|i: int| 0 <= i < parts.len() implies !(#[trigger] parts[i]).contains(':') by {}
    lemma_split_of_join(parts, ':');
    reveal_with_fuel(join, 5);
    assert(parts.drop_last() =~= seq!["ui"@, request_id, dec(question)]);
    assert(parts.drop_last().drop_last() =~= seq!["ui"@, request_id]);
    assert(parts.drop_last().drop_last().drop_last() =~= seq!["ui"@]);
    assert(data =~= join(parts, seq![':']));
}

proof fn lemma_no_colon(n: nat)
    ensures
        !dec(n).contains(':'),
{
    lemma_dec_digits(n);
    assert forall|i: int| 0 <= i < dec(n).len() implies dec(n)[i] != ':' by {
        assert(is_digit(dec(n)[i]));
    }
}

/// A list that holds as many different keys as there are questions, all of
/// them ids of questions, answers every question.
pub proof fn law_complete_answers_everything(p: WaitingView, answers: AnswerViews)
    requires
        distinct(answers),
        forall|i: int|
            0 <= i < answers.len() ==> exists|q: int|
                0 <= q < questions_of(p.request).len() && questions_of(p.request)[q].id == (
                #[trigger] answers[i]).0,
        p.is_complete(answers),
    ensures
        all_answered(questions_of(p.request), answers),
{
    let questions = questions_of(p.request);
    let keys = Seq::new(answers.len(), |i: int| answers[i].0);
    let ids = Seq::new(questions.len(), |i: int| questions[i].id);
    assert(keys.no_duplicates()) by {
        assert forall|i: int, j: int| 0 <= i < keys.len() && 0 <= j < keys.len() && i != j implies keys[i]
            != keys[j] by {
            assert(answers[i].0 != answers[j].0);
        }
    }
    keys.unique_seq_to_set();
    ids.lemma_cardinality_of_set();
    assert(keys.to_set().subset_of(ids.to_set())) by {
        assert forall|k: Seq<char>| keys.to_set().contains(k) implies ids.to_set().contains(k) by {
            let i = choose|i: int| 0 <= i < keys.len() && keys[i] == k;
            assert(answers[i].0 == k);
            let q = choose|q: int| 0 <= q < questions.len() && questions[q].id == answers[i].0;
            assert(ids[q] == k);
        }
    }
    vstd::set_lib::lemma_len_subset(keys.to_set(), ids.to_set());
    vstd::set_lib::lemma_subset_equality(keys.to_set(), ids.to_set());
    assert forall|q: int| 0 <= q < questions.len() implies has_entry(
        answers,
        (#[trigger] questions[q]).id,
    ) by {
        assert(ids[q] == questions[q].id);
        assert(ids.to_set().contains(ids[q]));
        assert(keys.to_set().contains(ids[q]));
        let i = choose|i: int| 0 <= i < keys.len() && keys[i] == ids[q];
        lemma_at(answers, ids[q]);
        assert(answers[i].0 == ids[q]);
    }
}

/// A request that is complete stops waiting: what comes for it later finds
/// nothing.
pub proof fn law_complete_request_is_gone(
    list: Seq<(Seq<char>, WaitingView)>,
    request_id: Seq<char>,
    question: int,
    option: int,
)
    requires
        distinct(list),
        lookup(list, request_id) is Some,
        lookup(list, request_id)->0.has_choice(question, option),
        lookup(list, request_id)->0.is_complete(lookup(list, request_id)->0.chosen(question, option)),
    ensures
        lookup(after_choice(list, request_id, question, option), request_id) is None,
{
    lemma_lookup_erased(list, request_id, request_id);
}

/// A pressed button answers its question with its label, and the other answers
/// stay.
pub proof fn law_buttons_answer_with_their_label(
    p: WaitingView,
    question: int,
    option: int,
    other: Seq<char>,
)
    requires
        p.has_choice(question, option),
    ensures
        ({
            let q = questions_of(p.request)[question];
            let after = p.chosen(question, option);
            &&& lookup(after, q.id) == Some(seq![q.labels[option]])
            &&& other != q.id ==> lookup(after, other) == lookup(p.answers, other)
        }),
{
    let q = questions_of(p.request)[question];
    crate::assoc::lemma_lookup_assigned(p.answers, q.id, seq![q.labels[option]], q.id);
    crate::assoc::lemma_lookup_assigned(p.answers, q.id, seq![q.labels[option]], other);
}

/// A request with fewer answers than questions waits on with the new answer,
/// and other requests are not touched.
pub proof fn law_open_requests_wait_on(
    list: Seq<(Seq<char>, WaitingView)>,
    request_id: Seq<char>,
    question: int,
    option: int,
    other: Seq<char>,
)
    requires
        distinct(list),
        lookup(list, request_id) is Some,
        lookup(list, request_id)->0.has_choice(question, option),
        lookup(list, request_id)->0.answers.len() + 1 < questions_of(
            lookup(list, request_id)->0.request,
        ).len(),
    ensures
        ({
            let before = lookup(list, request_id)->0;
            let q = questions_of(before.request)[question];
            let next = after_choice(list, request_id, question, option);
            &&& lookup(next, request_id) is Some
            &&& lookup(lookup(next, request_id)->0.answers, q.id) == Some(seq![q.labels[option]])
            &&& other != request_id ==> lookup(next, other) == lookup(list, other)
        }),
{
    let before = lookup(list, request_id)->0;
    let q = questions_of(before.request)[question];
    let after = WaitingView { answers: before.chosen(question, option), ..before };
    crate::assoc::lemma_at(before.answers, q.id);
    crate::assoc::lemma_lookup_assigned(list, request_id, after, request_id);
    crate::assoc::lemma_lookup_assigned(list, request_id, after, other);
    law_buttons_answer_with_their_label(before, question, option, other);
}

proof fn lemma_row_place(
    request_id: Seq<char>,
    questions: Seq<QuestionView>,
    question: int,
    option: int,
) -> (k: int)
    requires
        0 <= question < questions.len(),
        0 <= option < questions[question].labels.len(),
    ensures
        0 <= k < keyboard_rows(request_id, questions).len(),
        keyboard_rows(request_id, questions)[k] == choice_row(
            request_id,
            question as nat,
            option as nat,
            questions[question].labels[option],
        ),
    decreases questions.len(),
{
    let front = questions.drop_last();
    let before = keyboard_rows(request_id, front);
    if question == questions.len() - 1 {
        before.len() + option
    } else {
        assert(front[question] == questions[question]);
        let k = lemma_row_place(request_id, front, question, option);
        assert(keyboard_rows(request_id, questions)[k] == before[k]);
        k
    }
}

/// Whether a row of the keyboard is one button that shows `label` and stands
/// for the given choice.
pub open spec fn is_row_for(
    row: Tree,
    request_id: Seq<char>,
    question: int,
    option: int,
    label: Seq<char>,
) -> bool {
    match row {
        Tree::List(buttons) => {
            &&& buttons.len() == 1
            &&& buttons[0].text_field("text"@) == Some(label)
            &&& buttons[0].text_field("callback_data"@) is Some
            &&& callback_choice(buttons[0].text_field("callback_data"@)->0) == Some(
                (request_id, question as nat, option as nat),
            )
        },
        _ => false,
    }
}

/// Every choice of every question has a button that shows it and leads to it.
pub proof fn law_every_choice_has_a_button(
    request_id: Seq<char>,
    questions: Seq<QuestionView>,
    question: int,
    option: int,
)
    requires
        !request_id.contains(':'),
        0 <= question < questions.len() <= usize::MAX,
        0 <= option < questions[question].labels.len() <= usize::MAX,
    ensures
        keyboard(request_id, questions).get("inline_keyboard"@) == Some(
            Tree::List(keyboard_rows(request_id, questions)),
        ),
        exists|k: int|
            0 <= k < keyboard_rows(request_id, questions).len() && is_row_for(
                #[trigger] keyboard_rows(request_id, questions)[k],
                request_id,
                question,
                option,
                questions[question].labels[option],
            ),
{
    let label = questions[question].labels[option];
    let rows = keyboard_rows(request_id, questions);
    let k = lemma_row_place(request_id, questions, question, option);
    let data = callback_data(request_id, question as nat, option as nat);
    law_button_leads_to_its_choice(request_id, question as nat, option as nat);
    reveal_strlit("text");
    reveal_strlit("callback_data");
    assert("text"@.len() == 4 && "callback_data"@.len() == 13);
    let a = fields();
    let b = a.text("text"@, label);
    lemma_with(a, "text"@, Tree::Text(label), "text"@);
    lemma_with(a, "text"@, Tree::Text(label), "callback_data"@);
    lemma_with(b, "callback_data"@, Tree::Text(data), "text"@);
    lemma_with(b, "callback_data"@, Tree::Text(data), "callback_data"@);
    let button = b.text("callback_data"@, data).tree();
    assert(button.text_field("text"@) == Some(label));
    assert(button.text_field("callback_data"@) == Some(data));
    assert(rows[k] == Tree::List(seq![button]));
    assert(is_row_for(rows[k], request_id, question, option, label));
    lemma_with(a, "inline_keyboard"@, Tree::List(rows), "inline_keyboard"@);
    assert(keyboard(request_id, questions).get("inline_keyboard"@) == Some(Tree::List(rows)));
}

/// The text that asks questions holds every question with its header, and
/// every choice with its description.
pub proof fn law_every_question_is_asked(
    questions: Seq<UserInputQuestion>,
    question: int,
    option: int,
)
    requires
        0 <= question < questions.len(),
        0 <= option < questions[question].options@.len(),
    ensures
        ({
            let asked = join(question_texts(questions), "\n\n"@);
            let q = questions[question];
            &&& occurs(q.header@, asked)
            &&& occurs(q.question@, asked)
            &&& occurs(q.options@[option].label@, asked)
            &&& occurs(q.options@[option].description@, asked)
        }),
{
    let q = questions[question];
    let asked = join(question_texts(questions), "\n\n"@);
    let said = question_text((question + 1) as nat, q);
    assert(question_texts(questions)[question] == said);
    lemma_joined_part(question_texts(questions), "\n\n"@, question);
    lemma_question_is_told((question + 1) as nat, q);
    lemma_occurs_within(q.header@, said, asked);
    lemma_occurs_within(q.question@, said, asked);
    lemma_choice_is_told((question + 1) as nat, q, option);
    lemma_occurs_within(q.options@[option].label@, said, asked);
    lemma_occurs_within(q.options@[option].description@, said, asked);
}

proof fn lemma_question_is_told(number: nat, q: UserInputQuestion)
    ensures
        occurs(q.header@, question_text(number, q)),
        occurs(q.question@, question_text(number, q)),
        occurs(join(choice_lines(q), "\n"@), question_text(number, q)),
{
    let said = question_text(number, q);
    let choices = join(choice_lines(q), "\n"@);
    let start = dec(number) + ". "@;
    let head = start + q.header@ + "\n"@;
    let top = head + q.question@ + "\n"@;
    assert(occurs(q.header@, said)) by {
        let tail = "\n"@ + q.question@ + "\n"@ + choices;
        assert(said =~= start + q.header@ + tail);
        lemma_occurs_between(start, q.header@, tail);
    }
    assert(occurs(q.question@, said)) by {
        let tail = "\n"@ + choices;
        assert(said =~= head + q.question@ + tail);
        lemma_occurs_between(head, q.question@, tail);
    }
    assert(occurs(choices, said)) by {
        assert(said =~= top + choices + Seq::empty());
        lemma_occurs_between(top, choices, Seq::empty());
    }
}

proof fn lemma_choice_is_told(number: nat, q: UserInputQuestion, option: int)
    requires
        0 <= option < q.options@.len(),
    ensures
        occurs(q.options@[option].label@, question_text(number, q)),
        occurs(q.options@[option].description@, question_text(number, q)),
{
    let said = question_text(number, q);
    let choices = join(choice_lines(q), "\n"@);
    let line = choice_lines(q)[option];
    let label = q.options@[option].label@;
    let description = q.options@[option].description@;
    lemma_question_is_told(number, q);
    lemma_joined_part(choice_lines(q), "\n"@, option);
    lemma_occurs_within(line, choices, said);
    lemma_occur_in_turn("- "@, label, "："@, description);
    lemma_occurs_within(label, line, said);
    lemma_occurs_within(description, line, said);
}

} // verus!
