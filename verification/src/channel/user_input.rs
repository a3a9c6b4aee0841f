//! Answers that are collected for questions to the user.

use crate::assoc::{assign, at, has_entry, lemma_at, lemma_at_is, lemma_same_keys, lookup};
use crate::message::{answers_of, questions_of, Answers, QuestionView, UserInputRequest};
use crate::text::texts;
use vstd::prelude::*;

verus! {

/// The contents of a set of answers.
pub type AnswerViews = Seq<(Seq<char>, Seq<Seq<char>>)>;

/// The contents of a request that waits for answers.
pub struct WaitingView {
    pub request: UserInputRequest,
    pub answers: AnswerViews,
}

/// The position of the first question without an answer, or the number of
/// questions where all have one.
pub open spec fn first_open(questions: Seq<QuestionView>, answers: AnswerViews) -> int
    decreases questions.len(),
{
    if questions.len() == 0 || !has_entry(answers, questions[0].id) {
        0
    } else {
        1 + first_open(questions.skip(1), answers)
    }
}

/// Whether every question has an answer.
pub open spec fn all_answered(questions: Seq<QuestionView>, answers: AnswerViews) -> bool {
    forall|i: int| 0 <= i < questions.len() ==> has_entry(answers, (#[trigger] questions[i]).id)
}

/// The answer that is taken for a question without the user: its first choice.
pub open spec fn default_answer(question: QuestionView) -> Seq<Seq<char>> {
    if question.labels.len() > 0 {
        seq![question.labels[0]]
    } else {
        Seq::empty()
    }
}

/// The answers with a default for each question that has none.
pub open spec fn resolved(answers: AnswerViews, questions: Seq<QuestionView>) -> AnswerViews
    decreases questions.len(),
{
    if questions.len() == 0 {
        answers
    } else {
        let before = resolved(answers, questions.drop_last());
        let last = questions.last();
        if has_entry(before, last.id) {
            before
        } else {
            before.push((last.id, default_answer(last)))
        }
    }
}

pub proof fn lemma_first_open(questions: Seq<QuestionView>, answers: AnswerViews)
    ensures
        0 <= first_open(questions, answers) <= questions.len(),
        forall|k: int|
            0 <= k < first_open(questions, answers) ==> has_entry(
                answers,
                (#[trigger] questions[k]).id,
            ),
        first_open(questions, answers) < questions.len() ==> !has_entry(
            answers,
            questions[first_open(questions, answers)].id,
        ),
        all_answered(questions, answers) == (first_open(questions, answers) == questions.len()),
    decreases questions.len(),
{
    if questions.len() > 0 && has_entry(answers, questions[0].id) {
        let rest = questions.skip(1);
        lemma_first_open(rest, answers);
        let n = first_open(questions, answers);
        assert forall|k: int| 0 <= k < n implies has_entry(
            answers,
            (#[trigger] questions[k]).id,
        ) by {
            if k > 0 {
                assert(rest[k - 1] == questions[k]);
            }
        }
        if n < questions.len() {
            assert(rest[n - 1] == questions[n]);
        }
    }
}

/// An answer stands where its contents stand.
pub proof fn lemma_answer_entry(answers: Answers, key: Seq<char>)
    ensures
        has_entry(answers@, key) == has_entry(answers_of(answers), key),
        lookup(answers_of(answers), key) == match lookup(answers@, key) {
            Some(v) => Some(texts(v@)),
            None => None,
        },
{
    lemma_same_keys(answers@, answers_of(answers), key);
    lemma_at(answers@, key);
}

/// The first question without an answer.
pub fn next_unanswered(request: &UserInputRequest, answers: &Answers) -> (r: usize)
    ensures
        r == first_open(questions_of(*request), answers_of(*answers)),
        r <= request.questions@.len(),
{
    let ghost all = questions_of(*request);
    let ghost known = answers_of(*answers);
    let mut i: usize = 0;
    assert(all.skip(0) =~= all);
    while i < request.questions.len()
        invariant
            i <= request.questions@.len(),
            all == questions_of(*request),
            known == answers_of(*answers),
            first_open(all, known) == i + first_open(all.skip(i as int), known),
        decreases request.questions@.len() - i,
    {
        proof {
            lemma_answer_entry(*answers, all[i as int].id);
        }
        assert(all.skip(i as int)[0] == all[i as int]);
        if !answers.contains(request.questions[i].id.as_str()) {
            return i;
        }
        assert(all.skip(i as int).skip(1) =~= all.skip(i + 1));
        i += 1;
    }
    i
}

/// Sets an answer that consists of one text.
pub fn set_answer(answers: &mut Answers, question_id: &str, value: String)
    ensures
        answers_of(*final(answers)) == assign(
            answers_of(*old(answers)),
            question_id@,
            seq![value@],
        ),
{
    let ghost before = *answers;
    let ghost text = value@;
    let mut list: Vec<String> = Vec::new();
    list.push(value);
    assert(texts(list@) =~= seq![text]);
    proof {
        lemma_answer_entry(before, question_id@);
        lemma_same_keys(before@, answers_of(before), question_id@);
        lemma_at(before@, question_id@);
    }
    answers.insert(String::from_str(question_id), list);
    assert(answers_of(*answers) =~= assign(answers_of(before), question_id@, seq![text]));
}

/// Answers each open question with its first choice.
pub fn answer_open_questions(answers: Answers, request: &UserInputRequest) -> (r: Answers)
    ensures
        answers_of(r) == resolved(answers_of(answers), questions_of(*request)),
{
    let ghost all = questions_of(*request);
    let ghost start = answers_of(answers);
    let mut out = answers;
    let mut i: usize = 0;
    assert(all.take(0) =~= Seq::<QuestionView>::empty());
    while i < request.questions.len()
        invariant
            i <= request.questions@.len(),
            all == questions_of(*request),
            answers_of(out) == resolved(start, all.take(i as int)),
        decreases request.questions@.len() - i,
    {
        let question = &request.questions[i];
        let ghost view = all[i as int];
        let ghost before = out;
        assert(all.take(i + 1).drop_last() =~= all.take(i as int));
        assert(all.take(i + 1).last() == view);
        proof {
            lemma_answer_entry(before, view.id);
            lemma_same_keys(before@, answers_of(before), view.id);
        }
        if !out.contains(question.id.as_str()) {
            let mut list: Vec<String> = Vec::new();
            if question.options.len() > 0 {
                list.push(question.options[0].label.clone());
            }
            assert(texts(list@) =~= default_answer(view));
            out.insert(question.id.clone(), list);
            assert(answers_of(out) =~= answers_of(before).push((view.id, default_answer(view))));
        }
        i += 1;
    }
    assert(all.take(all.len() as int) =~= all);
    out
}

proof fn lemma_resolved_extends(answers: AnswerViews, questions: Seq<QuestionView>)
    ensures
        answers.len() <= resolved(answers, questions).len(),
        forall|i: int|
            0 <= i < answers.len() ==> #[trigger] resolved(answers, questions)[i] == answers[i],
    decreases questions.len(),
{
    if questions.len() > 0 {
        lemma_resolved_extends(answers, questions.drop_last());
    }
}

proof fn lemma_entry_survives_push<T>(
    list: Seq<(Seq<char>, T)>,
    entry: (Seq<char>, T),
    key: Seq<char>,
)
    ensures
        has_entry(list, key) ==> has_entry(list.push(entry), key),
        has_entry(list.push(entry), entry.0),
{
    lemma_at(list, key);
    lemma_at(list.push(entry), key);
    lemma_at(list.push(entry), entry.0);
    let next = list.push(entry);
    assert(next[list.len() as int].0 == entry.0);
    if has_entry(list, key) {
        assert(next[crate::assoc::at(list, key)].0 == key);
    }
}

/// After the open questions are settled, every question has an answer, and
/// the answers that were given stay as they are.
pub proof fn law_resolving_answers_everything(
    answers: AnswerViews,
    questions: Seq<QuestionView>,
)
    ensures
        all_answered(questions, resolved(answers, questions)),
        answers.is_prefix_of(resolved(answers, questions)),
    decreases questions.len(),
{
    lemma_resolved_extends(answers, questions);
    let after = resolved(answers, questions);
    assert(after.subrange(0, answers.len() as int) =~= answers);
    if questions.len() > 0 {
        let front = questions.drop_last();
        law_resolving_answers_everything(answers, front);
        let before = resolved(answers, front);
        let last = questions.last();
        assert forall|i: int| 0 <= i < questions.len() implies has_entry(
            after,
            (#[trigger] questions[i]).id,
        ) by {
            if i < front.len() {
                assert(front[i] == questions[i]);
                assert(has_entry(before, questions[i].id));
            }
            if !has_entry(before, last.id) {
                lemma_entry_survives_push(
                    before,
                    (last.id, default_answer(last)),
                    questions[i].id,
                );
            }
        }
    }
}

/// A question that the user left open is answered with its first choice.
pub proof fn law_open_questions_get_their_first_choice(
    answers: AnswerViews,
    questions: Seq<QuestionView>,
    i: int,
)
    requires
        0 <= i < questions.len(),
        !has_entry(answers, questions[i].id),
        questions[i].labels.len() > 0,
        forall|k: int| 0 <= k < questions.len() && k != i ==> (#[trigger] questions[k]).id
            != questions[i].id,
    ensures
        lookup(resolved(answers, questions), questions[i].id) == Some(
            seq![questions[i].labels[0]],
        ),
    decreases questions.len(),
{
    let front = questions.drop_last();
    let last = questions.last();
    let before = resolved(answers, front);
    let id = questions[i].id;
    if i == questions.len() - 1 {
        lemma_untouched(answers, front, id);
        lemma_at(before, id);
        lemma_at_is(before.push((id, default_answer(last))), id, before.len() as int);
    } else {
        law_open_questions_get_their_first_choice(answers, front, i);
        if !has_entry(before, last.id) {
            lemma_at(before, id);
            lemma_at_is(before.push((last.id, default_answer(last))), id, at(before, id));
        }
    }
}

proof fn lemma_untouched(answers: AnswerViews, questions: Seq<QuestionView>, id: Seq<char>)
    requires
        !has_entry(answers, id),
        forall|k: int| 0 <= k < questions.len() ==> (#[trigger] questions[k]).id != id,
    ensures
        !has_entry(resolved(answers, questions), id),
    decreases questions.len(),
{
    if questions.len() > 0 {
        let front = questions.drop_last();
        lemma_untouched(answers, front, id);
        let before = resolved(answers, front);
        let last = questions.last();
        assert(questions[questions.len() - 1].id != id);
        if !has_entry(before, last.id) {
            let after = before.push((last.id, default_answer(last)));
            lemma_at(before, id);
            lemma_at_is(after, id, after.len() as int);
        }
    }
}

/// An answer that the user gave is not replaced.
pub proof fn law_given_answers_stay(
    answers: AnswerViews,
    questions: Seq<QuestionView>,
    id: Seq<char>,
)
    requires
        has_entry(answers, id),
    ensures
        lookup(resolved(answers, questions), id) == lookup(answers, id),
{
    lemma_resolved_extends(answers, questions);
    lemma_at(answers, id);
    let a = at(answers, id);
    let after = resolved(answers, questions);
    assert(after[a] == answers[a]);
    assert forall|k: int| 0 <= k < a implies (#[trigger] after[k]).0 != id by {
        assert(after[k] == answers[k]);
    }
    lemma_at_is(after, id, a);
}

} // verus!
