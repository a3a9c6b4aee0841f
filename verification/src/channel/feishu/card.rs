//! The cards that the Feishu channel sends.

use crate::assoc::{has_entry, lookup};
use crate::channel::feishu::markdown::{card_content, compact_markdown_card_content};
use crate::channel::user_input::{lemma_answer_entry, AnswerViews};
use crate::json::{field_of, fields, trees, Fields, Json, Tree};
use crate::message::{
    answers_of, questions_of, Answers, QuestionView, UserInputQuestion, UserInputRequest,
};
use crate::numbers::{dec, decimal_usize};
use crate::text::{
    blank, chars_of, is_blank, join, join_strings, occurs, occurs_at, same_chars, string_of, texts,
    trim, trimmed,
};
use vstd::prelude::*;

verus! {

/// A card with the given elements.
pub open spec fn card(elements: Seq<Tree>) -> Tree {
    let config = fields().with("wide_screen_mode"@, Tree::Bool(true)).with(
        "update_multi"@,
        Tree::Bool(true),
    ).tree();
    let body = fields().text("direction"@, "vertical"@).text(
        "padding"@,
        "2px 12px 2px 12px"@,
    ).text("vertical_spacing"@, "2px"@).with("elements"@, Tree::List(elements)).tree();
    fields().text("schema"@, "2.0"@).with("config"@, config).with("body"@, body).tree()
}

/// A card element with markdown text.
pub open spec fn markdown_element(content: Seq<char>) -> Tree {
    fields().text("tag"@, "markdown"@).text("content"@, content).tree()
}

/// What a button sends back when it is pressed.
pub open spec fn callback_value(
    request_id: Seq<char>,
    question_id: Seq<char>,
    label: Seq<char>,
) -> Tree {
    fields().text("llm_loop"@, "request_user_input"@).text("request_id"@, request_id).text(
        "question_id"@,
        question_id,
    ).text("answer"@, label).tree()
}

/// A button for one choice, in a column of its own.
pub open spec fn option_column(
    request_id: Seq<char>,
    question_id: Seq<char>,
    label: Seq<char>,
) -> Tree {
    let value = callback_value(request_id, question_id, label);
    let shown = fields().text("tag"@, "plain_text"@).text("content"@, label).tree();
    let behavior = fields().text("type"@, "callback"@).with("value"@, value).tree();
    let button = fields().text("tag"@, "button"@).with("text"@, shown).text(
        "type"@,
        "default"@,
    ).text("size"@, "tiny"@).with("value"@, value).with(
        "behaviors"@,
        Tree::List(seq![behavior]),
    ).tree();
    fields().text("tag"@, "column"@).text("width"@, "auto"@).text("padding"@, "0px"@).with(
        "elements"@,
        Tree::List(seq![button]),
    ).tree()
}

/// The buttons of a question.
pub open spec fn option_columns(request_id: Seq<char>, question: QuestionView) -> Seq<Tree> {
    Seq::new(
        question.labels.len(),
        |i: int| option_column(request_id, question.id, question.labels[i]),
    )
}

/// The row of buttons of a question.
pub open spec fn option_row(request_id: Seq<char>, question: QuestionView) -> Tree {
    fields().text("tag"@, "column_set"@).text("flex_mode"@, "flow"@).text(
        "horizontal_spacing"@,
        "4px"@,
    ).with("columns"@, Tree::List(option_columns(request_id, question))).tree()
}

/// The answer to show for a question: the first text of its answer, unless it
/// is blank.
pub open spec fn shown_answer(answers: AnswerViews, id: Seq<char>) -> Option<Seq<char>> {
    match lookup(answers, id) {
        Some(values) => if values.len() > 0 && !is_blank(values[0]) {
            Some(values[0])
        } else {
            None
        },
        None => None,
    }
}

/// The choices that were not taken.
pub open spec fn other_labels(labels: Seq<Seq<char>>, answer: Seq<char>) -> Seq<Seq<char>>
    decreases labels.len(),
{
    if labels.len() == 0 {
        Seq::empty()
    } else {
        let before = other_labels(labels.drop_last(), answer);
        let label = trim(labels.last());
        if label.len() > 0 && label != trim(answer) {
            before.push(label)
        } else {
            before
        }
    }
}

/// What a card says about a question.
pub open spec fn question_markdown(
    number: nat,
    question: QuestionView,
    answers: AnswerViews,
) -> Seq<char> {
    let mark = if has_entry(answers, question.id) {
        " ✅"@
    } else {
        ""@
    };
    let head = "**"@ + dec(number) + ". "@ + question.header + mark + "** "@ + question.question;
    match shown_answer(answers, question.id) {
        Some(answer) => {
            let chosen = head + "\n已选：`"@ + answer + "`"@;
            let others = other_labels(question.labels, answer);
            if others.len() > 0 {
                chosen + "  <font color=\"grey\">(其他选项："@ + join(others, " / "@) + ")</font>"@
            } else {
                chosen
            }
        },
        None => head,
    }
}

/// What a card says above the questions.
pub open spec fn card_heading(finished: bool) -> Seq<char> {
    if finished {
        "**已记录，处理中。**"@
    } else {
        "**需要你确认**  没有合适选项时，直接在聊天里回复文字即可。"@
    }
}

/// The elements for the given first questions: a heading, then each question,
/// with buttons as long as it is open.
pub open spec fn status_elements(
    request_id: Seq<char>,
    questions: Seq<QuestionView>,
    answers: AnswerViews,
    finished: bool,
) -> Seq<Tree>
    decreases questions.len(),
{
    if questions.len() == 0 {
        seq![markdown_element(card_heading(finished))]
    } else {
        let before = status_elements(request_id, questions.drop_last(), answers, finished);
        let last = questions.last();
        let told = before.push(
            markdown_element(question_markdown(questions.len(), last, answers)),
        );
        if !has_entry(answers, last.id) && !finished {
            told.push(option_row(request_id, last))
        } else {
            told
        }
    }
}

/// The card that shows questions and the answers so far.
pub open spec fn status_card(
    request_id: Seq<char>,
    questions: Seq<QuestionView>,
    answers: AnswerViews,
    finished: bool,
) -> Tree {
    card(status_elements(request_id, questions, answers, finished))
}

fn one(item: Json) -> (r: Vec<Json>)
    ensures
        trees(r@) == seq![item@],
{
    let mut list: Vec<Json> = Vec::new();
    list.push(item);
    assert(trees(list@) =~= seq![item@]);
    list
}

fn build_card(elements: Vec<Json>) -> (r: Json)
    ensures
        r@ == card(trees(elements@)),
{
    let config = Fields::new().with("wide_screen_mode", Json::Bool(true)).with(
        "update_multi",
        Json::Bool(true),
    ).object();
    let body = Fields::new().text("direction", "vertical").text(
        "padding",
        "2px 12px 2px 12px",
    ).text("vertical_spacing", "2px").with("elements", Json::list(elements)).object();
    Fields::new().text("schema", "2.0").with("config", config).with("body", body).object()
}

fn build_markdown_element(content: &str) -> (r: Json)
    ensures
        r@ == markdown_element(content@),
{
    Fields::new().text("tag", "markdown").text("content", content).object()
}

/// Builds the card for an ordinary text.
pub fn build_markdown_card(text: &str) -> (r: Json)
    ensures
        r@ == card(seq![markdown_element(card_content(text@))]),
{
    let content = compact_markdown_card_content(text);
    build_card(one(build_markdown_element(content.as_str())))
}

fn build_callback_value(request_id: &str, question_id: &str, label: &str) -> (r: Json)
    ensures
        r@ == callback_value(request_id@, question_id@, label@),
{
    Fields::new().text("llm_loop", "request_user_input").text("request_id", request_id).text(
        "question_id",
        question_id,
    ).text("answer", label).object()
}

fn build_option_column(request_id: &str, question_id: &str, label: &str) -> (r: Json)
    ensures
        r@ == option_column(request_id@, question_id@, label@),
{
    let title = Fields::new().text("tag", "plain_text").text("content", label).object();
    let behavior = Fields::new().text("type", "callback").with(
        "value",
        build_callback_value(request_id, question_id, label),
    ).object();
    let button = Fields::new().text("tag", "button").with("text", title).text(
        "type",
        "default",
    ).text("size", "tiny").with(
        "value",
        build_callback_value(request_id, question_id, label),
    ).with("behaviors", Json::list(one(behavior))).object();
    Fields::new().text("tag", "column").text("width", "auto").text("padding", "0px").with(
        "elements",
        Json::list(one(button)),
    ).object()
}

fn build_user_input_option_columns(request_id: &str, question: &UserInputQuestion) -> (r: Vec<Json>)
    ensures
        trees(r@) == option_columns(request_id@, question@),
{
    let mut out: Vec<Json> = Vec::new();
    let mut i: usize = 0;
    while i < question.options.len()
        invariant
            i <= question.options@.len(),
            out@.len() == i,
            forall|k: int|
                0 <= k < i ==> (#[trigger] out@[k])@ == option_columns(request_id@, question@)[k],
        decreases question.options@.len() - i,
    {
        out.push(
            build_option_column(
                request_id,
                question.id.as_str(),
                question.options[i].label.as_str(),
            ),
        );
        i += 1;
    }
    assert(trees(out@) =~= option_columns(request_id@, question@));
    out
}

fn find_other_labels(question: &UserInputQuestion, answer: &str) -> (r: Vec<String>)
    ensures
        texts(r@) == other_labels(question@.labels, answer@),
{
    let answer_chars = chars_of(answer);
    let chosen = trimmed(&answer_chars);
    let ghost labels = question@.labels;
    let mut out: Vec<String> = Vec::new();
    let mut i: usize = 0;
    assert(texts(out@) =~= other_labels(labels.take(0), answer@));
    while i < question.options.len()
        invariant
            i <= question.options@.len(),
            labels == question@.labels,
            chosen@ == trim(answer@),
            texts(out@) == other_labels(labels.take(i as int), answer@),
        decreases question.options@.len() - i,
    {
        assert(labels.take(i + 1).drop_last() =~= labels.take(i as int));
        let cs = chars_of(question.options[i].label.as_str());
        let label = trimmed(&cs);
        if label.len() > 0 && !same_chars(label, chosen) {
            let ghost before = texts(out@);
            out.push(string_of(label));
            assert(texts(out@) =~= before.push(label@));
        }
        i += 1;
    }
    assert(labels.take(labels.len() as int) =~= labels);
    out
}

fn build_user_input_question_markdown(
    number: usize,
    question: &UserInputQuestion,
    answers: &Answers,
) -> (r: String)
    ensures
        r@ == question_markdown(number as nat, question@, answers_of(*answers)),
{
    proof {
        lemma_answer_entry(*answers, question.id@);
    }
    let mut content = String::from_str("**");
    content.append(decimal_usize(number).as_str());
    content.append(". ");
    content.append(question.header.as_str());
    let mark = if answers.contains(question.id.as_str()) {
        " ✅"
    } else {
        ""
    };
    content.append(mark);
    content.append("** ");
    content.append(question.question.as_str());
    if let Some(values) = answers.get(question.id.as_str()) {
        if values.len() > 0 && !blank(values[0].as_str()) {
            let answer = values[0].as_str();
            content.append("\n已选：`");
            content.append(answer);
            content.append("`");
            let others = find_other_labels(question, answer);
            assert(others@.len() == texts(others@).len());
            if others.len() > 0 {
                content.append("  <font color=\"grey\">(其他选项：");
                content.append(join_strings(&others, " / ").as_str());
                content.append(")</font>");
            }
        }
    }
    content
}

/// Builds the card that asks the questions of a request.
pub fn build_user_input_card(request_id: &str, request: &UserInputRequest) -> (r: Json)
    ensures
        r@ == status_card(request_id@, questions_of(*request), Seq::empty(), false),
{
    let answers: Answers = Answers::new();
    assert(answers_of(answers) =~= Seq::empty());
    build_user_input_status_card(request_id, request, &answers, false)
}

/// Builds the card that shows questions and the answers so far.
pub fn build_user_input_status_card(
    request_id: &str,
    request: &UserInputRequest,
    answers: &Answers,
    finished: bool,
) -> (r: Json)
    ensures
        r@ == status_card(request_id@, questions_of(*request), answers_of(*answers), finished),
{
    let ghost all = questions_of(*request);
    let ghost known = answers_of(*answers);
    let heading = if finished {
        "**已记录，处理中。**"
    } else {
        "**需要你确认**  没有合适选项时，直接在聊天里回复文字即可。"
    };
    let mut elements: Vec<Json> = one(build_markdown_element(heading));
    let mut i: usize = 0;
    assert(all.take(0) =~= Seq::<QuestionView>::empty());
    while i < request.questions.len()
        invariant
            i <= request.questions@.len(),
            all == questions_of(*request),
            known == answers_of(*answers),
            trees(elements@) == status_elements(request_id@, all.take(i as int), known, finished),
        decreases request.questions@.len() - i,
    {
        let question = &request.questions[i];
        assert(all.take(i + 1).drop_last() =~= all.take(i as int));
        assert(all.take(i + 1).last() == question@);
        proof {
            lemma_answer_entry(*answers, question.id@);
        }
        let text = build_user_input_question_markdown(i + 1, question, answers);
        let ghost before = trees(elements@);
        elements.push(build_markdown_element(text.as_str()));
        let ghost told = before.push(markdown_element(text@));
        assert(trees(elements@) =~= told);
        if !answers.contains(question.id.as_str()) && !finished {
            let row = Fields::new().text("tag", "column_set").text("flex_mode", "flow").text(
                "horizontal_spacing",
                "4px",
            ).with(
                "columns",
                Json::list(build_user_input_option_columns(request_id, question)),
            ).object();
            elements.push(row);
            assert(trees(elements@) =~= told.push(option_row(request_id@, question@)));
        }
        i += 1;
    }
    assert(all.take(all.len() as int) =~= all);
    build_card(elements)
}

proof fn lemma_question_place(
    request_id: Seq<char>,
    questions: Seq<QuestionView>,
    answers: AnswerViews,
    finished: bool,
    i: int,
) -> (k: int)
    requires
        0 <= i < questions.len(),
    ensures
        ({
            let shown = status_elements(request_id, questions, answers, finished);
            &&& 0 < k < shown.len()
            &&& shown[k] == markdown_element(
                question_markdown((i + 1) as nat, questions[i], answers),
            )
            &&& !has_entry(answers, questions[i].id) && !finished ==> k + 1 < shown.len()
                && shown[k + 1] == option_row(request_id, questions[i])
        }),
    decreases questions.len(),
{
    let before = status_elements(request_id, questions.drop_last(), answers, finished);
    let shown = status_elements(request_id, questions, answers, finished);
    lemma_heading_first(request_id, questions.drop_last(), answers, finished);
    if i == questions.len() - 1 {
        before.len() as int
    } else {
        let k = lemma_question_place(request_id, questions.drop_last(), answers, finished, i);
        assert(questions.drop_last()[i] == questions[i]);
        assert(shown[k] == before[k]);
        if !has_entry(answers, questions[i].id) && !finished {
            assert(shown[k + 1] == before[k + 1]);
        }
        k
    }
}

proof fn lemma_heading_first(
    request_id: Seq<char>,
    questions: Seq<QuestionView>,
    answers: AnswerViews,
    finished: bool,
)
    ensures
        status_elements(request_id, questions, answers, finished).len() > 0,
    decreases questions.len(),
{
    if questions.len() > 0 {
        lemma_heading_first(request_id, questions.drop_last(), answers, finished);
    }
}

/// An element that shows a text that holds `part`.
pub open spec fn shows(element: Tree, part: Seq<char>) -> bool {
    element.text_field("tag"@) == Some("markdown"@) && element.text_field("content"@) is Some
        && occurs(part, element.text_field("content"@)->0)
}

/// Whether `column` holds a button with the given label that sends `value`.
pub open spec fn is_button_for(column: Tree, label: Seq<char>, value: Tree) -> bool {
    match column.get("elements"@) {
        Some(Tree::List(buttons)) => {
            &&& buttons.len() == 1
            &&& buttons[0].text_field("tag"@) == Some("button"@)
            &&& buttons[0].get("value"@) == Some(value)
            &&& buttons[0].get("text"@) is Some
            &&& buttons[0].get("text"@)->0.text_field("content"@) == Some(label)
        },
        _ => false,
    }
}

/// Whether `row` holds one button for each choice of a question, in their
/// order.
pub open spec fn has_buttons_for(
    row: Tree,
    request_id: Seq<char>,
    question: QuestionView,
) -> bool {
    match row.get("columns"@) {
        Some(Tree::List(columns)) => {
            &&& columns.len() == question.labels.len()
            &&& forall|j: int|
                0 <= j < columns.len() ==> is_button_for(
                    #[trigger] columns[j],
                    question.labels[j],
                    callback_value(request_id, question.id, question.labels[j]),
                )
        },
        _ => false,
    }
}

/// A card shows every question with its header, and with its answer where one
/// was given that is not blank.
pub proof fn law_every_question_is_shown(
    request_id: Seq<char>,
    questions: Seq<QuestionView>,
    answers: AnswerViews,
    finished: bool,
    i: int,
)
    requires
        0 <= i < questions.len(),
    ensures
        ({
            let shown = status_elements(request_id, questions, answers, finished);
            exists|k: int|
                0 <= k < shown.len() && shows(#[trigger] shown[k], questions[i].question) && shows(
                    shown[k],
                    questions[i].header,
                ) && (lookup(answers, questions[i].id) matches Some(given) ==> given.len() > 0
                    && !is_blank(given[0]) ==> shows(shown[k], given[0]))
        }),
{
    let shown = status_elements(request_id, questions, answers, finished);
    let k = lemma_question_place(request_id, questions, answers, finished, i);
    let q = questions[i];
    let number = (i + 1) as nat;
    let said = question_markdown(number, q, answers);
    lemma_markdown_fields(said);
    let mark = if has_entry(answers, q.id) {
        " ✅"@
    } else {
        ""@
    };
    let head = "**"@ + dec(number) + ". "@ + q.header + mark + "** "@ + q.question;
    let at_header = ("**"@ + dec(number) + ". "@).len() as int;
    let at_question = head.len() - q.question.len();
    assert(head.is_prefix_of(said)) by {
        assert(said.subrange(0, head.len() as int) =~= head);
    }
    assert(head == said.subrange(0, head.len() as int));
    assert(said.subrange(at_header, at_header + q.header.len()) =~= q.header);
    assert(said.subrange(at_question, at_question + q.question.len()) =~= q.question);
    assert(occurs_at(q.header, said, at_header));
    assert(occurs_at(q.question, said, at_question));
    match shown_answer(answers, q.id) {
        Some(answer) => {
            let at = (head + "\n已选：`"@).len() as int;
            assert(said.subrange(at, at + answer.len()) =~= answer);
            assert(occurs_at(answer, said, at));
        },
        None => {},
    }
    assert(shows(shown[k], q.question));
}

proof fn lemma_markdown_fields(content: Seq<char>)
    ensures
        markdown_element(content).text_field("tag"@) == Some("markdown"@),
        markdown_element(content).text_field("content"@) == Some(content),
{
    reveal_strlit("tag");
    reveal_strlit("content");
    reveal_with_fuel(field_of, 3);
    assert("tag"@.len() == 3 && "content"@.len() == 7);
    let own = markdown_element(content)->Object_0;
    assert(own.skip(1)[0] == own[1]);
}

/// An open question is shown with one button for each of its choices, in their
/// order, and each sends its choice back.
pub proof fn law_open_questions_have_their_buttons(
    request_id: Seq<char>,
    questions: Seq<QuestionView>,
    answers: AnswerViews,
    i: int,
)
    requires
        0 <= i < questions.len(),
        !has_entry(answers, questions[i].id),
    ensures
        ({
            let shown = status_elements(request_id, questions, answers, false);
            exists|k: int|
                0 <= k < shown.len() && has_buttons_for(
                    #[trigger] shown[k],
                    request_id,
                    questions[i],
                )
        }),
{
    let shown = status_elements(request_id, questions, answers, false);
    let place = lemma_question_place(request_id, questions, answers, false, i);
    let k = place + 1;
    let q = questions[i];
    let columns = option_columns(request_id, q);
    reveal_strlit("tag");
    reveal_strlit("flex_mode");
    reveal_strlit("horizontal_spacing");
    reveal_strlit("columns");
    assert("tag"@.len() == 3 && "flex_mode"@.len() == 9 && "horizontal_spacing"@.len() == 18
        && "columns"@.len() == 7);
    let row = shown[k]->Object_0;
    assert(row.skip(1)[0] == row[1] && row.skip(1).skip(1)[0] == row[2]);
    assert(row.skip(1).skip(1).skip(1)[0] == row[3]);
    assert(shown[k].get("columns"@) == Some(Tree::List(columns))) by {
        reveal_with_fuel(field_of, 5);
    }
    assert forall|j: int| 0 <= j < columns.len() implies is_button_for(
        #[trigger] columns[j],
        q.labels[j],
        callback_value(request_id, q.id, q.labels[j]),
    ) by {
        lemma_option_column(request_id, q.id, q.labels[j]);
    }
    assert(has_buttons_for(shown[k], request_id, q));
}

proof fn lemma_option_column(request_id: Seq<char>, question_id: Seq<char>, label: Seq<char>)
    ensures
        is_button_for(
            option_column(request_id, question_id, label),
            label,
            callback_value(request_id, question_id, label),
        ),
{
    reveal_strlit("tag");
    reveal_strlit("width");
    reveal_strlit("padding");
    reveal_strlit("elements");
    reveal_strlit("text");
    reveal_strlit("type");
    reveal_strlit("size");
    reveal_strlit("value");
    reveal_strlit("content");
    reveal_with_fuel(field_of, 6);
    assert("tag"@.len() == 3 && "width"@.len() == 5 && "padding"@.len() == 7
        && "elements"@.len() == 8);
    assert("text"@.len() == 4 && "type"@.len() == 4 && "size"@.len() == 4 && "value"@.len() == 5
        && "content"@.len() == 7);
    assert("text"@[1] == 'e' && "type"@[1] == 'y' && "size"@[1] == 'i');
    let column = option_column(request_id, question_id, label);
    let all = column->Object_0;
    assert(all.skip(1)[0] == all[1] && all.skip(1).skip(1)[0] == all[2]);
    assert(all.skip(1).skip(1).skip(1)[0] == all[3]);
    assert(column.get("elements"@) == Some(all[3].1));
    let buttons = all[3].1->List_0;
    let own = buttons[0]->Object_0;
    assert(own.skip(1)[0] == own[1] && own.skip(1).skip(1)[0] == own[2]);
    assert(own.skip(1).skip(1).skip(1)[0] == own[3]);
    assert(own.skip(1).skip(1).skip(1).skip(1)[0] == own[4]);
    assert(buttons[0].get("value"@) == Some(callback_value(request_id, question_id, label)));
    assert(buttons[0].get("text"@) == Some(own[1].1));
    let said = own[1].1->Object_0;
    assert(said.skip(1)[0] == said[1]);
    assert(own[1].1.text_field("content"@) == Some(label));
}

/// A finished card has no buttons.
pub proof fn law_finished_cards_only_tell(
    request_id: Seq<char>,
    questions: Seq<QuestionView>,
    answers: AnswerViews,
)
    ensures
        ({
            let shown = status_elements(request_id, questions, answers, true);
            &&& shown.len() == questions.len() + 1
            &&& forall|k: int|
                0 <= k < shown.len() ==> (#[trigger] shown[k]).text_field("tag"@) == Some(
                    "markdown"@,
                )
        }),
    decreases questions.len(),
{
    lemma_markdown_fields(card_heading(true));
    if questions.len() > 0 {
        law_finished_cards_only_tell(request_id, questions.drop_last(), answers);
        lemma_markdown_fields(question_markdown(questions.len(), questions.last(), answers));
    }
}

} // verus!
