//! Loading questions from the lines of a quiz file: one record to a line,
//! its fields separated by `|`. A line that is no valid record is left out
//! and reported; it never keeps the other lines from loading.

use crate::decimal::{decimal, decimal_text};
use crate::questions::{
    lemma_multiple_choice_of_is_well_formed, lemma_short_answer_takes_its_answer_only,
    multiple_choice_of, outcome, short_answer_of, MultipleChoice, Question, QuestionView,
    ShortAnswer, ANSWER_NOT_A_CHOICE, CHOICE_MISSING, CHOICE_NOT_A_LETTER, CHOICE_OUT_OF_RANGE,
    CHOICE_TOO_LONG, SEPARATOR, TOO_FEW_CHOICES, TOO_MANY_CHOICES, WRONG_FIELD_COUNT,
};
use crate::text::{
    is_whitespace, joined, lemma_pieces_of_joined, lemma_pieces_rejoin, lemma_trimmed_is_trimmed,
    lowered, lowered_reads, pieces, split, trim, trimmed, trimmed_start, views,
};
use vstd::prelude::*;
use vstd::string::StringExecFns;

verus! {

/// A record has fewer than four fields.
pub const NOT_ENOUGH_FIELDS: &'static str = "not enough fields";

/// The first field of a record names no kind of question.
pub const UNKNOWN_QUESTION_TYPE: &'static str = "unknown question type";

/// Why a line gave no question: the line's number, counted from 1, and the
/// reason.
pub struct LoadErrsView {
    pub line_no: nat,
    pub reason: Seq<char>,
}

impl LoadErrsView {
    /// The message that reports the failure.
    pub open spec fn diagnostic(self) -> Seq<char> {
        "Error on Line "@ + decimal(self.line_no) + ": "@ + self.reason
    }
}

/// Why a line gave no question.
#[derive(Debug)]
pub struct LoadErrs {
    line_no: usize,
    msg: &'static str,
}

impl View for LoadErrs {
    type V = LoadErrsView;

    closed spec fn view(&self) -> LoadErrsView {
        LoadErrsView { line_no: self.line_no as nat, reason: self.msg@ }
    }
}

impl LoadErrs {
    /// The number of the line, counted from 1.
    pub fn line_no(&self) -> (n: usize)
        ensures
            n == self@.line_no,
    {
        self.line_no
    }

    /// The reason, without the line.
    pub fn description(&self) -> (reason: &'static str)
        ensures
            reason@ == self@.reason,
    {
        self.msg
    }

    /// The message that reports the failure, line and reason.
    pub fn diagnostic(&self) -> (text: String)
        ensures
            text@ == self@.diagnostic(),
    {
        let mut text = String::from_str("Error on Line ");
        text.append(decimal_text(self.line_no).as_str());
        text.append(": ");
        text.append(self.msg);
        text
    }
}

/// Whether a line holds nothing but whitespace.
pub open spec fn is_blank(line: Seq<char>) -> bool {
    trimmed(line).len() == 0
}

/// Whether the first field of a record marks a short-answer question.
pub open spec fn is_short_answer_tag(tag: Seq<char>) -> bool {
    lowered(tag) == "sa"@ || lowered(tag) == "s"@
}

/// Whether the first field of a record marks a multiple-choice question.
pub open spec fn is_multiple_choice_tag(tag: Seq<char>) -> bool {
    lowered(tag) == "mc"@ || lowered(tag) == "m"@
}

/// The question that the fields of a record give, or the reason why they
/// give none.
///
/// A record has at least four fields. Its first field, letter case aside,
/// says of which kind the question is; of a short-answer record the third
/// field is the prompt and the fourth the answer.
pub open spec fn question_of(fields: Seq<Seq<char>>) -> Result<QuestionView, Seq<char>> {
    if fields.len() < 4 {
        Err(NOT_ENOUGH_FIELDS@)
    } else if is_short_answer_tag(fields[0]) {
        Ok(QuestionView::ShortAnswer(short_answer_of(fields[2], fields[3])))
    } else if is_multiple_choice_tag(fields[0]) {
        match multiple_choice_of(fields) {
            Ok(q) => Ok(QuestionView::MultipleChoice(q)),
            Err(reason) => Err(reason),
        }
    } else {
        Err(UNKNOWN_QUESTION_TYPE@)
    }
}

/// The question that the fields of the record on line `line_no` give, or
/// the failure with its line.
pub open spec fn numbered_question_of(line_no: nat, fields: Seq<Seq<char>>) -> Result<
    QuestionView,
    LoadErrsView,
> {
    match question_of(fields) {
        Ok(q) => Ok(q),
        Err(reason) => Err(LoadErrsView { line_no, reason }),
    }
}

/// What a line of a file gives: nothing if it is blank, else the question
/// of its fields or the reason why they give none.
pub open spec fn record_of(line: Seq<char>) -> Option<Result<QuestionView, Seq<char>>> {
    if is_blank(line) {
        None
    } else {
        Some(question_of(pieces(line, SEPARATOR)))
    }
}

/// The questions that the lines of a file give, in the order of the lines.
pub open spec fn loaded_questions(lines: Seq<Seq<char>>) -> Seq<QuestionView>
    decreases lines.len(),
{
    if lines.len() == 0 {
        Seq::empty()
    } else {
        let before = loaded_questions(lines.drop_last());
        match record_of(lines.last()) {
            Some(Ok(q)) => before.push(q),
            _ => before,
        }
    }
}

/// The messages on those of `lines` that are neither blank nor a valid
/// record, in the order of the lines, where the first of `lines` is line
/// `first` of its file.
pub open spec fn diagnostics_from(first: nat, lines: Seq<Seq<char>>) -> Seq<Seq<char>>
    decreases lines.len(),
{
    if lines.len() == 0 {
        Seq::empty()
    } else {
        let before = diagnostics_from(first, lines.drop_last());
        match record_of(lines.last()) {
            Some(Err(reason)) => before.push(
                LoadErrsView { line_no: (first + lines.len() - 1) as nat, reason }.diagnostic(),
            ),
            _ => before,
        }
    }
}

/// The messages on the lines of a file that are neither blank nor a valid
/// record, in the order of the lines. Lines are counted from 1.
pub open spec fn load_diagnostics(lines: Seq<Seq<char>>) -> Seq<Seq<char>> {
    diagnostics_from(1, lines)
}

/// Whether `loaded` is what loading `lines` gives.
pub open spec fn is_loaded_from(loaded: LoadOutcome, lines: Seq<Seq<char>>) -> bool {
    &&& views(loaded.questions@) == loaded_questions(lines)
    &&& views(loaded.diagnostics@) == load_diagnostics(lines)
}

/// The reasons for which a record is refused, one for each fault.
pub open spec fn reasons() -> Seq<Seq<char>> {
    seq![
        NOT_ENOUGH_FIELDS@,
        UNKNOWN_QUESTION_TYPE@,
        WRONG_FIELD_COUNT@,
        CHOICE_TOO_LONG@,
        CHOICE_MISSING@,
        CHOICE_NOT_A_LETTER@,
        CHOICE_OUT_OF_RANGE@,
        TOO_FEW_CHOICES@,
        TOO_MANY_CHOICES@,
        ANSWER_NOT_A_CHOICE@,
    ]
}

/// No two faults share a reason, so the reason tells which fault was
/// found.
pub proof fn lemma_reasons_differ()
    ensures
        forall|i: int, j: int| 0 <= i < j < reasons().len() ==> reasons()[i] != reasons()[j],
{
    reveal_strlit("not enough fields");
    reveal_strlit("unknown question type");
    reveal_strlit("incorrect number of fields for multiple choice");
    reveal_strlit("choice is too long");
    reveal_strlit("must have a choice");
    reveal_strlit("the correct choice must be a letter");
    reveal_strlit("choice must be between a-g");
    reveal_strlit("not enough choices");
    reveal_strlit("too many choices");
    reveal_strlit("answer must be a choice");
    let all = reasons();
    assert(all[0].len() == 17 && all[1].len() == 21 && all[2].len() == 46);
    assert(all[3].len() == 18 && all[4].len() == 18 && all[7].len() == 18);
    assert(all[5].len() == 35 && all[6].len() == 26);
    assert(all[8].len() == 16 && all[9].len() == 23);
    assert(all[3][0] == 'c' && all[4][0] == 'm' && all[7][0] == 'n');
}

/// A record is refused for one of the reasons of [`reasons`] only.
pub proof fn lemma_refusal_gives_a_reason(fields: Seq<Seq<char>>)
    requires
        question_of(fields) is Err,
    ensures
        reasons().contains(question_of(fields)->Err_0),
{
    let all = reasons();
    let reason = question_of(fields)->Err_0;
    assert(exists|i: int| 0 <= i < all.len() && all[i] == reason) by {
        assert(all[0] == NOT_ENOUGH_FIELDS@);
        assert(all[1] == UNKNOWN_QUESTION_TYPE@);
        assert(all[2] == WRONG_FIELD_COUNT@);
        assert(all[3] == CHOICE_TOO_LONG@);
        assert(all[4] == CHOICE_MISSING@);
        assert(all[5] == CHOICE_NOT_A_LETTER@);
        assert(all[6] == CHOICE_OUT_OF_RANGE@);
        assert(all[7] == TOO_FEW_CHOICES@);
        assert(all[8] == TOO_MANY_CHOICES@);
        assert(all[9] == ANSWER_NOT_A_CHOICE@);
    }
}

/// The number of lines that are not blank.
pub open spec fn records_in(lines: Seq<Seq<char>>) -> nat
    decreases lines.len(),
{
    if lines.len() == 0 {
        0
    } else if is_blank(lines.last()) {
        records_in(lines.drop_last())
    } else {
        records_in(lines.drop_last()) + 1
    }
}

/// A line is blank exactly when each of its characters is whitespace.
pub proof fn lemma_blank_is_all_whitespace(line: Seq<char>)
    ensures
        is_blank(line) <==> forall|i: int|
            0 <= i < line.len() ==> is_whitespace(#[trigger] line[i]),
{
    lemma_trimmed_is_trimmed(line);
    if !is_blank(line) {
        assert(trimmed(line).first() == line[line.len() - trimmed_start(line).len()]);
    }
}

/// A question that the fields of a record give is well formed.
pub proof fn lemma_question_of_is_well_formed(fields: Seq<Seq<char>>)
    requires
        question_of(fields) is Ok,
    ensures
        question_of(fields)->Ok_0.well_formed(),
{
    if is_short_answer_tag(fields[0]) {
        lemma_short_answer_takes_its_answer_only(fields[2], fields[3], fields[3]);
    } else {
        lemma_multiple_choice_of_is_well_formed(fields);
    }
}

/// A line `sa|..|Q|A`, with no `|` inside the three fields after the tag,
/// gives the short-answer question with the prompt `Q` and the answer `A`,
/// each without its surrounding whitespace. So does one that begins with
/// `s|`, and the tag may be written in upper case.
pub proof fn lemma_short_answer_line(
    tag: Seq<char>,
    unused: Seq<char>,
    question: Seq<char>,
    answer: Seq<char>,
)
    requires
        is_short_answer_tag(tag),
        !unused.contains(SEPARATOR),
        !question.contains(SEPARATOR),
        !answer.contains(SEPARATOR),
    ensures
        record_of(joined(seq![tag, unused, question, answer], SEPARATOR)) == Some(
            Ok::<QuestionView, Seq<char>>(
                QuestionView::ShortAnswer(short_answer_of(question, answer)),
            ),
        ),
{
    reveal_strlit("sa");
    reveal_strlit("s");
    let fields = seq![tag, unused, question, answer];
    let line = joined(fields, SEPARATOR);
    assert(tag.len() == lowered(tag).len());
    assert(lowered(tag)[0] == 's');
    assert(tag[0] == 's' || tag[0] == 'S');
    assert(!tag.contains(SEPARATOR)) by {
        if tag.contains(SEPARATOR) {
            let k = choose|k: int| 0 <= k < tag.len() && tag[k] == SEPARATOR;
            assert(lowered(tag)[k] == SEPARATOR);
            assert(k == 0 || k == 1);
            assert(lowered(tag)[k] == 's' || lowered(tag)[k] == 'a');
        }
    }
    lemma_pieces_of_joined(fields, SEPARATOR);
    assert(line[0] == tag[0]) by {
        lemma_joined_begins_with_first(fields, SEPARATOR);
    }
    lemma_blank_is_all_whitespace(line);
}

/// A joined text begins with the first of its parts.
proof fn lemma_joined_begins_with_first(parts: Seq<Seq<char>>, sep: char)
    requires
        parts.len() >= 1,
    ensures
        joined(parts, sep).len() >= parts[0].len(),
        joined(parts, sep).subrange(0, parts[0].len() as int) == parts[0],
    decreases parts.len(),
{
    if parts.len() > 1 {
        lemma_joined_begins_with_first(parts.drop_last(), sep);
    }
}

/// A file gives no multiple-choice question. A line is cut at every `|`,
/// so the choices field of a record of five fields is a single choice:
/// multiple-choice questions come from lists of fields that were not cut
/// from a line.
pub proof fn lemma_line_gives_no_multiple_choice(line: Seq<char>)
    ensures
        !(record_of(line) matches Some(Ok(QuestionView::MultipleChoice(_)))),
{
    let fields = pieces(line, SEPARATOR);
    if fields.len() == 5 {
        lemma_pieces_rejoin(line, SEPARATOR);
        assert(!fields[3].contains(SEPARATOR));
        lemma_pieces_of_joined(seq![fields[3]], SEPARATOR);
    }
}

/// Every line is accounted for: the questions and the messages are
/// together as many as the lines that are not blank.
pub proof fn lemma_every_record_is_loaded_or_reported(lines: Seq<Seq<char>>)
    ensures
        loaded_questions(lines).len() + load_diagnostics(lines).len() == records_in(lines),
{
    lemma_every_record_counts(1, lines);
}

/// The count of [`lemma_every_record_is_loaded_or_reported`], whatever
/// the number of the first line.
proof fn lemma_every_record_counts(first: nat, lines: Seq<Seq<char>>)
    ensures
        loaded_questions(lines).len() + diagnostics_from(first, lines).len() == records_in(lines),
    decreases lines.len(),
{
    if lines.len() > 0 {
        lemma_every_record_counts(first, lines.drop_last());
    }
}

/// Loading goes line by line, in order: what a file gives is what its
/// first lines give, followed by what the lines after them give, these
/// counted on from where the first lines end. So a line that is no valid
/// record takes no question away, before it or after it.
pub proof fn lemma_loading_goes_line_by_line(
    first: nat,
    head: Seq<Seq<char>>,
    tail: Seq<Seq<char>>,
)
    ensures
        loaded_questions(head + tail) == loaded_questions(head) + loaded_questions(tail),
        diagnostics_from(first, head + tail) == diagnostics_from(first, head) + diagnostics_from(
            first + head.len(),
            tail,
        ),
    decreases tail.len(),
{
    if tail.len() == 0 {
        assert(head + tail == head);
    } else {
        lemma_loading_goes_line_by_line(first, head, tail.drop_last());
        assert((head + tail).drop_last() == head + tail.drop_last());
    }
}

/// A line that is no valid record, between other lines, gives one message
/// with its own number, and the questions of the lines before it and
/// after it stay as they are without it, in their order.
pub proof fn lemma_bad_line_is_reported_alone(
    head: Seq<Seq<char>>,
    bad: Seq<char>,
    tail: Seq<Seq<char>>,
)
    requires
        record_of(bad) matches Some(Err(_)),
    ensures
        loaded_questions(head + seq![bad] + tail) == loaded_questions(head + tail),
        loaded_questions(head + tail) == loaded_questions(head) + loaded_questions(tail),
        load_diagnostics(head + seq![bad] + tail) == load_diagnostics(head).push(
            LoadErrsView {
                line_no: head.len() + 1,
                reason: record_of(bad)->Some_0->Err_0,
            }.diagnostic(),
        ) + diagnostics_from(head.len() + 2, tail),
{
    let one = seq![bad];
    assert(one.last() == bad);
    assert(loaded_questions(one.drop_last()) == Seq::<QuestionView>::empty());
    assert(diagnostics_from(head.len() + 1, one.drop_last()) == Seq::<Seq<char>>::empty());
    lemma_loading_goes_line_by_line(1, head, tail);
    lemma_loading_goes_line_by_line(1, head, one);
    lemma_loading_goes_line_by_line(1, head + one, tail);
    assert(loaded_questions(head) + loaded_questions(one) == loaded_questions(head));
    assert(diagnostics_from(head.len() + 1, one) == seq![
        LoadErrsView {
            line_no: head.len() + 1,
            reason: record_of(bad)->Some_0->Err_0,
        }.diagnostic(),
    ]);
}

/// The questions of a file are well formed.
pub proof fn lemma_loaded_questions_are_well_formed(lines: Seq<Seq<char>>)
    ensures
        forall|i: int|
            0 <= i < loaded_questions(lines).len() ==> (#[trigger] loaded_questions(
                lines,
            )[i]).well_formed(),
    decreases lines.len(),
{
    if lines.len() > 0 {
        let before = loaded_questions(lines.drop_last());
        lemma_loaded_questions_are_well_formed(lines.drop_last());
        if record_of(lines.last()) matches Some(Ok(q)) {
            lemma_question_of_is_well_formed(pieces(lines.last(), SEPARATOR));
        }
        assert forall|i: int| 0 <= i < loaded_questions(lines).len() implies (
        #[trigger] loaded_questions(lines)[i]).well_formed() by {
            if i < before.len() {
                assert(loaded_questions(lines)[i] == before[i]);
            }
        }
    }
}

/// Loading the same lines twice gives the same questions, one for one,
/// and the same messages: two outcomes of loading them agree in every
/// prompt, every answer and every verdict on a candidate.
pub proof fn lemma_loading_again_gives_the_same(
    once: LoadOutcome,
    again: LoadOutcome,
    lines: Seq<Seq<char>>,
)
    requires
        is_loaded_from(once, lines),
        is_loaded_from(again, lines),
    ensures
        once.questions.len() == again.questions.len(),
        forall|i: int| 0 <= i < once.questions.len() ==> once.questions[i]@ == again.questions[i]@,
        once.diagnostics.len() == again.diagnostics.len(),
        forall|i: int|
            0 <= i < once.diagnostics.len() ==> once.diagnostics[i]@ == again.diagnostics[i]@,
{
    assert(views(once.questions@).len() == views(again.questions@).len());
    assert(views(once.diagnostics@).len() == views(again.diagnostics@).len());
    assert forall|i: int| 0 <= i < once.questions.len() implies once.questions[i]@
        == again.questions[i]@ by {
        assert(views(once.questions@)[i] == once.questions[i]@);
        assert(views(again.questions@)[i] == again.questions[i]@);
    }
    assert forall|i: int| 0 <= i < once.diagnostics.len() implies once.diagnostics[i]@
        == again.diagnostics[i]@ by {
        assert(views(once.diagnostics@)[i] == once.diagnostics[i]@);
        assert(views(again.diagnostics@)[i] == again.diagnostics[i]@);
    }
}

/// Whether a line is to be passed over: it holds nothing but whitespace.
/// No other line is, whatever it begins with.
pub fn is_comment_line(line: &str) -> (skip: bool)
    ensures
        skip == is_blank(line@),
{
    trim(line).is_empty()
}

/// The fields of a line: its segments between `|`, as they stand.
pub fn tokenize<'a>(line: &'a str) -> (fields: Vec<&'a str>)
    ensures
        views(fields@) == pieces(line@, SEPARATOR),
{
    split(line, SEPARATOR)
}

/// Builds the question that the fields of a record give.
pub fn gen_ques_inner(fields: Vec<&str>) -> (r: Result<Question, &'static str>)
    ensures
        outcome(r) == question_of(views(fields@)),
{
    if fields.len() < 4 {
        Err(NOT_ENOUGH_FIELDS)
    } else if lowered_reads(fields[0], "sa") || lowered_reads(fields[0], "s") {
        Ok(Question::ShortAnswer(ShortAnswer::new(fields[2], fields[3])))
    } else if lowered_reads(fields[0], "mc") || lowered_reads(fields[0], "m") {
        match MultipleChoice::new(fields.as_slice()) {
            Ok(q) => Ok(Question::MultipleChoice(q)),
            Err(reason) => Err(reason),
        }
    } else {
        Err(UNKNOWN_QUESTION_TYPE)
    }
}

/// Builds the question that the fields of a record give, and marks a
/// failure with the number of the record's line.
pub fn generate_question(data: (usize, Vec<&str>)) -> (r: Result<Question, LoadErrs>)
    ensures
        outcome(r) == numbered_question_of(data.0 as nat, views(data.1@)),
{
    let (line_no, fields) = data;
    match gen_ques_inner(fields) {
        Ok(q) => Ok(q),
        Err(msg) => Err(LoadErrs { line_no, msg }),
    }
}

/// What loading a file gave: the questions of its valid records, and a
/// message for each line that is neither blank nor a valid record.
#[derive(Debug)]
pub struct LoadOutcome {
    pub questions: Vec<Question>,
    pub diagnostics: Vec<String>,
}

/// Loads the questions from the lines of a file.
pub fn load_lines(lines: &[String]) -> (loaded: LoadOutcome)
    ensures
        is_loaded_from(loaded, views(lines@)),
{
    let mut questions: Vec<Question> = Vec::new();
    let mut diagnostics: Vec<String> = Vec::new();
    let mut i: usize = 0;
    while i < lines.len()
        invariant
            i <= lines.len(),
            views(questions@) == loaded_questions(views(lines@).take(i as int)),
            views(diagnostics@) == diagnostics_from(1, views(lines@).take(i as int)),
        decreases lines.len() - i,
    {
        let line = lines[i].as_str();
        proof {
            let read = views(lines@).take(i + 1);
            assert(read.drop_last() == views(lines@).take(i as int));
            assert(read.last() == line@);
        }
        if !is_comment_line(line) {
            match generate_question((i + 1, tokenize(line))) {
                Ok(q) => {
                    assert(views(questions@.push(q)) == views(questions@).push(q@));
                    questions.push(q);
                },
                Err(e) => {
                    let message = e.diagnostic();
                    assert(views(diagnostics@.push(message)) == views(diagnostics@).push(
                        message@,
                    ));
                    diagnostics.push(message);
                },
            }
        }
        i += 1;
    }
    assert(views(lines@).take(i as int) == views(lines@));
    LoadOutcome { questions, diagnostics }
}

} // verus!
