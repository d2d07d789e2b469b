//! The question kinds of a quiz, the answer checks they share, and the
//! letters by which a choice is named.

use crate::text::{
    ascii_lower, chars_of, is_trimmed, lemma_trimmed_is_trimmed, lemma_utf8_len_of_short_text,
    pieces, same_text, split, trim, trim_end, trimmed, trimmed_end, utf8_len, utf8_width, views,
};
use vstd::prelude::*;

verus! {

/// The character that ends a field of a record, and a choice within the
/// field of choices.
pub const SEPARATOR: char = '|';

/// A choice token holds more than one byte after its trailing whitespace.
pub const CHOICE_TOO_LONG: &'static str = "choice is too long";

/// A choice token holds nothing but whitespace.
pub const CHOICE_MISSING: &'static str = "must have a choice";

/// A choice token is not an ASCII letter.
pub const CHOICE_NOT_A_LETTER: &'static str = "the correct choice must be a letter";

/// A choice token is a letter that sorts after `g`.
pub const CHOICE_OUT_OF_RANGE: &'static str = "choice must be between a-g";

/// A multiple-choice record does not have exactly five fields.
pub const WRONG_FIELD_COUNT: &'static str = "incorrect number of fields for multiple choice";

/// A multiple-choice record offers fewer than three choices.
pub const TOO_FEW_CHOICES: &'static str = "not enough choices";

/// A multiple-choice record offers more than six choices.
pub const TOO_MANY_CHOICES: &'static str = "too many choices";

/// The correct letter of a multiple-choice record names no choice of it.
pub const ANSWER_NOT_A_CHOICE: &'static str = "answer must be a choice";

/// What an operation that may fail returns, by the views of the value and
/// of the error.
pub open spec fn outcome<T: View, E: View>(r: Result<T, E>) -> Result<T::V, E::V> {
    match r {
        Ok(value) => Ok(value@),
        Err(error) => Err(error@),
    }
}

/// Whether `c` is one of the letters `a` to `z` or `A` to `Z`.
pub open spec fn is_ascii_letter(c: char) -> bool {
    'a' <= c <= 'z' || 'A' <= c <= 'Z'
}

/// The place of the letter `c` in the alphabet, counted from 1 and
/// regardless of case: 1 for `a` and for `A`.
pub open spec fn letter_number(c: char) -> int {
    ascii_lower(c) as int - 'a' as int + 1
}

/// The number that a choice token stands for, or the reason why it stands
/// for none.
///
/// Trailing whitespace is ignored. What is left must be a single byte, an
/// ASCII letter, and must not sort after `g`; the number is then the
/// letter's place in the alphabet, so that `a` is choice 1 and `g` is
/// choice 7. Length is counted in bytes of UTF-8: one character outside
/// ASCII is too long. An upper-case letter stands for the same number as
/// its lower-case form; all of them sort before `g`, so that `H` to `Z`
/// stand for 8 to 26, numbers for which no question has a choice.
pub open spec fn choice_number(token: Seq<char>) -> Result<u8, Seq<char>> {
    let letter = trimmed_end(token);
    if utf8_len(letter) > 1 {
        Err(CHOICE_TOO_LONG@)
    } else if utf8_len(letter) == 0 {
        Err(CHOICE_MISSING@)
    } else if !is_ascii_letter(letter[0]) {
        Err(CHOICE_NOT_A_LETTER@)
    } else if letter[0] > 'g' {
        Err(CHOICE_OUT_OF_RANGE@)
    } else {
        Ok(letter_number(letter[0]) as u8)
    }
}

/// The letter that names the choice at `index`: `a` for the first.
pub open spec fn choice_letter(index: nat) -> char {
    ('a' as nat + index) as char
}

/// A short-answer question: a prompt and the answer expected to it.
pub struct ShortAnswerView {
    pub prompt: Seq<char>,
    pub answer: Seq<char>,
}

impl ShortAnswerView {
    /// Neither text begins or ends with whitespace.
    pub open spec fn well_formed(self) -> bool {
        is_trimmed(self.prompt) && is_trimmed(self.answer)
    }

    /// A candidate is right when it is the expected answer, character for
    /// character.
    pub open spec fn verdict(self, candidate: Seq<char>) -> Result<bool, Seq<char>> {
        Ok(candidate == self.answer)
    }
}

/// A multiple-choice question: a prompt, the choices in the order of the
/// record, and the place of the correct one among them, counted from 0.
/// Choices are numbered from 1, so this is the number of the correct
/// choice less one.
pub struct MultipleChoiceView {
    pub prompt: Seq<char>,
    pub choices: Seq<Seq<char>>,
    pub correct_index: nat,
}

impl MultipleChoiceView {
    /// There are three to six choices, and the correct one is among them.
    pub open spec fn well_formed(self) -> bool {
        3 <= self.choices.len() <= 6 && self.correct_index < self.choices.len()
    }

    /// The letter that names the correct choice.
    pub open spec fn correct_letter(self) -> char {
        choice_letter(self.correct_index)
    }

    /// A candidate is right when it is a choice token for the number of the
    /// correct choice; one that is no choice token is refused for the
    /// reason that [`choice_number`] gives.
    pub open spec fn verdict(self, candidate: Seq<char>) -> Result<bool, Seq<char>> {
        match choice_number(candidate) {
            Ok(number) => Ok(number == self.correct_index + 1),
            Err(reason) => Err(reason),
        }
    }
}

/// A question of either kind.
pub enum QuestionView {
    ShortAnswer(ShortAnswerView),
    MultipleChoice(MultipleChoiceView),
}

impl QuestionView {
    /// The invariant of the question's kind holds.
    pub open spec fn well_formed(self) -> bool {
        match self {
            QuestionView::ShortAnswer(q) => q.well_formed(),
            QuestionView::MultipleChoice(q) => q.well_formed(),
        }
    }

    /// The text that puts the question.
    pub open spec fn prompt(self) -> Seq<char> {
        match self {
            QuestionView::ShortAnswer(q) => q.prompt,
            QuestionView::MultipleChoice(q) => q.prompt,
        }
    }

    /// The correct answer as a text to show: the expected answer of a
    /// short-answer question, the letter of the correct choice of a
    /// multiple-choice question.
    pub open spec fn answer_text(self) -> Seq<char> {
        match self {
            QuestionView::ShortAnswer(q) => q.answer,
            QuestionView::MultipleChoice(q) => seq![q.correct_letter()],
        }
    }

    /// Whether a candidate answers the question, or why it cannot be
    /// judged.
    pub open spec fn verdict(self, candidate: Seq<char>) -> Result<bool, Seq<char>> {
        match self {
            QuestionView::ShortAnswer(q) => q.verdict(candidate),
            QuestionView::MultipleChoice(q) => q.verdict(candidate),
        }
    }
}

/// The short-answer question that a prompt field and an answer field
/// give: each field without its surrounding whitespace.
pub open spec fn short_answer_of(question: Seq<char>, answer: Seq<char>) -> ShortAnswerView {
    ShortAnswerView { prompt: trimmed(question), answer: trimmed(answer) }
}

/// The multiple-choice question that the fields of a record give, or the
/// reason why they give none.
///
/// There must be exactly five fields: a tag, a field that is not read, the
/// prompt, the choices and the letter of the correct choice. The prompt is
/// kept as it stands. The choices are the segments of their field between
/// `|`, kept as they stand. The first fault found decides: the number of
/// fields, the letter, too few choices, too many, a letter past the last
/// choice.
pub open spec fn multiple_choice_of(fields: Seq<Seq<char>>) -> Result<
    MultipleChoiceView,
    Seq<char>,
> {
    if fields.len() != 5 {
        Err(WRONG_FIELD_COUNT@)
    } else {
        match choice_number(fields[4]) {
            Err(reason) => Err(reason),
            Ok(number) => {
                let choices = pieces(fields[3], SEPARATOR);
                if choices.len() < 3 {
                    Err(TOO_FEW_CHOICES@)
                } else if choices.len() > 6 {
                    Err(TOO_MANY_CHOICES@)
                } else if number > choices.len() {
                    Err(ANSWER_NOT_A_CHOICE@)
                } else {
                    Ok(
                        MultipleChoiceView {
                            prompt: fields[2],
                            choices,
                            correct_index: (number - 1) as nat,
                        },
                    )
                }
            },
        }
    }
}

/// The letters `a` to `g` are choice tokens, and the token of a letter
/// stands for the number of the letter's choice: `a` for choice 1.
pub proof fn lemma_letter_names_its_choice(index: nat)
    requires
        index < 7,
    ensures
        choice_number(seq![choice_letter(index)]) == Ok::<u8, Seq<char>>((index + 1) as u8),
{
    let token = seq![choice_letter(index)];
    assert(trimmed_end(token) == token);
    lemma_utf8_len_of_short_text(token);
}

/// A choice token is a single letter once its trailing whitespace is
/// taken away. It stands for a number from 1 to 26, and for one from 1 to
/// 7 when the letter is lower-case.
pub proof fn lemma_choice_number_bounds(token: Seq<char>)
    requires
        choice_number(token) is Ok,
    ensures
        1 <= choice_number(token)->Ok_0 <= 26,
        trimmed_end(token).len() == 1,
        'a' <= trimmed_end(token)[0] ==> choice_number(token)->Ok_0 <= 7,
{
    lemma_utf8_len_of_short_text(trimmed_end(token));
}

/// The fields of a record give a short-answer question that is well
/// formed, whose prompt and answer are the two fields without their
/// surrounding whitespace, and which takes that answer and no other text.
pub proof fn lemma_short_answer_takes_its_answer_only(
    question: Seq<char>,
    answer: Seq<char>,
    candidate: Seq<char>,
)
    ensures
        short_answer_of(question, answer).well_formed(),
        ({
            let q = QuestionView::ShortAnswer(short_answer_of(question, answer));
            &&& q.prompt() == trimmed(question)
            &&& q.answer_text() == trimmed(answer)
            &&& q.verdict(trimmed(answer)) == Ok::<bool, Seq<char>>(true)
            &&& candidate != trimmed(answer) ==> q.verdict(candidate) == Ok::<bool, Seq<char>>(
                false,
            )
        }),
{
    lemma_trimmed_is_trimmed(question);
    lemma_trimmed_is_trimmed(answer);
}

/// A multiple-choice question that the fields of a record give is well
/// formed: it has the prompt of the record, three to six choices, and a
/// correct choice among them, which is the one that the record's letter
/// names.
pub proof fn lemma_multiple_choice_of_is_well_formed(fields: Seq<Seq<char>>)
    requires
        multiple_choice_of(fields) is Ok,
    ensures
        multiple_choice_of(fields)->Ok_0.well_formed(),
        multiple_choice_of(fields)->Ok_0.prompt == fields[2],
        multiple_choice_of(fields)->Ok_0.choices == pieces(fields[3], SEPARATOR),
        choice_number(fields[4]) == Ok::<u8, Seq<char>>(
            (multiple_choice_of(fields)->Ok_0.correct_index + 1) as u8,
        ),
{
    lemma_choice_number_bounds(fields[4]);
}

/// A multiple-choice question takes the letter of its record, and of the
/// other choice tokens none: a token is right exactly when it stands for
/// the same number as the record's letter.
pub proof fn lemma_multiple_choice_takes_its_letter_only(
    fields: Seq<Seq<char>>,
    candidate: Seq<char>,
)
    requires
        multiple_choice_of(fields) is Ok,
    ensures
        ({
            let q = QuestionView::MultipleChoice(multiple_choice_of(fields)->Ok_0);
            &&& q.verdict(fields[4]) == Ok::<bool, Seq<char>>(true)
            &&& choice_number(candidate) is Ok ==> q.verdict(candidate) == Ok::<bool, Seq<char>>(
                choice_number(candidate) == choice_number(fields[4]),
            )
            &&& choice_number(candidate) is Err ==> q.verdict(candidate) == Err::<bool, Seq<char>>(
                choice_number(candidate)->Err_0,
            )
        }),
{
    lemma_choice_number_bounds(fields[4]);
    if choice_number(candidate) is Ok {
        lemma_choice_number_bounds(candidate);
    }
}

/// The answer that a well-formed question shows is an answer that it
/// takes.
pub proof fn lemma_shown_answer_is_taken(q: QuestionView)
    requires
        q.well_formed(),
    ensures
        q.verdict(q.answer_text()) == Ok::<bool, Seq<char>>(true),
{
    match q {
        QuestionView::ShortAnswer(_) => {},
        QuestionView::MultipleChoice(m) => {
            lemma_letter_names_its_choice(m.correct_index);
        },
    }
}

/// Decides [`is_ascii_letter`].
fn char_is_ascii_letter(c: char) -> (b: bool)
    ensures
        b == is_ascii_letter(c),
{
    ('a' <= c && c <= 'z') || ('A' <= c && c <= 'Z')
}

/// The number of the letter `c`, which sorts no later than `g`.
fn number_of_letter(c: char) -> (number: u8)
    requires
        is_ascii_letter(c),
        c <= 'g',
    ensures
        number == letter_number(c),
        1 <= number <= 26,
{
    if 'a' <= c {
        (c as u32 - 'a' as u32 + 1) as u8
    } else {
        (c as u32 - 'A' as u32 + 1) as u8
    }
}

/// Whether the UTF-8 encoding of `c` is a single byte.
fn char_is_one_byte(c: char) -> (b: bool)
    ensures
        b == (utf8_width(c) == 1),
{
    (c as u32) < 0x80
}

/// Converts the letter of a choice to its number: `a` to 1, up to `g` to 7.
pub fn convert_choice_to_number(choice: &str) -> (r: Result<u8, &'static str>)
    ensures
        outcome(r) == choice_number(choice@),
{
    let letter = chars_of(trim_end(choice));
    proof {
        lemma_utf8_len_of_short_text(letter@);
    }
    if letter.len() > 1 || (letter.len() == 1 && !char_is_one_byte(letter[0])) {
        Err(CHOICE_TOO_LONG)
    } else if letter.len() == 0 {
        Err(CHOICE_MISSING)
    } else if !char_is_ascii_letter(letter[0]) {
        Err(CHOICE_NOT_A_LETTER)
    } else if letter[0] > 'g' {
        Err(CHOICE_OUT_OF_RANGE)
    } else {
        Ok(number_of_letter(letter[0]))
    }
}

/// What every kind of question offers: its prompt, its correct answer as
/// a text to show, and a check of a candidate answer.
pub trait QuestionInterface: std::fmt::Debug {
    /// The question that the value holds.
    spec fn model(&self) -> QuestionView;

    /// Checks a candidate answer. A candidate that cannot be judged is
    /// refused with the reason.
    fn check_answer(&self, answer: &str) -> (r: Result<bool, &'static str>)
        ensures
            self.model().well_formed(),
            outcome(r) == self.model().verdict(answer@),
    ;

    /// The text that puts the question.
    fn question_text(&self) -> (text: String)
        ensures
            self.model().well_formed(),
            text@ == self.model().prompt(),
    ;

    /// The correct answer as a text to show.
    fn answer_text(&self) -> (text: String)
        ensures
            self.model().well_formed(),
            text@ == self.model().answer_text(),
    ;
}

/// A question that is answered by typing the expected text.
#[derive(Debug)]
pub struct ShortAnswer {
    prompt: String,
    expected_answer: String,
}

impl View for ShortAnswer {
    type V = ShortAnswerView;

    closed spec fn view(&self) -> ShortAnswerView {
        ShortAnswerView { prompt: self.prompt@, answer: self.expected_answer@ }
    }
}

impl ShortAnswer {
    #[verifier::type_invariant]
    spec fn inv(&self) -> bool {
        self@.well_formed()
    }

    /// A short-answer question from the prompt field and the answer field
    /// of a record.
    pub fn new(question: &str, answer: &str) -> (q: Self)
        ensures
            q@ == short_answer_of(question@, answer@),
    {
        proof {
            lemma_trimmed_is_trimmed(question@);
            lemma_trimmed_is_trimmed(answer@);
        }
        ShortAnswer { prompt: trim(question).to_owned(), expected_answer: trim(answer).to_owned() }
    }
}

impl QuestionInterface for ShortAnswer {
    open spec fn model(&self) -> QuestionView {
        QuestionView::ShortAnswer(self@)
    }

    fn check_answer(&self, answer: &str) -> (r: Result<bool, &'static str>) {
        proof {
            use_type_invariant(self);
        }
        Ok(same_text(answer, self.expected_answer.as_str()))
    }

    fn question_text(&self) -> (text: String) {
        proof {
            use_type_invariant(self);
        }
        self.prompt.clone()
    }

    fn answer_text(&self) -> (text: String) {
        proof {
            use_type_invariant(self);
        }
        self.expected_answer.clone()
    }
}

/// A question that is answered by typing the letter of one of three to
/// six choices.
#[derive(Debug)]
pub struct MultipleChoice {
    prompt: String,
    choices: Vec<String>,
    correct_index: u8,
}

impl View for MultipleChoice {
    type V = MultipleChoiceView;

    closed spec fn view(&self) -> MultipleChoiceView {
        MultipleChoiceView {
            prompt: self.prompt@,
            choices: views(self.choices@),
            correct_index: self.correct_index as nat,
        }
    }
}

/// The one-letter text that names the choice at `index`.
fn letter_text(index: u8) -> (text: &'static str)
    requires
        index < 6,
    ensures
        text@ == seq![choice_letter(index as nat)],
{
    proof {
        reveal_strlit("a");
        reveal_strlit("b");
        reveal_strlit("c");
        reveal_strlit("d");
        reveal_strlit("e");
        reveal_strlit("f");
    }
    let text = match index {
        0 => "a",
        1 => "b",
        2 => "c",
        3 => "d",
        4 => "e",
        _ => "f",
    };
    assert(text@ =~= seq![choice_letter(index as nat)]);
    text
}

impl MultipleChoice {
    #[verifier::type_invariant]
    spec fn inv(&self) -> bool {
        self@.well_formed()
    }

    /// A multiple-choice question from the fields of a record.
    pub fn new(fields: &[&str]) -> (r: Result<Self, &'static str>)
        ensures
            outcome(r) == multiple_choice_of(views(fields@)),
    {
        if fields.len() != 5 {
            return Err(WRONG_FIELD_COUNT);
        }
        let number = match convert_choice_to_number(fields[4]) {
            Ok(number) => number,
            Err(reason) => {
                return Err(reason);
            },
        };
        let parts = split(fields[3], SEPARATOR);
        if parts.len() < 3 {
            Err(TOO_FEW_CHOICES)
        } else if parts.len() > 6 {
            Err(TOO_MANY_CHOICES)
        } else if number as usize > parts.len() {
            Err(ANSWER_NOT_A_CHOICE)
        } else {
            let mut choices: Vec<String> = Vec::new();
            let mut i: usize = 0;
            while i < parts.len()
                invariant
                    i <= parts.len(),
                    views(choices@) == views(parts@).take(i as int),
                decreases parts.len() - i,
            {
                let choice = parts[i].to_owned();
                assert(views(choices@.push(choice)) == views(choices@).push(choice@));
                assert(views(parts@).take(i + 1) == views(parts@).take(i as int).push(
                    parts@[i as int]@,
                ));
                choices.push(choice);
                i += 1;
            }
            assert(views(parts@).take(i as int) == views(parts@));
            Ok(MultipleChoice { prompt: fields[2].to_owned(), choices, correct_index: number - 1 })
        }
    }

    /// The choices, in the order of the record.
    pub fn choices(&self) -> (choices: &Vec<String>)
        ensures
            views(choices@) == self@.choices,
            self@.well_formed(),
    {
        proof {
            use_type_invariant(self);
        }
        &self.choices
    }
}

impl QuestionInterface for MultipleChoice {
    open spec fn model(&self) -> QuestionView {
        QuestionView::MultipleChoice(self@)
    }

    fn check_answer(&self, answer: &str) -> (r: Result<bool, &'static str>) {
        proof {
            use_type_invariant(self);
        }
        match convert_choice_to_number(answer) {
            Ok(number) => Ok(number == self.correct_index + 1),
            Err(reason) => Err(reason),
        }
    }

    fn question_text(&self) -> (text: String) {
        proof {
            use_type_invariant(self);
        }
        self.prompt.clone()
    }

    fn answer_text(&self) -> (text: String) {
        proof {
            use_type_invariant(self);
        }
        letter_text(self.correct_index).to_owned()
    }
}

/// A question of either kind.
#[derive(Debug)]
pub enum Question {
    ShortAnswer(ShortAnswer),
    MultipleChoice(MultipleChoice),
}

impl View for Question {
    type V = QuestionView;

    open spec fn view(&self) -> QuestionView {
        match self {
            Question::ShortAnswer(q) => QuestionView::ShortAnswer(q@),
            Question::MultipleChoice(q) => QuestionView::MultipleChoice(q@),
        }
    }
}

impl QuestionInterface for Question {
    open spec fn model(&self) -> QuestionView {
        self@
    }

    fn check_answer(&self, answer: &str) -> (r: Result<bool, &'static str>) {
        match self {
            Question::ShortAnswer(q) => q.check_answer(answer),
            Question::MultipleChoice(q) => q.check_answer(answer),
        }
    }

    fn question_text(&self) -> (text: String) {
        match self {
            Question::ShortAnswer(q) => q.question_text(),
            Question::MultipleChoice(q) => q.question_text(),
        }
    }

    fn answer_text(&self) -> (text: String) {
        match self {
            Question::ShortAnswer(q) => q.answer_text(),
            Question::MultipleChoice(q) => q.answer_text(),
        }
    }
}

} // verus!
