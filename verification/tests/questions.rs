use quiz_questions::{MultipleChoice, Question, QuestionInterface, ShortAnswer};

fn mc(choices: &str, letter: &str) -> Result<MultipleChoice, &'static str> {
    MultipleChoice::new(&["mc", "x", "Which?", choices, letter])
}

#[test]
fn short_answer_keeps_prompt_and_answer() {
    let q = ShortAnswer::new("Q", "A");
    assert_eq!(q.question_text(), "Q");
    assert_eq!(q.answer_text(), "A");
    assert_eq!(q.check_answer("A"), Ok(true));
    assert_eq!(q.check_answer("B"), Ok(false));
}

#[test]
fn short_answer_trims_both_fields() {
    let q = ShortAnswer::new("  What is 2 + 2?\t", "\u{a0}four \n");
    assert_eq!(q.question_text(), "What is 2 + 2?");
    assert_eq!(q.answer_text(), "four");
    assert_eq!(q.check_answer("four"), Ok(true));
}

#[test]
fn short_answer_compares_exactly() {
    let q = ShortAnswer::new("Capital of France?", "Paris");
    assert_eq!(q.check_answer("Paris"), Ok(true));
    assert_eq!(q.check_answer("paris"), Ok(false));
    assert_eq!(q.check_answer("Paris "), Ok(false));
    assert_eq!(q.check_answer(" Paris"), Ok(false));
    assert_eq!(q.check_answer(""), Ok(false));
    assert_eq!(q.check_answer("Capital of France?"), Ok(false));
}

#[test]
fn short_answer_may_be_empty() {
    let q = ShortAnswer::new(" ", "");
    assert_eq!(q.question_text(), "");
    assert_eq!(q.answer_text(), "");
    assert_eq!(q.check_answer(""), Ok(true));
    assert_eq!(q.check_answer(" "), Ok(false));
}

#[test]
fn short_answer_takes_the_answer_it_shows() {
    for (question, answer) in [("Q", "A"), (" Q ", " A "), ("", ""), ("a|b", "c|d")] {
        let q = ShortAnswer::new(question, answer);
        assert_eq!(q.check_answer(&q.answer_text()), Ok(true));
    }
}

#[test]
fn multiple_choice_with_three_choices() {
    let q = mc("one|two|three", "b").unwrap();
    assert_eq!(q.question_text(), "Which?");
    assert_eq!(q.choices(), &vec!["one", "two", "three"]);
    assert_eq!(q.answer_text(), "b");
    assert_eq!(q.check_answer("b"), Ok(true));
    assert_eq!(q.check_answer("a"), Ok(false));
    assert_eq!(q.check_answer("c"), Ok(false));
}

#[test]
fn multiple_choice_with_six_choices() {
    let q = mc("1|2|3|4|5|6", "f").unwrap();
    assert_eq!(q.choices().len(), 6);
    assert_eq!(q.answer_text(), "f");
    assert_eq!(q.check_answer("f"), Ok(true));
    for other in ["a", "b", "c", "d", "e", "g"] {
        assert_eq!(q.check_answer(other), Ok(false));
    }
}

#[test]
fn multiple_choice_with_two_choices_has_not_enough() {
    assert_eq!(mc("1|2", "a").err(), Some("not enough choices"));
    assert_eq!(mc("1", "a").err(), Some("not enough choices"));
    assert_eq!(mc("", "a").err(), Some("not enough choices"));
}

#[test]
fn multiple_choice_with_seven_choices_has_too_many() {
    assert_eq!(mc("1|2|3|4|5|6|7", "a").err(), Some("too many choices"));
    assert_eq!(mc("1|2|3|4|5|6|7", "g").err(), Some("too many choices"));
    assert_eq!(mc("||||||||", "a").err(), Some("too many choices"));
}

#[test]
fn multiple_choice_answer_must_be_a_choice() {
    assert!(mc("1|2|3", "c").is_ok());
    assert_eq!(mc("1|2|3", "d").err(), Some("answer must be a choice"));
    assert_eq!(mc("1|2|3|4|5|6", "g").err(), Some("answer must be a choice"));
    assert_eq!(mc("1|2|3", "D").err(), Some("answer must be a choice"));
    assert_eq!(mc("1|2|3", "Z").err(), Some("answer must be a choice"));
}

#[test]
fn multiple_choice_needs_five_fields() {
    let reason = "incorrect number of fields for multiple choice";
    assert_eq!(MultipleChoice::new(&[]).err(), Some(reason));
    assert_eq!(MultipleChoice::new(&["mc", "x", "Q", "1|2|3"]).err(), Some(reason));
    assert_eq!(MultipleChoice::new(&["mc", "x", "Q", "1", "2", "3", "a"]).err(), Some(reason));
    assert_eq!(MultipleChoice::new(&["mc", "x", "Q", "1|2|3", "a", ""]).err(), Some(reason));
}

#[test]
fn multiple_choice_reports_the_first_fault() {
    assert_eq!(mc("1|2", "ab").err(), Some("choice is too long"));
    assert_eq!(mc("1|2", "").err(), Some("must have a choice"));
    assert_eq!(mc("1|2", "3").err(), Some("the correct choice must be a letter"));
    assert_eq!(mc("1|2", "h").err(), Some("choice must be between a-g"));
    assert_eq!(mc("1|2|3|4|5|6|7", "h").err(), Some("choice must be between a-g"));
    assert_eq!(mc("1|2", "c").err(), Some("not enough choices"));
    assert_eq!(
        MultipleChoice::new(&["mc", "x", "Q", "1|2", "ab", "more"]).err(),
        Some("incorrect number of fields for multiple choice")
    );
}

#[test]
fn multiple_choice_keeps_prompt_and_choices_as_they_stand() {
    let q = MultipleChoice::new(&["m", "", "  Which? ", " one |two| ", "c "]).unwrap();
    assert_eq!(q.question_text(), "  Which? ");
    assert_eq!(q.choices(), &vec![" one ", "two", " "]);
    assert_eq!(q.answer_text(), "c");
}

#[test]
fn multiple_choice_does_not_read_its_first_two_fields() {
    let q = MultipleChoice::new(&["anything", "at all", "Q", "1|2|3", "a"]).unwrap();
    assert_eq!(q.question_text(), "Q");
    assert_eq!(q.check_answer("a"), Ok(true));
}

#[test]
fn multiple_choice_refuses_what_is_no_letter() {
    let q = mc("1|2|3", "a").unwrap();
    assert_eq!(q.check_answer(""), Err("must have a choice"));
    assert_eq!(q.check_answer("ab"), Err("choice is too long"));
    assert_eq!(q.check_answer("1"), Err("the correct choice must be a letter"));
    assert_eq!(q.check_answer("h"), Err("choice must be between a-g"));
    assert_eq!(q.check_answer("1"), Err("the correct choice must be a letter"));
    assert_eq!(q.check_answer("a"), Ok(true));
}

#[test]
fn multiple_choice_takes_a_letter_in_either_case_with_trailing_whitespace() {
    let q = mc("1|2|3", "B").unwrap();
    assert_eq!(q.answer_text(), "b");
    assert_eq!(q.check_answer("b"), Ok(true));
    assert_eq!(q.check_answer("B"), Ok(true));
    assert_eq!(q.check_answer("b  "), Ok(true));
    assert_eq!(q.check_answer("b\n"), Ok(true));
    assert_eq!(q.check_answer(" b"), Err("choice is too long"));
    assert_eq!(q.check_answer("g"), Ok(false));
    assert_eq!(q.check_answer("Z"), Ok(false));
}

#[test]
fn multiple_choice_takes_its_letter_and_no_other() {
    let letters = ["a", "b", "c", "d", "e", "f", "g"];
    for count in 3..=6usize {
        let choices = vec!["x"; count].join("|");
        for correct in 0..count {
            let q = mc(&choices, letters[correct]).unwrap();
            assert_eq!(q.answer_text(), letters[correct]);
            for (i, letter) in letters.iter().enumerate() {
                assert_eq!(q.check_answer(letter), Ok(i == correct));
            }
        }
        for past in count..7 {
            assert_eq!(mc(&choices, letters[past]).err(), Some("answer must be a choice"));
        }
    }
}

#[test]
fn question_of_either_kind_answers_as_its_kind() {
    let short = Question::ShortAnswer(ShortAnswer::new(" Q ", " A "));
    assert_eq!(short.question_text(), "Q");
    assert_eq!(short.answer_text(), "A");
    assert_eq!(short.check_answer("A"), Ok(true));
    assert_eq!(short.check_answer("a"), Ok(false));
    let multiple = Question::MultipleChoice(mc("1|2|3|4", "d").unwrap());
    assert_eq!(multiple.question_text(), "Which?");
    assert_eq!(multiple.answer_text(), "d");
    assert_eq!(multiple.check_answer("d"), Ok(true));
    assert_eq!(multiple.check_answer("a"), Ok(false));
    assert_eq!(multiple.check_answer("4"), Err("the correct choice must be a letter"));
}

#[test]
fn question_takes_the_answer_it_shows() {
    let questions = vec![
        Question::ShortAnswer(ShortAnswer::new("Q", "A")),
        Question::MultipleChoice(mc("1|2|3", "a").unwrap()),
        Question::MultipleChoice(mc("1|2|3|4|5|6", "f").unwrap()),
    ];
    for q in &questions {
        assert_eq!(q.check_answer(&q.answer_text()), Ok(true));
    }
}
