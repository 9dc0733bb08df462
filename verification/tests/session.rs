use trivia_quiz::game::trivia::{
    after_response, pick_selection, selection_for, FetchOutcome, Question, RetryDecision,
    SelectionError, SessionState, StartAction, StartError, TriviaGame, TriviaGameOptions,
    MAX_ATTEMPTS,
};

fn options() -> TriviaGameOptions {
    TriviaGameOptions { number_of_questions: 3, category: 15, difficulty: "easy", kind: "any" }
}

fn multiple(text: &str, correct: &str, wrong: &[&str]) -> Question {
    Question {
        kind: "multiple".to_string(),
        difficulty: "easy".to_string(),
        category: "Entertainment: Video Games".to_string(),
        question: text.to_string(),
        correct_answer: correct.to_string(),
        incorrect_answers: wrong.iter().map(|w| w.to_string()).collect(),
    }
}

fn boolean(text: &str, correct: &str, wrong: &[&str]) -> Question {
    let mut q = multiple(text, correct, wrong);
    q.kind = "boolean".to_string();
    q
}

fn three_questions() -> Vec<Question> {
    vec![
        multiple("Who made &quot;Doom&quot;?", "id Software", &["Valve", "Epic", "Sega"]),
        boolean("Is 2 &lt; 3?", "True", &["False"]),
        multiple("Tom &amp; who?", "Jerry &amp; co", &["Spike", "Butch"]),
    ]
}

fn loaded(questions: Vec<Question>) -> TriviaGame {
    let mut game = TriviaGame::new(options());
    game.start();
    let next = game.receive(FetchOutcome::Response { response_code: 0, results: questions });
    assert!(matches!(next, Ok(StartAction::Ready)));
    game
}

fn sorted(mut items: Vec<String>) -> Vec<String> {
    items.sort();
    items
}

#[test]
fn new_session_is_uninitialized() {
    let game = TriviaGame::new(options());
    assert_eq!(game.state(), SessionState::Uninitialized);
    assert!(game.is_end());
    assert_eq!(game.get_score(), "0/0");
}

#[test]
fn retry_policy_by_attempt_and_code() {
    assert_eq!(MAX_ATTEMPTS, 5);
    assert_eq!(after_response(1, 0), RetryDecision::Accept);
    assert_eq!(after_response(5, 0), RetryDecision::Accept);
    assert_eq!(after_response(1, 1), RetryDecision::Retry);
    assert_eq!(after_response(4, 2), RetryDecision::Retry);
    assert_eq!(after_response(5, 1), RetryDecision::GiveUp);
    assert_eq!(after_response(5, 65535), RetryDecision::GiveUp);
}

#[test]
fn start_gives_up_after_exactly_five_refused_attempts() {
    let mut game = TriviaGame::new(options());
    let mut query = game.start();
    let mut attempts = 0;
    let result = loop {
        assert_eq!(game.state(), SessionState::Retrieving);
        assert_eq!(query[0], ("amount", "3".to_string()));
        attempts += 1;
        let outcome = FetchOutcome::Response { response_code: 1, results: three_questions() };
        match game.receive(outcome) {
            Ok(StartAction::Fetch(again)) => query = again,
            Ok(StartAction::Ready) => break Ok(()),
            Err(e) => break Err(e),
        }
        assert!(attempts < 100);
    };
    assert_eq!(result, Err(StartError::RetrievalExhausted));
    assert_eq!(attempts, 5);
    assert_eq!(game.state(), SessionState::Uninitialized);
    assert!(game.is_end());
    assert_eq!(game.get_score(), "0/0");
}

#[test]
fn start_succeeds_on_the_second_attempt() {
    let mut game = TriviaGame::new(options());
    let first = game.start();
    let second = match game.receive(FetchOutcome::Response { response_code: 1, results: vec![] }) {
        Ok(StartAction::Fetch(query)) => query,
        _ => panic!("a refused first attempt is tried again"),
    };
    assert_eq!(first, second);
    let next = game.receive(FetchOutcome::Response { response_code: 0, results: three_questions() });
    assert!(matches!(next, Ok(StartAction::Ready)));
    assert_eq!(game.state(), SessionState::Presenting);
    assert!(!game.is_end());
    assert_eq!(game.get_score(), "0/3");
    assert_eq!(game.get_question(), "Who made \"Doom\"?");
}

#[test]
fn start_accepts_on_the_fifth_attempt() {
    let mut game = TriviaGame::new(options());
    game.start();
    for _ in 0..4 {
        let next = game.receive(FetchOutcome::Response { response_code: 2, results: vec![] });
        assert!(matches!(next, Ok(StartAction::Fetch(_))));
    }
    let next = game.receive(FetchOutcome::Response { response_code: 0, results: three_questions() });
    assert!(matches!(next, Ok(StartAction::Ready)));
    assert_eq!(game.get_score(), "0/3");
}

#[test]
fn transport_failure_ends_the_start_at_once() {
    let mut game = TriviaGame::new(options());
    game.start();
    let next = game.receive(FetchOutcome::Failed);
    assert!(matches!(next, Err(StartError::Transport)));
    assert_eq!(game.state(), SessionState::Uninitialized);
}

#[test]
fn empty_batch_is_finished_at_once() {
    let game = loaded(vec![]);
    assert_eq!(game.state(), SessionState::Finished);
    assert!(game.is_end());
    assert_eq!(game.get_score(), "0/0");
}

#[test]
fn current_question_is_shown_decoded() {
    let mut q = multiple("Caf&eacute; &amp; bar &lt;3", "x", &["y"]);
    q.difficulty = "&quot;hard&quot;".to_string();
    q.category = "Science &amp; Nature".to_string();
    let game = loaded(vec![q]);
    assert_eq!(game.get_question(), "Caf\u{e9} & bar <3");
    assert_eq!(game.get_difficulty(), "\"hard\"");
    assert_eq!(game.get_category(), "Science & Nature");
}

#[test]
fn boolean_selection_is_true_then_false() {
    let stored = [
        boolean("q", "True", &["False"]),
        boolean("q", "False", &["True"]),
        boolean("q", "Yes", &["No", "Maybe", "&lt;"]),
        boolean("q", "False", &[]),
    ];
    for q in stored {
        let game = loaded(vec![q]);
        for _ in 0..20 {
            assert_eq!(game.get_selection(), vec!["True".to_string(), "False".to_string()]);
        }
    }
}

#[test]
fn multiple_selection_holds_each_decoded_answer_once() {
    let game = loaded(vec![multiple(
        "q",
        "Tom &amp; Jerry",
        &["&lt;none&gt;", "It&#039;s", "&quot;x&quot;"],
    )]);
    for _ in 0..50 {
        assert_eq!(
            sorted(game.get_selection()),
            sorted(vec![
                "<none>".to_string(),
                "It's".to_string(),
                "\"x\"".to_string(),
                "Tom & Jerry".to_string(),
            ])
        );
    }
}

#[test]
fn multiple_selection_keeps_duplicates() {
    let q = multiple("q", "same", &["same", "other", "other"]);
    for _ in 0..20 {
        assert_eq!(
            sorted(selection_for(&q)),
            vec!["other".to_string(), "other".to_string(), "same".to_string(), "same".to_string()]
        );
    }
}

#[test]
fn multiple_selection_does_not_fix_the_place_of_the_correct_answer() {
    let q = multiple("q", "right", &["a", "b", "c"]);
    let mut seen = [false; 4];
    for _ in 0..400 {
        let selection = selection_for(&q);
        assert_eq!(selection.len(), 4);
        let place = selection.iter().position(|s| s == "right").unwrap();
        seen[place] = true;
    }
    assert!(seen.iter().filter(|s| **s).count() >= 2);
}

#[test]
fn correct_answer_scores_and_advances() {
    let mut game = loaded(three_questions());
    assert!(game.answer("id Software"));
    assert_eq!(game.get_score(), "1/3");
    assert_eq!(game.state(), SessionState::Presenting);
    assert_eq!(game.get_question(), "Is 2 < 3?");
}

#[test]
fn wrong_answer_only_advances() {
    let mut game = loaded(three_questions());
    assert!(!game.answer("Valve"));
    assert_eq!(game.get_score(), "0/3");
    assert_eq!(game.get_question(), "Is 2 < 3?");
    assert!(!game.answer("true"));
    assert_eq!(game.get_score(), "0/3");
    assert_eq!(game.get_question(), "Tom & who?");
}

#[test]
fn answer_is_held_against_the_shown_text() {
    let mut game = loaded(three_questions());
    game.answer("id Software");
    game.answer("True");
    assert!(game.get_selection().contains(&"Jerry & co".to_string()));
    assert!(game.answer("Jerry & co"));
    let mut game = loaded(three_questions());
    game.answer("id Software");
    game.answer("True");
    assert!(!game.answer("Jerry &amp; co"));
}

#[test]
fn session_ends_after_as_many_answers_as_questions() {
    let mut game = loaded(three_questions());
    let answers = ["id Software", "False", "Jerry & co"];
    let mut given = 0;
    for answer in answers {
        assert!(!game.is_end());
        game.answer(answer);
        given += 1;
    }
    assert_eq!(given, 3);
    assert!(game.is_end());
    assert_eq!(game.state(), SessionState::Finished);
    assert_eq!(game.get_score(), "2/3");
}

#[test]
fn score_is_written_in_decimal() {
    let questions: Vec<Question> = (0..12).map(|_| boolean("q", "True", &["False"])).collect();
    let mut game = loaded(questions);
    for i in 0..12 {
        game.answer(if i < 10 { "True" } else { "False" });
    }
    assert!(game.is_end());
    assert_eq!(game.get_score(), "10/12");
}

#[test]
fn selection_numbers_count_from_one() {
    let selections = vec!["a".to_string(), "b".to_string(), "c".to_string()];
    assert_eq!(pick_selection(&selections, 1), Ok("a".to_string()));
    assert_eq!(pick_selection(&selections, 3), Ok("c".to_string()));
    assert_eq!(pick_selection(&selections, 0), Err(SelectionError::InvalidSelection));
    assert_eq!(pick_selection(&selections, 4), Err(SelectionError::InvalidSelection));
    assert_eq!(pick_selection(&vec![], 1), Err(SelectionError::InvalidSelection));
}
