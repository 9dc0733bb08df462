//! Options of a quiz, the questions of a session, and the session's state.

use vstd::prelude::*;
use crate::text::{decimal, decimal_text, push_decimal, same_text};
use crate::util::{decode_entities, escape_html};
use rand::seq::SliceRandom;

verus! {

/// A label that names no option.
#[derive(Clone, Copy, Debug, PartialEq, Eq, Structural)]
pub enum ConfigurationError {
    UnknownLabel,
}

/// The form of the questions asked for.
#[derive(Clone, Copy, Debug, PartialEq, Eq, Structural)]
pub enum TriviaGameType {
    AnyType,
    Boolean,
    Multiple,
}

/// How hard the questions asked for are.
#[derive(Clone, Copy, Debug, PartialEq, Eq, Structural)]
pub enum TriviaGameDifficulty {
    Any,
    Easy,
    Hard,
    Medium,
}

/// The subject of the questions asked for.
#[derive(Clone, Copy, Debug, PartialEq, Eq, Structural)]
pub enum TriviaGameCategory {
    AnyCategory,
    GeneralKnowledge,
    EntertainmentBooks,
    EntertainmentFilm,
    EntertainmentMusic,
    EntertainmentMusicalAndTheatre,
    EntertainmentTelevision,
    EntertainmentVideoGames,
    EntertainmentBoardGames,
}

impl TriviaGameType {
    /// The label shown to a person.
    pub open spec fn label(self) -> Seq<char> {
        match self {
            TriviaGameType::AnyType => "Any Type"@,
            TriviaGameType::Multiple => "Multiple Choice"@,
            TriviaGameType::Boolean => "True or False"@,
        }
    }

    /// The value that the query carries.
    pub open spec fn wire(self) -> Seq<char> {
        match self {
            TriviaGameType::AnyType => "any"@,
            TriviaGameType::Multiple => "multiple"@,
            TriviaGameType::Boolean => "boolean"@,
        }
    }

    /// The option that a label names, if it names one.
    pub open spec fn from_label(label: Seq<char>) -> Option<TriviaGameType> {
        if label == TriviaGameType::AnyType.label() {
            Some(TriviaGameType::AnyType)
        } else if label == TriviaGameType::Multiple.label() {
            Some(TriviaGameType::Multiple)
        } else if label == TriviaGameType::Boolean.label() {
            Some(TriviaGameType::Boolean)
        } else {
            None
        }
    }

    /// The labels, in the order in which they are offered.
    pub fn get_str<'a>() -> (labels: [&'a str; 3])
        ensures
            labels@.len() == 3,
            labels@[0]@ == TriviaGameType::AnyType.label(),
            labels@[1]@ == TriviaGameType::Multiple.label(),
            labels@[2]@ == TriviaGameType::Boolean.label(),
    {
        ["Any Type", "Multiple Choice", "True or False"]
    }

    /// The wire value of the option that `index` names; an error where it
    /// names none.
    pub fn select_by_str(index: &str) -> (wire: Result<&'static str, ConfigurationError>)
        ensures
            match TriviaGameType::from_label(index@) {
                Some(option) => wire is Ok && wire->Ok_0@ == option.wire(),
                None => wire == Err::<&'static str, ConfigurationError>(
                    ConfigurationError::UnknownLabel,
                ),
            },
    {
        if same_text(index, "Any Type") {
            Ok("any")
        } else if same_text(index, "Multiple Choice") {
            Ok("multiple")
        } else if same_text(index, "True or False") {
            Ok("boolean")
        } else {
            Err(ConfigurationError::UnknownLabel)
        }
    }

    /// The wire value of an option.
    pub fn select_by_enum(index: TriviaGameType) -> (wire: &'static str)
        ensures
            wire@ == index.wire(),
    {
        match index {
            TriviaGameType::Boolean => "boolean",
            TriviaGameType::Multiple => "multiple",
            TriviaGameType::AnyType => "any",
        }
    }

    /// Every option is found again by its label: `from_label` of the label of
    /// `option` is `option`, so `select_by_str` on that label gives what
    /// `select_by_enum` gives on the option.
    pub proof fn lemma_label_round_trip(option: TriviaGameType)
        ensures
            TriviaGameType::from_label(option.label()) == Some(option),
    {
        reveal_strlit("Any Type");
        reveal_strlit("Multiple Choice");
        reveal_strlit("True or False");
        assert("Any Type"@.len() == 8);
        assert("Multiple Choice"@.len() == 15);
        assert("True or False"@.len() == 13);
    }

    /// No two options share a wire value: the wire value names the option.
    pub proof fn lemma_wire_names_one_option(a: TriviaGameType, b: TriviaGameType)
        requires
            a.wire() == b.wire(),
        ensures
            a == b,
    {
        reveal_strlit("any");
        reveal_strlit("multiple");
        reveal_strlit("boolean");
        assert("any"@.len() == 3);
        assert("multiple"@.len() == 8);
        assert("boolean"@.len() == 7);
    }
}

impl TriviaGameDifficulty {
    /// The label shown to a person.
    pub open spec fn label(self) -> Seq<char> {
        match self {
            TriviaGameDifficulty::Any => "Any Difficulty"@,
            TriviaGameDifficulty::Easy => "Easy"@,
            TriviaGameDifficulty::Hard => "Hard"@,
            TriviaGameDifficulty::Medium => "Medium"@,
        }
    }

    /// The value that the query carries.
    pub open spec fn wire(self) -> Seq<char> {
        match self {
            TriviaGameDifficulty::Any => "any"@,
            TriviaGameDifficulty::Easy => "easy"@,
            TriviaGameDifficulty::Hard => "hard"@,
            TriviaGameDifficulty::Medium => "medium"@,
        }
    }

    /// The option that a label names, if it names one.
    pub open spec fn from_label(label: Seq<char>) -> Option<TriviaGameDifficulty> {
        if label == TriviaGameDifficulty::Any.label() {
            Some(TriviaGameDifficulty::Any)
        } else if label == TriviaGameDifficulty::Easy.label() {
            Some(TriviaGameDifficulty::Easy)
        } else if label == TriviaGameDifficulty::Hard.label() {
            Some(TriviaGameDifficulty::Hard)
        } else if label == TriviaGameDifficulty::Medium.label() {
            Some(TriviaGameDifficulty::Medium)
        } else {
            None
        }
    }

    /// The labels, in the order in which they are offered.
    pub fn get_str<'a>() -> (labels: [&'a str; 4])
        ensures
            labels@.len() == 4,
            labels@[0]@ == TriviaGameDifficulty::Any.label(),
            labels@[1]@ == TriviaGameDifficulty::Easy.label(),
            labels@[2]@ == TriviaGameDifficulty::Hard.label(),
            labels@[3]@ == TriviaGameDifficulty::Medium.label(),
    {
        [
            "Any Difficulty",
            "Easy",
            "Hard",
            "Medium",
        ]
    }

    /// The wire value of the option that `index` names; an error where it
    /// names none.
    pub fn select_by_str(index: &str) -> (wire: Result<&'static str, ConfigurationError>)
        ensures
            match TriviaGameDifficulty::from_label(index@) {
                Some(option) => wire is Ok && wire->Ok_0@ == option.wire(),
                None => wire == Err::<&'static str, ConfigurationError>(
                    ConfigurationError::UnknownLabel,
                ),
            },
    {
        if same_text(index, "Any Difficulty") {
            Ok("any")
        } else if same_text(index, "Easy") {
            Ok("easy")
        } else if same_text(index, "Hard") {
            Ok("hard")
        } else if same_text(index, "Medium") {
            Ok("medium")
        } else {
            Err(ConfigurationError::UnknownLabel)
        }
    }

    /// The wire value of an option.
    pub fn select_by_enum(index: TriviaGameDifficulty) -> (wire: &'static str)
        ensures
            wire@ == index.wire(),
    {
        match index {
            TriviaGameDifficulty::Any => "any",
            TriviaGameDifficulty::Easy => "easy",
            TriviaGameDifficulty::Hard => "hard",
            TriviaGameDifficulty::Medium => "medium",
        }
    }

    /// Every option is found again by its label: `from_label` of the label of
    /// `option` is `option`, so `select_by_str` on that label gives what
    /// `select_by_enum` gives on the option.
    pub proof fn lemma_label_round_trip(option: TriviaGameDifficulty)
        ensures
            TriviaGameDifficulty::from_label(option.label()) == Some(option),
    {
        reveal_strlit("Any Difficulty");
        reveal_strlit("Easy");
        reveal_strlit("Hard");
        reveal_strlit("Medium");
        assert("Any Difficulty"@.len() == 14);
        assert("Easy"@.len() == 4);
        assert("Hard"@.len() == 4);
        assert("Medium"@.len() == 6);
        assert("Easy"@[0] == 'E');
        assert("Hard"@[0] == 'H');
    }

    /// No two options share a wire value: the wire value names the option.
    pub proof fn lemma_wire_names_one_option(a: TriviaGameDifficulty, b: TriviaGameDifficulty)
        requires
            a.wire() == b.wire(),
        ensures
            a == b,
    {
        reveal_strlit("any");
        reveal_strlit("easy");
        reveal_strlit("hard");
        reveal_strlit("medium");
        assert("any"@.len() == 3);
        assert("easy"@.len() == 4);
        assert("hard"@.len() == 4);
        assert("medium"@.len() == 6);
        assert("easy"@[0] == 'e');
        assert("hard"@[0] == 'h');
    }
}

impl TriviaGameCategory {
    /// The label shown to a person.
    pub open spec fn label(self) -> Seq<char> {
        match self {
            TriviaGameCategory::AnyCategory => "Any Category"@,
            TriviaGameCategory::GeneralKnowledge => "General Knowledge"@,
            TriviaGameCategory::EntertainmentBooks => "Entertainment Books"@,
            TriviaGameCategory::EntertainmentFilm => "Entertainment Film"@,
            TriviaGameCategory::EntertainmentMusic => "Entertainment Music"@,
            TriviaGameCategory::EntertainmentMusicalAndTheatre => "Entertainment Musical And Theatre"@,
            TriviaGameCategory::EntertainmentTelevision => "Entertainment Television"@,
            TriviaGameCategory::EntertainmentVideoGames => "Entertainment Video Games"@,
            TriviaGameCategory::EntertainmentBoardGames => "Entertainment Board Games"@,
        }
    }

    /// The value that the query carries.
    pub open spec fn wire(self) -> u8 {
        match self {
            TriviaGameCategory::AnyCategory => 0,
            TriviaGameCategory::GeneralKnowledge => 9,
            TriviaGameCategory::EntertainmentBooks => 10,
            TriviaGameCategory::EntertainmentFilm => 11,
            TriviaGameCategory::EntertainmentMusic => 12,
            TriviaGameCategory::EntertainmentMusicalAndTheatre => 13,
            TriviaGameCategory::EntertainmentTelevision => 14,
            TriviaGameCategory::EntertainmentVideoGames => 15,
            TriviaGameCategory::EntertainmentBoardGames => 16,
        }
    }

    /// The option that a label names, if it names one.
    pub open spec fn from_label(label: Seq<char>) -> Option<TriviaGameCategory> {
        if label == TriviaGameCategory::AnyCategory.label() {
            Some(TriviaGameCategory::AnyCategory)
        } else if label == TriviaGameCategory::GeneralKnowledge.label() {
            Some(TriviaGameCategory::GeneralKnowledge)
        } else if label == TriviaGameCategory::EntertainmentBooks.label() {
            Some(TriviaGameCategory::EntertainmentBooks)
        } else if label == TriviaGameCategory::EntertainmentFilm.label() {
            Some(TriviaGameCategory::EntertainmentFilm)
        } else if label == TriviaGameCategory::EntertainmentMusic.label() {
            Some(TriviaGameCategory::EntertainmentMusic)
        } else if label == TriviaGameCategory::EntertainmentMusicalAndTheatre.label() {
            Some(TriviaGameCategory::EntertainmentMusicalAndTheatre)
        } else if label == TriviaGameCategory::EntertainmentTelevision.label() {
            Some(TriviaGameCategory::EntertainmentTelevision)
        } else if label == TriviaGameCategory::EntertainmentVideoGames.label() {
            Some(TriviaGameCategory::EntertainmentVideoGames)
        } else if label == TriviaGameCategory::EntertainmentBoardGames.label() {
            Some(TriviaGameCategory::EntertainmentBoardGames)
        } else {
            None
        }
    }

    /// The labels, in the order in which they are offered.
    pub fn get_str<'a>() -> (labels: [&'a str; 9])
        ensures
            labels@.len() == 9,
            labels@[0]@ == TriviaGameCategory::AnyCategory.label(),
            labels@[1]@ == TriviaGameCategory::GeneralKnowledge.label(),
            labels@[2]@ == TriviaGameCategory::EntertainmentBooks.label(),
            labels@[3]@ == TriviaGameCategory::EntertainmentFilm.label(),
            labels@[4]@ == TriviaGameCategory::EntertainmentMusic.label(),
            labels@[5]@ == TriviaGameCategory::EntertainmentMusicalAndTheatre.label(),
            labels@[6]@ == TriviaGameCategory::EntertainmentTelevision.label(),
            labels@[7]@ == TriviaGameCategory::EntertainmentVideoGames.label(),
            labels@[8]@ == TriviaGameCategory::EntertainmentBoardGames.label(),
    {
        [
            "Any Category",
            "General Knowledge",
            "Entertainment Books",
            "Entertainment Film",
            "Entertainment Music",
            "Entertainment Musical And Theatre",
            "Entertainment Television",
            "Entertainment Video Games",
            "Entertainment Board Games",
        ]
    }

    /// The wire value of the option that `index` names; an error where it
    /// names none.
    pub fn select_by_str(index: &str) -> (wire: Result<u8, ConfigurationError>)
        ensures
            match TriviaGameCategory::from_label(index@) {
                Some(option) => wire == Ok::<u8, ConfigurationError>(option.wire()),
                None => wire == Err::<u8, ConfigurationError>(
                    ConfigurationError::UnknownLabel,
                ),
            },
    {
        if same_text(index, "Any Category") {
            Ok(0)
        } else if same_text(index, "General Knowledge") {
            Ok(9)
        } else if same_text(index, "Entertainment Books") {
            Ok(10)
        } else if same_text(index, "Entertainment Film") {
            Ok(11)
        } else if same_text(index, "Entertainment Music") {
            Ok(12)
        } else if same_text(index, "Entertainment Musical And Theatre") {
            Ok(13)
        } else if same_text(index, "Entertainment Television") {
            Ok(14)
        } else if same_text(index, "Entertainment Video Games") {
            Ok(15)
        } else if same_text(index, "Entertainment Board Games") {
            Ok(16)
        } else {
            Err(ConfigurationError::UnknownLabel)
        }
    }

    /// The wire value of an option.
    pub fn select_by_enum(index: TriviaGameCategory) -> (wire: u8)
        ensures
            wire == index.wire(),
    {
        match index {
            TriviaGameCategory::AnyCategory => 0,
            TriviaGameCategory::GeneralKnowledge => 9,
            TriviaGameCategory::EntertainmentBooks => 10,
            TriviaGameCategory::EntertainmentFilm => 11,
            TriviaGameCategory::EntertainmentMusic => 12,
            TriviaGameCategory::EntertainmentMusicalAndTheatre => 13,
            TriviaGameCategory::EntertainmentTelevision => 14,
            TriviaGameCategory::EntertainmentVideoGames => 15,
            TriviaGameCategory::EntertainmentBoardGames => 16,
        }
    }

    /// Every option is found again by its label: `from_label` of the label of
    /// `option` is `option`, so `select_by_str` on that label gives what
    /// `select_by_enum` gives on the option.
    pub proof fn lemma_label_round_trip(option: TriviaGameCategory)
        ensures
            TriviaGameCategory::from_label(option.label()) == Some(option),
    {
        reveal_strlit("Any Category");
        reveal_strlit("General Knowledge");
        reveal_strlit("Entertainment Books");
        reveal_strlit("Entertainment Film");
        reveal_strlit("Entertainment Music");
        reveal_strlit("Entertainment Musical And Theatre");
        reveal_strlit("Entertainment Television");
        reveal_strlit("Entertainment Video Games");
        reveal_strlit("Entertainment Board Games");
        assert("Any Category"@.len() == 12);
        assert("General Knowledge"@.len() == 17);
        assert("Entertainment Books"@.len() == 19);
        assert("Entertainment Film"@.len() == 18);
        assert("Entertainment Music"@.len() == 19);
        assert("Entertainment Musical And Theatre"@.len() == 33);
        assert("Entertainment Television"@.len() == 24);
        assert("Entertainment Video Games"@.len() == 25);
        assert("Entertainment Board Games"@.len() == 25);
        assert("Entertainment Books"@[14] == 'B');
        assert("Entertainment Music"@[14] == 'M');
        assert("Entertainment Video Games"@[14] == 'V');
        assert("Entertainment Board Games"@[14] == 'B');
    }

    /// No two options share a wire value: the wire value names the option.
    pub proof fn lemma_wire_names_one_option(a: TriviaGameCategory, b: TriviaGameCategory)
        requires
            a.wire() == b.wire(),
        ensures
            a == b,
    {
    }
}

/// The configuration of one session. `difficulty` and `kind` hold wire
/// values; `category` 0 and the wire value `any` ask for no restriction.
#[derive(Clone, Copy, Debug)]
pub struct TriviaGameOptions {
    pub number_of_questions: u8,
    pub category: u8,
    pub difficulty: &'static str,
    pub kind: &'static str,
}

/// The query of a request for questions: the amount always, then category,
/// type and difficulty, each only where it restricts.
pub open spec fn query_of(options: TriviaGameOptions) -> Seq<(Seq<char>, Seq<char>)> {
    let amount = seq![("amount"@, decimal(options.number_of_questions as nat))];
    let category = if options.category != 0 {
        amount.push(("category"@, decimal(options.category as nat)))
    } else {
        amount
    };
    let kind = if options.kind@ != "any"@ {
        category.push(("type"@, options.kind@))
    } else {
        category
    };
    if options.difficulty@ != "any"@ {
        kind.push(("difficulty"@, options.difficulty@))
    } else {
        kind
    }
}

/// The keys and values of a query, as texts.
pub open spec fn pairs(query: Seq<(&'static str, String)>) -> Seq<(Seq<char>, Seq<char>)> {
    Seq::new(query.len(), |i: int| (query[i].0@, query[i].1@))
}

impl TriviaGameOptions {
    /// The query that asks for the questions of these options.
    pub fn query(&self) -> (query: Vec<(&'static str, String)>)
        ensures
            pairs(query@) == query_of(*self),
    {
        let mut query: Vec<(&'static str, String)> = Vec::new();
        query.push(("amount", decimal_text(self.number_of_questions as usize)));
        assert(pairs(query@) =~= seq![("amount"@, decimal(self.number_of_questions as nat))]);
        if self.category != 0 {
            let ghost before = pairs(query@);
            query.push(("category", decimal_text(self.category as usize)));
            assert(pairs(query@) =~= before.push(("category"@, decimal(self.category as nat))));
        }
        if !same_text(self.kind, "any") {
            let ghost before = pairs(query@);
            query.push(("type", self.kind.to_owned()));
            assert(pairs(query@) =~= before.push(("type"@, self.kind@)));
        }
        if !same_text(self.difficulty, "any") {
            let ghost before = pairs(query@);
            query.push(("difficulty", self.difficulty.to_owned()));
            assert(pairs(query@) =~= before.push(("difficulty"@, self.difficulty@)));
        }
        query
    }
}

/// One retrieved question, as the service sent it: texts may hold entities.
#[derive(Clone, Debug)]
pub struct Question {
    pub kind: String,
    pub difficulty: String,
    pub category: String,
    pub question: String,
    pub correct_answer: String,
    pub incorrect_answers: Vec<String>,
}

/// The texts of a sequence of strings.
pub open spec fn texts(items: Seq<String>) -> Seq<Seq<char>> {
    Seq::new(items.len(), |i: int| items[i]@)
}

/// The decoded texts of a sequence of strings.
pub open spec fn decoded(items: Seq<String>) -> Seq<Seq<char>> {
    Seq::new(items.len(), |i: int| decode_entities(items[i]@))
}

impl Question {
    /// The question asks for true or false.
    pub open spec fn is_boolean(&self) -> bool {
        self.kind@ == "boolean"@
    }

    /// The correct answer as it is shown.
    pub open spec fn shown_correct(&self) -> Seq<char> {
        decode_entities(self.correct_answer@)
    }

    /// The answers of a multiple-choice question as they are shown, before
    /// they are mixed: the incorrect ones, then the correct one.
    pub open spec fn shown_answers(&self) -> Seq<Seq<char>> {
        decoded(self.incorrect_answers@).push(self.shown_correct())
    }
}

/// `SliceRandom::shuffle` of rand on the vector's slice, with the generator
/// of `rand::thread_rng`: it only swaps elements, so the vector holds
/// afterwards the texts it held before, each as often as before. In which
/// order is left open, and nothing here is proved of it.
#[verifier::external_body]
fn shuffle_texts(items: &mut Vec<String>)
    ensures
        texts(final(items)@).to_multiset() == texts(old(items)@).to_multiset(),
{
    items.shuffle(&mut rand::thread_rng());
}

/// The selection shown for a question: `True` and `False` for a boolean one,
/// whatever it stores; else its shown answers in some order.
pub fn selection_for(question: &Question) -> (selections: Vec<String>)
    ensures
        question.is_boolean() ==> texts(selections@) == seq!["True"@, "False"@],
        !question.is_boolean() ==> texts(selections@).to_multiset()
            == question.shown_answers().to_multiset(),
{
    let mut selections: Vec<String> = Vec::new();
    if same_text(question.kind.as_str(), "boolean") {
        selections.push("True".to_owned());
        selections.push("False".to_owned());
        assert(texts(selections@) =~= seq!["True"@, "False"@]);
        return selections;
    }
    let mut i: usize = 0;
    assert(texts(selections@) =~= decoded(question.incorrect_answers@.take(0)));
    while i < question.incorrect_answers.len()
        invariant
            i <= question.incorrect_answers.len(),
            selections@.len() == i,
            texts(selections@) == decoded(question.incorrect_answers@.take(i as int)),
        decreases question.incorrect_answers.len() - i,
    {
        let ghost before = selections@;
        selections.push(escape_html(question.incorrect_answers[i].as_str()));
        proof {
            let wrong = question.incorrect_answers@;
            assert forall|j: int| 0 <= j < i + 1 implies texts(selections@)[j] == decoded(
                wrong.take(i + 1),
            )[j] by {
                if j < i {
                    assert(texts(before)[j] == decoded(wrong.take(i as int))[j]);
                }
            }
            assert(texts(selections@) =~= decoded(wrong.take(i + 1)));
        }
        i += 1;
    }
    assert(question.incorrect_answers@.take(i as int) =~= question.incorrect_answers@);
    let ghost before = selections@;
    selections.push(escape_html(question.correct_answer.as_str()));
    proof {
        assert forall|j: int| 0 <= j < i + 1 implies texts(selections@)[j]
            == question.shown_answers()[j] by {
            if j < i {
                assert(texts(before)[j] == decoded(question.incorrect_answers@)[j]);
            }
        }
        assert(texts(selections@) =~= question.shown_answers());
    }
    shuffle_texts(&mut selections);
    selections
}

/// How many requests one start makes at most.
pub const MAX_ATTEMPTS: u8 = 5;

/// Where a session stands.
#[derive(Clone, Copy, Debug, PartialEq, Eq, Structural)]
pub enum SessionState {
    Uninitialized,
    Retrieving,
    Presenting,
    Finished,
}

/// What to do with a response of the service.
#[derive(Clone, Copy, Debug, PartialEq, Eq, Structural)]
pub enum RetryDecision {
    Accept,
    Retry,
    GiveUp,
}

/// Why a start failed.
#[derive(Clone, Copy, Debug, PartialEq, Eq, Structural)]
pub enum StartError {
    /// The request or the decoding of its answer failed.
    Transport,
    /// The service refused every one of the attempts.
    RetrievalExhausted,
}

/// A selection number outside `1..=count`.
#[derive(Clone, Copy, Debug, PartialEq, Eq, Structural)]
pub enum SelectionError {
    InvalidSelection,
}

/// What came back from one request.
pub enum FetchOutcome {
    /// The service answered with a response code and questions.
    Response { response_code: u16, results: Vec<Question> },
    /// The transport failed or the body could not be decoded.
    Failed,
}

/// What the caller does next while a session starts.
pub enum StartAction {
    /// Send a request with this query and hand back what comes of it.
    Fetch(Vec<(&'static str, String)>),
    /// The questions are there.
    Ready,
}

/// The outcome is a response of the service with a code other than 0.
pub open spec fn refused(outcome: FetchOutcome) -> bool {
    match outcome {
        FetchOutcome::Response { response_code, results } => response_code != 0,
        FetchOutcome::Failed => false,
    }
}

/// The policy on a response: code 0 is accepted; another code is tried again
/// while fewer than the allowed attempts were made, and given up on after.
pub open spec fn decide(attempts: nat, response_code: u16) -> RetryDecision {
    if response_code == 0 {
        RetryDecision::Accept
    } else if attempts < MAX_ATTEMPTS {
        RetryDecision::Retry
    } else {
        RetryDecision::GiveUp
    }
}

/// The decision on the response to attempt number `attempts`.
pub fn after_response(attempts: u8, response_code: u16) -> (decision: RetryDecision)
    ensures
        decision == decide(attempts as nat, response_code),
{
    if response_code == 0 {
        RetryDecision::Accept
    } else if attempts < MAX_ATTEMPTS {
        RetryDecision::Retry
    } else {
        RetryDecision::GiveUp
    }
}

/// The text chosen by a selection number that counts from 1; an error where
/// the number is 0 or past the last selection.
pub fn pick_selection(selections: &Vec<String>, choice: usize) -> (picked: Result<
    String,
    SelectionError,
>)
    ensures
        1 <= choice <= selections@.len() ==> picked is Ok && picked->Ok_0@
            == selections@[choice - 1]@,
        !(1 <= choice <= selections@.len()) ==> picked == Err::<String, SelectionError>(
            SelectionError::InvalidSelection,
        ),
{
    if choice >= 1 && choice <= selections.len() {
        Ok(selections[choice - 1].clone())
    } else {
        Err(SelectionError::InvalidSelection)
    }
}

/// A session as a value: its options, its questions, the cursor, the count
/// of correct answers, the attempts made by a start under way, and whether
/// questions were retrieved.
pub struct SessionView {
    pub options: TriviaGameOptions,
    pub questions: Seq<Question>,
    pub index: nat,
    pub correct: nat,
    pub attempts: nat,
    pub loaded: bool,
}

impl SessionView {
    /// The cursor is within the questions, no more answers were correct than
    /// given, and nothing is held before retrieval succeeded.
    pub open spec fn wf(self) -> bool {
        &&& self.index <= self.questions.len()
        &&& self.correct <= self.index
        &&& self.attempts <= MAX_ATTEMPTS
        &&& self.attempts > 0 ==> !self.loaded
        &&& !self.loaded ==> self.questions.len() == 0
    }

    pub open spec fn state(self) -> SessionState {
        if self.attempts > 0 {
            SessionState::Retrieving
        } else if !self.loaded {
            SessionState::Uninitialized
        } else if self.index < self.questions.len() {
            SessionState::Presenting
        } else {
            SessionState::Finished
        }
    }

    /// No question is left.
    pub open spec fn at_end(self) -> bool {
        self.index >= self.questions.len()
    }

    /// The question under the cursor.
    pub open spec fn current(self) -> Question
        recommends
            self.index < self.questions.len(),
    {
        self.questions[self.index as int]
    }

    /// The session before anything was retrieved.
    pub open spec fn fresh(options: TriviaGameOptions) -> SessionView {
        SessionView {
            options,
            questions: Seq::empty(),
            index: 0,
            correct: 0,
            attempts: 0,
            loaded: false,
        }
    }

    /// The session after `start`: the first attempt is under way.
    pub open spec fn started(self) -> SessionView {
        SessionView { attempts: 1, ..self }
    }

    /// The session after the outcome of a request came in.
    pub open spec fn received(self, outcome: FetchOutcome) -> SessionView {
        match outcome {
            FetchOutcome::Failed => SessionView { attempts: 0, ..self },
            FetchOutcome::Response { response_code, results } => match decide(
                self.attempts,
                response_code,
            ) {
                RetryDecision::Accept => SessionView {
                    options: self.options,
                    questions: results@,
                    index: 0,
                    correct: 0,
                    attempts: 0,
                    loaded: true,
                },
                RetryDecision::Retry => SessionView { attempts: self.attempts + 1, ..self },
                RetryDecision::GiveUp => SessionView { attempts: 0, ..self },
            },
        }
    }

    /// The session after a run of outcomes, handed in one after the other.
    pub open spec fn received_all(self, outcomes: Seq<FetchOutcome>) -> SessionView
        decreases outcomes.len(),
    {
        if outcomes.len() == 0 {
            self
        } else {
            self.received(outcomes[0]).received_all(outcomes.skip(1))
        }
    }

    /// While attempts remain, a run of refusals leaves the start under way,
    /// one attempt further for each.
    pub proof fn lemma_refusals_retry(self, outcomes: Seq<FetchOutcome>)
        requires
            self.wf(),
            self.state() == SessionState::Retrieving,
            forall|i: int| 0 <= i < outcomes.len() ==> refused(#[trigger] outcomes[i]),
            self.attempts + outcomes.len() <= MAX_ATTEMPTS,
        ensures
            self.received_all(outcomes) == (SessionView {
                attempts: self.attempts + outcomes.len(),
                ..self
            }),
            self.received_all(outcomes).wf(),
            self.received_all(outcomes).state() == SessionState::Retrieving,
        decreases outcomes.len(),
    {
        if outcomes.len() > 0 {
            assert(refused(outcomes[0]));
            let rest = outcomes.skip(1);
            assert forall|i: int| 0 <= i < rest.len() implies refused(#[trigger] rest[i]) by {
                assert(refused(outcomes[i + 1]));
            }
            self.received(outcomes[0]).lemma_refusals_retry(rest);
        }
    }

    /// A start whose every request is refused is given up with the answer to
    /// the last allowed attempt and not before: after fewer refusals it is
    /// still under way, and after exactly that many the session is back where
    /// it began, with the last response judged as the one to give up on.
    pub proof fn lemma_refusals_exhaust(self, outcomes: Seq<FetchOutcome>)
        requires
            self.wf(),
            self.state() == SessionState::Uninitialized,
            outcomes.len() == MAX_ATTEMPTS,
            forall|i: int| 0 <= i < outcomes.len() ==> refused(#[trigger] outcomes[i]),
        ensures
            forall|k: int|
                0 <= k < MAX_ATTEMPTS ==> (#[trigger] self.started().received_all(
                    outcomes.take(k),
                )).state() == SessionState::Retrieving,
            forall|k: int|
                0 <= k < MAX_ATTEMPTS ==> (#[trigger] self.started().received_all(
                    outcomes.take(k),
                )).attempts == k + 1,
            decide(
                self.started().received_all(outcomes.take(MAX_ATTEMPTS - 1)).attempts,
                outcomes[MAX_ATTEMPTS - 1]->response_code,
            ) == RetryDecision::GiveUp,
            self.started().received_all(outcomes) == self,
    {
        let begun = self.started();
        assert forall|k: int| 0 <= k < MAX_ATTEMPTS implies (#[trigger] begun.received_all(
            outcomes.take(k),
        )).state() == SessionState::Retrieving && begun.received_all(outcomes.take(k)).attempts
            == k + 1 by {
            let head = outcomes.take(k);
            assert forall|i: int| 0 <= i < head.len() implies refused(#[trigger] head[i]) by {
                assert(refused(outcomes[i]));
            }
            begun.lemma_refusals_retry(head);
        }
        let head = outcomes.take(MAX_ATTEMPTS - 1);
        let last = outcomes[MAX_ATTEMPTS - 1];
        assert(refused(last));
        assert(begun.received_all(head).attempts == MAX_ATTEMPTS);
        begun.lemma_received_all_push(head, last);
        assert(head.push(last) =~= outcomes);
        begun.lemma_refusals_retry(head);
    }

    /// A run of outcomes and one more is the run, then the one.
    pub proof fn lemma_received_all_push(self, outcomes: Seq<FetchOutcome>, last: FetchOutcome)
        ensures
            self.received_all(outcomes.push(last)) == self.received_all(outcomes).received(last),
        decreases outcomes.len(),
    {
        let all = outcomes.push(last);
        if outcomes.len() == 0 {
            assert(all.skip(1) =~= Seq::<FetchOutcome>::empty());
            assert(self.received(last).received_all(all.skip(1)) == self.received(last));
        } else {
            assert(all.skip(1) =~= outcomes.skip(1).push(last));
            self.received(outcomes[0]).lemma_received_all_push(outcomes.skip(1), last);
        }
    }

    /// A response with code 0 that comes after fewer refusals than attempts
    /// are allowed is accepted: the session holds its questions, in their
    /// order, with the cursor at the first and no answer counted.
    pub proof fn lemma_accepted_after_refusals(
        self,
        refusals: Seq<FetchOutcome>,
        results: Vec<Question>,
    )
        requires
            self.wf(),
            self.state() == SessionState::Uninitialized,
            refusals.len() < MAX_ATTEMPTS,
            forall|i: int| 0 <= i < refusals.len() ==> refused(#[trigger] refusals[i]),
        ensures
            ({
                let end = self.started().received_all(refusals).received(
                    FetchOutcome::Response { response_code: 0, results },
                );
                &&& end.wf()
                &&& end.questions == results@
                &&& end.index == 0
                &&& end.correct == 0
                &&& end.options == self.options
                &&& end.state() == if results@.len() > 0 {
                    SessionState::Presenting
                } else {
                    SessionState::Finished
                }
            }),
    {
        self.started().lemma_refusals_retry(refusals);
    }

    /// Whether `text` is the correct answer of the current question as it
    /// was shown.
    pub open spec fn accepts(self, text: Seq<char>) -> bool {
        text == self.current().shown_correct()
    }

    /// The session after `text` was given as the answer to the current
    /// question.
    pub open spec fn answered(self, text: Seq<char>) -> SessionView {
        SessionView {
            index: self.index + 1,
            correct: if self.accepts(text) {
                self.correct + 1
            } else {
                self.correct
            },
            ..self
        }
    }

    /// The session after a run of answers, one per question from the cursor on.
    pub open spec fn answered_all(self, answers: Seq<Seq<char>>) -> SessionView
        decreases answers.len(),
    {
        if answers.len() == 0 {
            self
        } else {
            self.answered(answers[0]).answered_all(answers.skip(1))
        }
    }

    /// The score: correct answers, a slash, the number of questions.
    pub open spec fn score(self) -> Seq<char> {
        decimal(self.correct) + seq!['/'] + decimal(self.questions.len())
    }

    /// A run of as many answers as questions are left ends the session: the
    /// cursor stands behind the last question, the questions are the same,
    /// and at most one point was gained per answer.
    pub proof fn lemma_answered_all(self, answers: Seq<Seq<char>>)
        requires
            self.wf(),
            self.index + answers.len() == self.questions.len(),
        ensures
            self.answered_all(answers).wf(),
            self.answered_all(answers).at_end(),
            self.answered_all(answers).index == self.questions.len(),
            self.answered_all(answers).questions == self.questions,
            self.answered_all(answers).options == self.options,
            self.answered_all(answers).loaded == self.loaded,
            self.answered_all(answers).attempts == self.attempts,
            self.correct <= self.answered_all(answers).correct <= self.correct + answers.len(),
        decreases answers.len(),
    {
        if answers.len() > 0 {
            self.answered(answers[0]).lemma_answered_all(answers.skip(1));
        }
    }

    /// After exactly as many answers as a retrieved session has questions,
    /// the session is finished and its score reads the count of correct
    /// answers over the number of questions.
    pub proof fn lemma_session_finishes(self, answers: Seq<Seq<char>>)
        requires
            self.wf(),
            self.loaded,
            self.attempts == 0,
            self.index == 0,
            answers.len() == self.questions.len(),
        ensures
            self.answered_all(answers).state() == SessionState::Finished,
            self.answered_all(answers).at_end(),
            self.answered_all(answers).correct <= answers.len(),
            self.answered_all(answers).score() == decimal(self.answered_all(answers).correct)
                + seq!['/'] + decimal(answers.len()),
    {
        self.lemma_answered_all(answers);
    }
}

/// A quiz session: the questions retrieved for its options, the cursor and
/// the count of correct answers.
pub struct TriviaGame {
    questions: Vec<Question>,
    question_index: usize,
    right_answers: usize,
    option: TriviaGameOptions,
    attempts: u8,
    loaded: bool,
}

impl View for TriviaGame {
    type V = SessionView;

    closed spec fn view(&self) -> SessionView {
        SessionView {
            options: self.option,
            questions: self.questions@,
            index: self.question_index as nat,
            correct: self.right_answers as nat,
            attempts: self.attempts as nat,
            loaded: self.loaded,
        }
    }
}

impl TriviaGame {
    /// Every session is well formed, whatever was done with it.
    #[verifier::type_invariant]
    pub closed spec fn inv(&self) -> bool {
        self@.wf()
    }

    /// A session for `option`, with nothing retrieved yet.
    pub fn new(option: TriviaGameOptions) -> (game: TriviaGame)
        ensures
            game@ == SessionView::fresh(option),
            game@.wf(),
            game@.state() == SessionState::Uninitialized,
    {
        TriviaGame {
            questions: Vec::new(),
            question_index: 0,
            right_answers: 0,
            option,
            attempts: 0,
            loaded: false,
        }
    }

    /// Begins retrieval: hands out the query of the first request. The caller
    /// sends it and gives the outcome to `receive`.
    pub fn start(&mut self) -> (query: Vec<(&'static str, String)>)
        requires
            old(self)@.state() == SessionState::Uninitialized,
        ensures
            final(self)@ == old(self)@.started(),
            final(self)@.wf(),
            final(self)@.state() == SessionState::Retrieving,
            pairs(query@) == query_of(old(self)@.options),
    {
        proof {
            use_type_invariant(&*self);
        }
        self.attempts = 1;
        self.option.query()
    }

    /// Takes the outcome of the request that is under way. A transport
    /// failure ends the start at once. A response is judged by `decide`:
    /// accepted, its questions become the session's and the cursor stands at
    /// the first; refused, the same query is handed out again, or the start
    /// ends as exhausted once the allowed attempts are used up.
    pub fn receive(&mut self, outcome: FetchOutcome) -> (next: Result<StartAction, StartError>)
        requires
            old(self)@.state() == SessionState::Retrieving,
        ensures
            final(self)@ == old(self)@.received(outcome),
            final(self)@.wf(),
            match outcome {
                FetchOutcome::Failed => next == Err::<StartAction, StartError>(
                    StartError::Transport,
                ),
                FetchOutcome::Response { response_code, results } => match decide(
                    old(self)@.attempts,
                    response_code,
                ) {
                    RetryDecision::Accept => next is Ok && next->Ok_0 is Ready,
                    RetryDecision::Retry => next is Ok && next->Ok_0 is Fetch && pairs(
                        next->Ok_0->Fetch_0@,
                    ) == query_of(old(self)@.options),
                    RetryDecision::GiveUp => next == Err::<StartAction, StartError>(
                        StartError::RetrievalExhausted,
                    ),
                },
            },
    {
        proof {
            use_type_invariant(&*self);
        }
        match outcome {
            FetchOutcome::Failed => {
                self.attempts = 0;
                Err(StartError::Transport)
            },
            FetchOutcome::Response { response_code, results } => {
                match after_response(self.attempts, response_code) {
                    RetryDecision::Accept => {
                        *self = TriviaGame {
                            questions: results,
                            question_index: 0,
                            right_answers: 0,
                            option: self.option,
                            attempts: 0,
                            loaded: true,
                        };
                        Ok(StartAction::Ready)
                    },
                    RetryDecision::Retry => {
                        self.attempts = self.attempts + 1;
                        Ok(StartAction::Fetch(self.option.query()))
                    },
                    RetryDecision::GiveUp => {
                        self.attempts = 0;
                        Err(StartError::RetrievalExhausted)
                    },
                }
            },
        }
    }

    fn get_question_data(&self) -> (question: &Question)
        requires
            self@.state() == SessionState::Presenting,
        ensures
            *question == self@.current(),
    {
        &self.questions[self.question_index]
    }

    /// The text of the current question, decoded.
    pub fn get_question(&self) -> (text: String)
        requires
            self@.state() == SessionState::Presenting,
        ensures
            text@ == decode_entities(self@.current().question@),
    {
        escape_html(self.get_question_data().question.as_str())
    }

    /// The difficulty of the current question, decoded.
    pub fn get_difficulty(&self) -> (text: String)
        requires
            self@.state() == SessionState::Presenting,
        ensures
            text@ == decode_entities(self@.current().difficulty@),
    {
        escape_html(self.get_question_data().difficulty.as_str())
    }

    /// The category of the current question, decoded.
    pub fn get_category(&self) -> (text: String)
        requires
            self@.state() == SessionState::Presenting,
        ensures
            text@ == decode_entities(self@.current().category@),
    {
        escape_html(self.get_question_data().category.as_str())
    }

    /// The selection for the current question: `True` and `False` for a
    /// boolean one; else the decoded incorrect answers and the decoded correct
    /// answer, each as often as it occurs, in an order left to chance.
    pub fn get_selection(&self) -> (selections: Vec<String>)
        requires
            self@.state() == SessionState::Presenting,
        ensures
            self@.current().is_boolean() ==> texts(selections@) == seq!["True"@, "False"@],
            !self@.current().is_boolean() ==> texts(selections@).to_multiset()
                == self@.current().shown_answers().to_multiset(),
    {
        selection_for(self.get_question_data())
    }

    /// Scores `answer` against the correct answer of the current question as
    /// it was shown, and moves to the next question: the cursor advances by
    /// one, and the count of correct answers by one exactly when the answer
    /// was correct.
    pub fn answer(&mut self, answer: &str) -> (is_right: bool)
        requires
            old(self)@.state() == SessionState::Presenting,
        ensures
            is_right == old(self)@.accepts(answer@),
            final(self)@ == old(self)@.answered(answer@),
            final(self)@.index == old(self)@.index + 1,
            final(self)@.correct == old(self)@.correct + if is_right {
                1nat
            } else {
                0nat
            },
            final(self)@.wf(),
            final(self)@.state() == if final(self)@.at_end() {
                SessionState::Finished
            } else {
                SessionState::Presenting
            },
    {
        let shown = escape_html(self.get_question_data().correct_answer.as_str());
        let is_right = same_text(shown.as_str(), answer);
        let total: usize = self.questions.len();
        proof {
            use_type_invariant(&*self);
        }
        assert(self.right_answers <= self.question_index < total);
        self.question_index = self.question_index + 1;
        if is_right {
            self.right_answers = self.right_answers + 1;
        }
        is_right
    }

    /// Where the session stands.
    pub fn state(&self) -> (state: SessionState)
        ensures
            state == self@.state(),
            self@.wf(),
    {
        proof {
            use_type_invariant(self);
        }
        if self.attempts > 0 {
            SessionState::Retrieving
        } else if !self.loaded {
            SessionState::Uninitialized
        } else if self.question_index < self.questions.len() {
            SessionState::Presenting
        } else {
            SessionState::Finished
        }
    }

    /// Whether no question is left.
    pub fn is_end(&self) -> (end: bool)
        ensures
            end == self@.at_end(),
            end == (self@.state() != SessionState::Presenting),
    {
        proof {
            use_type_invariant(self);
        }
        self.question_index >= self.questions.len()
    }

    /// The score as text: the count of correct answers, a slash, the number
    /// of questions.
    pub fn get_score(&self) -> (score: String)
        ensures
            score@ == self@.score(),
    {
        let mut score = decimal_text(self.right_answers);
        score.push('/');
        push_decimal(&mut score, self.questions.len());
        proof {
            assert(decimal(self@.correct).push('/') =~= decimal(self@.correct) + seq!['/']);
        }
        score
    }
}

} // verus!
