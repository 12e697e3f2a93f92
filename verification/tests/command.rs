use phrase_router::command::{split_learn_body, Command, LearnError, LearnRequest};

#[test]
fn parse_reads_each_command() {
    assert_eq!(Command::parse("/help", "bot"), Some(Command::Help));
    assert_eq!(Command::parse("/viewscoreboard", "bot"), Some(Command::ViewScoreboard));
    assert_eq!(Command::parse("/givel", "bot"), Some(Command::GiveL));
    assert_eq!(Command::parse("/learn hi | hello", "bot"), Some(Command::Learn("hi | hello".to_string())));
}

#[test]
fn parse_takes_everything_after_the_first_whitespace_as_argument() {
    assert_eq!(Command::parse("/learn", "bot"), Some(Command::Learn(String::new())));
    assert_eq!(Command::parse("/learn ", "bot"), Some(Command::Learn(String::new())));
    assert_eq!(Command::parse("/learn  a  b ", "bot"), Some(Command::Learn(" a  b ".to_string())));
    assert_eq!(Command::parse("/learn\ta | b", "bot"), Some(Command::Learn("a | b".to_string())));
    assert_eq!(Command::parse("/learn\nx@y | z", "bot"), Some(Command::Learn("x@y | z".to_string())));
    assert_eq!(Command::parse("/help me please", "bot"), Some(Command::Help));
}

#[test]
fn parse_accepts_the_bots_own_name() {
    assert_eq!(Command::parse("/help@bot", "bot"), Some(Command::Help));
    assert_eq!(Command::parse("/help@BoT", "bot"), Some(Command::Help));
    assert_eq!(Command::parse("/learn@My_Bot a | b", "my_bot"), Some(Command::Learn("a | b".to_string())));
    assert_eq!(Command::parse("/givel@bot@other", "bot"), Some(Command::GiveL));
}

#[test]
fn parse_refuses_another_bots_name() {
    assert_eq!(Command::parse("/help@other", "bot"), None);
    assert_eq!(Command::parse("/help@", "bot"), None);
    assert_eq!(Command::parse("/help@bo", "bot"), None);
    assert_eq!(Command::parse("/help@b\u{f6}t", "bot"), None);
}

#[test]
fn parse_refuses_what_is_no_command() {
    assert_eq!(Command::parse("", "bot"), None);
    assert_eq!(Command::parse("help", "bot"), None);
    assert_eq!(Command::parse("/Help", "bot"), None);
    assert_eq!(Command::parse("/helpme", "bot"), None);
    assert_eq!(Command::parse(" /help", "bot"), None);
    assert_eq!(Command::parse("/unknown", "bot"), None);
    assert_eq!(Command::parse("hello there", "bot"), None);
    assert_eq!(Command::parse("/", "bot"), None);
}

#[test]
fn from_label_matches_canonical_names_exactly() {
    assert_eq!(Command::from_label("help"), Some(Command::Help));
    assert_eq!(Command::from_label("viewscoreboard"), Some(Command::ViewScoreboard));
    assert_eq!(Command::from_label("givel"), Some(Command::GiveL));
    assert_eq!(Command::from_label("learn"), Some(Command::Learn(String::new())));
    assert_eq!(Command::from_label("/help"), None);
    assert_eq!(Command::from_label("Help"), None);
    assert_eq!(Command::from_label("help "), None);
    assert_eq!(Command::from_label(""), None);
    assert_eq!(Command::from_label("input.unknown"), None);
}

#[test]
fn names_and_descriptions() {
    assert_eq!(Command::Help.name(), "help");
    assert_eq!(Command::ViewScoreboard.name(), "viewscoreboard");
    assert_eq!(Command::GiveL.name(), "givel");
    assert_eq!(Command::Learn("x".to_string()).name(), "learn");
    assert_eq!(Command::Help.description(), "Display this text");
    assert_eq!(Command::ViewScoreboard.description(), "view L scoreboard");
    assert_eq!(Command::GiveL.description(), "award L to user");
    assert_eq!(Command::Learn(String::new()).description(), "learn a new phrase");
}

#[test]
fn descriptions_without_a_name() {
    assert_eq!(
        Command::descriptions(None),
        "These commands are supported:\n\n/help \u{2014} Display this text\n/viewscoreboard \u{2014} view L scoreboard\n/givel \u{2014} award L to user\n/learn \u{2014} learn a new phrase"
    );
}

#[test]
fn descriptions_with_a_name() {
    assert_eq!(
        Command::descriptions(Some("l_bot")),
        "These commands are supported:\n\n/help@l_bot \u{2014} Display this text\n/viewscoreboard@l_bot \u{2014} view L scoreboard\n/givel@l_bot \u{2014} award L to user\n/learn@l_bot \u{2014} learn a new phrase"
    );
}

#[test]
fn split_learn_body_finds_phrase_and_response() {
    assert_eq!(
        split_learn_body("good morning | morning!"),
        Ok(LearnRequest { phrase: "good morning".to_string(), response: "morning!".to_string() })
    );
    assert_eq!(
        split_learn_body("a | b | c"),
        Ok(LearnRequest { phrase: "a".to_string(), response: "b".to_string() })
    );
    assert_eq!(
        split_learn_body("a | "),
        Ok(LearnRequest { phrase: "a".to_string(), response: String::new() })
    );
    assert_eq!(
        split_learn_body("a |  | b"),
        Ok(LearnRequest { phrase: "a".to_string(), response: String::new() })
    );
    assert_eq!(
        split_learn_body("a|b | c|d"),
        Ok(LearnRequest { phrase: "a|b".to_string(), response: "c|d".to_string() })
    );
    assert_eq!(
        split_learn_body("\u{e9}t\u{e9} | \u{1f600}"),
        Ok(LearnRequest { phrase: "\u{e9}t\u{e9}".to_string(), response: "\u{1f600}".to_string() })
    );
}

#[test]
fn split_learn_body_without_a_phrase() {
    assert_eq!(split_learn_body(""), Err(LearnError::InputNotSpecified));
    assert_eq!(split_learn_body(" | response"), Err(LearnError::InputNotSpecified));
    assert_eq!(split_learn_body(" | "), Err(LearnError::InputNotSpecified));
}

#[test]
fn split_learn_body_without_a_separator() {
    assert_eq!(split_learn_body("phrase"), Err(LearnError::ResponseNotSpecified));
    assert_eq!(split_learn_body("a|b"), Err(LearnError::ResponseNotSpecified));
    assert_eq!(split_learn_body("a |b"), Err(LearnError::ResponseNotSpecified));
    assert_eq!(split_learn_body("a |"), Err(LearnError::ResponseNotSpecified));
}

#[test]
fn learn_error_messages() {
    assert_eq!(LearnError::InputNotSpecified.message(), "input not specified");
    assert_eq!(LearnError::ResponseNotSpecified.message(), "response not specified");
}
