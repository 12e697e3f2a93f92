use phrase_router::command::Command;
use phrase_router::models::MemberStat;
use phrase_router::router::{
    execute, match_phrase, route, step, text_to_classify, Action, Message, Outcome, Quoted, Reply,
    RouteError, Stage, Via,
};
use phrase_router::store::Store;

const BOT: &str = "l_bot";

fn message(text: &str) -> Message {
    Message {
        id: 10,
        chat_id: -100,
        author_id: Some("1".to_string()),
        text: text.to_string(),
        reply_to: None,
        multi_party: false,
    }
}

fn reply_to(text: &str, author: Option<&str>, quoted: &str) -> Message {
    Message {
        reply_to: Some(Quoted { author_id: author.map(|a| a.to_string()), text: quoted.to_string() }),
        ..message(text)
    }
}

fn text_of(outcome: &Outcome) -> String {
    match outcome {
        Outcome::Command { reply: Reply::Text(text), .. } => text.clone(),
        Outcome::Phrase { reply } => reply.clone(),
        other => panic!("no text in {:?}", other),
    }
}

fn snapshot(store: &Store) -> String {
    format!("{:?} {:?} {:?} {:?}", store.members(), store.stats(), store.phrases(), store.responses())
}

#[test]
fn learned_phrase_comes_back() {
    let mut store = Store::new();
    let learnt = route(&message("/learn Hello, World! | Hi there"), BOT, None, &mut store);
    assert_eq!(
        learnt,
        Outcome::Command {
            command: Command::Learn("Hello, World! | Hi there".to_string()),
            via: Via::Literal,
            reply: Reply::Text("learnt".to_string()),
        }
    );
    let answer = route(&message("Hello, World!"), BOT, None, &mut store);
    assert_eq!(answer, Outcome::Phrase { reply: "Hi there".to_string() });
    let again = route(&message("hello world"), BOT, None, &mut store);
    assert_eq!(again, Outcome::Phrase { reply: "Hi there".to_string() });
    let shouted = route(&message("HELLO... WORLD?"), BOT, None, &mut store);
    assert_eq!(shouted, Outcome::Phrase { reply: "Hi there".to_string() });
}

#[test]
fn both_responses_of_a_phrase_are_reachable() {
    let mut store = Store::new();
    route(&message("/learn ping | pong"), BOT, None, &mut store);
    route(&message("/learn ping | pang"), BOT, None, &mut store);
    assert_eq!(store.phrases().len(), 1);
    assert_eq!(store.responses().len(), 2);
    let mut pong = 0;
    let mut pang = 0;
    for _ in 0..400 {
        match text_of(&route(&message("ping"), BOT, None, &mut store)).as_str() {
            "pong" => pong += 1,
            "pang" => pang += 1,
            other => panic!("unexpected reply {}", other),
        }
    }
    assert!(pong > 0);
    assert!(pang > 0);
    assert_eq!(pong + pang, 400);
}

#[test]
fn unknown_text_is_unresolved() {
    let mut store = Store::new();
    assert_eq!(route(&message("who are you"), BOT, None, &mut store), Outcome::Unresolved);
    route(&message("/learn ping | pong"), BOT, None, &mut store);
    let before = snapshot(&store);
    assert_eq!(route(&message("pin"), BOT, None, &mut store), Outcome::Unresolved);
    assert_eq!(route(&message(""), BOT, None, &mut store), Outcome::Unresolved);
    assert_eq!(snapshot(&store), before);
}

#[test]
fn give_l_counts_from_one() {
    let mut store = Store::new();
    let give = reply_to("/givel", Some("77"), "some joke");
    let awarded = Outcome::Command {
        command: Command::GiveL,
        via: Via::Literal,
        reply: Reply::Text("L has been awarded".to_string()),
    };
    assert_eq!(route(&give, BOT, None, &mut store), awarded);
    assert_eq!(store.scoreboard(), vec![MemberStat { tg_user_id: "77".to_string(), ls: 1 }]);
    assert_eq!(route(&give, BOT, None, &mut store), awarded);
    assert_eq!(store.scoreboard(), vec![MemberStat { tg_user_id: "77".to_string(), ls: 2 }]);
}

#[test]
fn give_l_without_a_reply_writes_nothing() {
    let mut store = Store::new();
    store.award("77").unwrap();
    let before = snapshot(&store);
    let outcome = route(&message("/givel"), BOT, None, &mut store);
    assert_eq!(text_of(&outcome), "reply to the person you want the L awarded to");
    assert_eq!(snapshot(&store), before);
    let outcome = route(&reply_to("/givel", None, "channel post"), BOT, None, &mut store);
    assert_eq!(text_of(&outcome), "reply to the person you want the L awarded to");
    assert_eq!(snapshot(&store), before);
}

#[test]
fn scoreboard_of_an_empty_store_says_so() {
    let mut store = Store::new();
    let outcome = route(&message("/viewscoreboard"), BOT, None, &mut store);
    assert_eq!(
        outcome,
        Outcome::Command {
            command: Command::ViewScoreboard,
            via: Via::Literal,
            reply: Reply::Text("Scoreboard is empty\\!".to_string()),
        }
    );
}

#[test]
fn scoreboard_has_one_row_for_each_member() {
    let mut store = Store::new();
    store.award("3").unwrap();
    store.award("1").unwrap();
    store.award("3").unwrap();
    store.learn("2", "x", "y").unwrap();
    let expected = vec![
        MemberStat { tg_user_id: "3".to_string(), ls: 2 },
        MemberStat { tg_user_id: "1".to_string(), ls: 1 },
        MemberStat { tg_user_id: "2".to_string(), ls: 0 },
    ];
    for _ in 0..3 {
        let outcome = route(&message("/viewscoreboard"), BOT, None, &mut store);
        assert_eq!(
            outcome,
            Outcome::Command {
                command: Command::ViewScoreboard,
                via: Via::Literal,
                reply: Reply::Scoreboard(expected.clone()),
            }
        );
    }
}

#[test]
fn learn_without_separator_or_phrase_writes_nothing() {
    let mut store = Store::new();
    store.learn("1", "kept", "as it is").unwrap();
    let before = snapshot(&store);
    for (text, reply) in [
        ("/learn", "input not specified"),
        ("/learn ", "input not specified"),
        ("/learn  | response", "input not specified"),
        ("/learn phrase only", "response not specified"),
        ("/learn phrase|response", "response not specified"),
        ("/learn phrase |response", "response not specified"),
    ] {
        let mark = store.mark();
        let outcome = route(&message(text), BOT, None, &mut store);
        assert_eq!(text_of(&outcome), reply);
        assert!(matches!(outcome, Outcome::Command { command: Command::Learn(_), .. }));
        assert_eq!(snapshot(&store), before);
        assert!(store.writes_since(&mark).is_empty());
    }
}

#[test]
fn help_names_the_bot_in_groups_only() {
    let mut store = Store::new();
    let private = route(&message("/help"), BOT, None, &mut store);
    assert_eq!(text_of(&private), Command::descriptions(None));
    let group = Message { multi_party: true, ..message("/help") };
    let public = route(&group, BOT, None, &mut store);
    assert_eq!(text_of(&public), Command::descriptions(Some(BOT)));
    assert!(text_of(&public).contains("/givel@l_bot \u{2014} award L to user"));
}

#[test]
fn command_wins_over_a_learned_phrase() {
    let mut store = Store::new();
    route(&message("/learn /help | I am no help"), BOT, None, &mut store);
    assert_eq!(store.dialog_turns("/help").len(), 1);
    assert!(matches!(match_phrase("/help", &store), Outcome::Phrase { .. }));
    let outcome = route(&message("/help"), BOT, Some("givel"), &mut store);
    assert_eq!(
        outcome,
        Outcome::Command {
            command: Command::Help,
            via: Via::Literal,
            reply: Reply::Text(Command::descriptions(None)),
        }
    );
}

#[test]
fn classified_command_wins_over_a_learned_phrase() {
    let mut store = Store::new();
    route(&message("/learn show me the scores | no"), BOT, None, &mut store);
    let outcome = route(&message("show me the scores"), BOT, Some("viewscoreboard"), &mut store);
    assert!(matches!(
        outcome,
        Outcome::Command { command: Command::ViewScoreboard, via: Via::Classified, .. }
    ));
    let outcome = route(&message("show me the scores"), BOT, Some("smalltalk.greet"), &mut store);
    assert_eq!(outcome, Outcome::Phrase { reply: "no".to_string() });
    let outcome = route(&message("show me the scores"), BOT, None, &mut store);
    assert_eq!(outcome, Outcome::Phrase { reply: "no".to_string() });
}

#[test]
fn classified_learn_has_no_argument() {
    let mut store = Store::new();
    let outcome = route(&message("teach me something"), BOT, Some("learn"), &mut store);
    assert_eq!(
        outcome,
        Outcome::Command {
            command: Command::Learn(String::new()),
            via: Via::Classified,
            reply: Reply::Text("input not specified".to_string()),
        }
    );
    assert!(store.phrases().is_empty());
}

#[test]
fn message_without_author_is_dropped_by_commands() {
    let mut store = Store::new();
    let anonymous = Message { author_id: None, ..message("/learn a | b") };
    assert_eq!(route(&anonymous, BOT, None, &mut store), Outcome::Failed(RouteError::NoAuthor));
    assert!(store.phrases().is_empty());
    let anonymous = Message { author_id: None, ..message("/help") };
    assert_eq!(route(&anonymous, BOT, None, &mut store), Outcome::Failed(RouteError::NoAuthor));
    store.learn("1", "a", "b").unwrap();
    let anonymous = Message { author_id: None, ..message("a") };
    assert_eq!(route(&anonymous, BOT, None, &mut store), Outcome::Phrase { reply: "b".to_string() });
}

#[test]
fn execute_runs_a_command_as_given() {
    let mut store = Store::new();
    let outcome = execute(Command::Learn("a | b".to_string()), Via::Classified, &message("x"), BOT, &mut store);
    assert_eq!(
        outcome,
        Outcome::Command {
            command: Command::Learn("a | b".to_string()),
            via: Via::Classified,
            reply: Reply::Text("learnt".to_string()),
        }
    );
    assert_eq!(store.phrases().len(), 1);
}

#[test]
fn text_to_classify_falls_back_to_the_quoted_text() {
    assert_eq!(text_to_classify(&message("hello")), "hello");
    assert_eq!(text_to_classify(&reply_to("hello", Some("2"), "quoted")), "hello");
    assert_eq!(text_to_classify(&reply_to("", Some("2"), "quoted")), "quoted");
    assert_eq!(text_to_classify(&message("")), "");
}

#[test]
fn steps_follow_the_chain() {
    let mut store = Store::new();
    store.learn("1", "ping", "pong").unwrap();
    let msg = message("ping");
    assert_eq!(step(Stage::Start, None, &msg, BOT, &mut store), (Stage::TryLiteralCommand, Action::Continue));
    assert_eq!(
        step(Stage::TryLiteralCommand, None, &msg, BOT, &mut store),
        (Stage::TryClassifiedCommand, Action::Classify("ping".to_string()))
    );
    assert_eq!(
        step(Stage::TryClassifiedCommand, None, &msg, BOT, &mut store),
        (Stage::TryPhraseMatch, Action::Continue)
    );
    assert_eq!(
        step(Stage::TryClassifiedCommand, Some("nonsense"), &msg, BOT, &mut store),
        (Stage::TryPhraseMatch, Action::Continue)
    );
    assert_eq!(
        step(Stage::TryPhraseMatch, None, &msg, BOT, &mut store),
        (Stage::Resolved, Action::Finish(Outcome::Phrase { reply: "pong".to_string() }))
    );
    assert_eq!(
        step(Stage::TryPhraseMatch, None, &message("pang"), BOT, &mut store),
        (Stage::Unresolved, Action::Finish(Outcome::Unresolved))
    );
}

#[test]
fn steps_skip_the_classifier_without_text() {
    let mut store = Store::new();
    assert_eq!(
        step(Stage::TryLiteralCommand, None, &message(""), BOT, &mut store),
        (Stage::TryPhraseMatch, Action::Continue)
    );
    assert_eq!(
        step(Stage::TryLiteralCommand, None, &reply_to("", Some("2"), "quoted"), BOT, &mut store),
        (Stage::TryClassifiedCommand, Action::Classify("quoted".to_string()))
    );
}

#[test]
fn steps_end_in_a_command() {
    let mut store = Store::new();
    let (stage, action) = step(Stage::TryLiteralCommand, Some("givel"), &message("/help"), BOT, &mut store);
    assert_eq!(stage, Stage::Resolved);
    assert!(matches!(action, Action::Finish(Outcome::Command { command: Command::Help, via: Via::Literal, .. })));
    let (stage, action) = step(Stage::TryClassifiedCommand, Some("help"), &message("what can you do"), BOT, &mut store);
    assert_eq!(stage, Stage::Resolved);
    assert!(matches!(action, Action::Finish(Outcome::Command { command: Command::Help, via: Via::Classified, .. })));
    let anonymous = Message { author_id: None, ..message("/help") };
    assert_eq!(
        step(Stage::TryLiteralCommand, None, &anonymous, BOT, &mut store),
        (Stage::Failed, Action::Finish(Outcome::Failed(RouteError::NoAuthor)))
    );
}

#[test]
fn steps_rest_once_ended() {
    let mut store = Store::new();
    for stage in [Stage::Resolved, Stage::Unresolved, Stage::Failed] {
        assert_eq!(step(stage, Some("help"), &message("/help"), BOT, &mut store), (stage, Action::Rest));
    }
}
