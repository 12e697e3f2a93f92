use phrase_router::models::{DialogTurn, Member, MemberStat, Phrase, Response, Stat};
use phrase_router::store::{Learnt, Store, StoreError, Write};

fn turn(phrase: &str, response: &str) -> DialogTurn {
    DialogTurn { phrase: phrase.to_string(), response: response.to_string() }
}

fn row(id: &str, ls: i32) -> MemberStat {
    MemberStat { tg_user_id: id.to_string(), ls }
}

#[test]
fn new_store_is_empty() {
    let store = Store::new();
    assert!(store.members().is_empty());
    assert!(store.stats().is_empty());
    assert!(store.phrases().is_empty());
    assert!(store.responses().is_empty());
    assert!(store.scoreboard().is_empty());
    assert!(store.dialog_turns("hello").is_empty());
}

#[test]
fn first_award_gives_one_and_second_gives_two() {
    let mut store = Store::new();
    assert_eq!(store.award("42"), Ok(1));
    assert_eq!(store.scoreboard(), vec![row("42", 1)]);
    assert_eq!(store.award("42"), Ok(2));
    assert_eq!(store.scoreboard(), vec![row("42", 2)]);
    assert_eq!(store.members().len(), 1);
    assert_eq!(store.stats(), &vec![Some(Stat { ls: 2 })]);
}

#[test]
fn awards_add_exactly_one() {
    let mut store = Store::new();
    for expected in 1..=25 {
        assert_eq!(store.award("7"), Ok(expected));
    }
}

#[test]
fn scoreboard_keeps_the_order_of_arrival() {
    let mut store = Store::new();
    store.award("b").unwrap();
    store.award("a").unwrap();
    store.award("c").unwrap();
    store.award("a").unwrap();
    assert_eq!(store.scoreboard(), vec![row("b", 1), row("a", 2), row("c", 1)]);
    assert_eq!(store.scoreboard(), store.scoreboard());
}

#[test]
fn author_without_award_counts_as_zero() {
    let mut store = Store::new();
    store.learn("9", "hello", "hi").unwrap();
    assert_eq!(store.members(), &vec![Member { tg_user_id: "9".to_string() }]);
    assert_eq!(store.stats(), &vec![None]);
    assert_eq!(store.scoreboard(), vec![row("9", 0)]);
    assert_eq!(store.award("9"), Ok(1));
    assert_eq!(store.scoreboard(), vec![row("9", 1)]);
    assert_eq!(store.members().len(), 1);
}

#[test]
fn award_at_the_limit_is_refused() {
    let members = vec![Member { tg_user_id: "1".to_string() }];
    let stats = vec![Some(Stat { ls: i32::MAX })];
    let mut store = Store::from_rows(members, stats, Vec::new(), Vec::new()).unwrap();
    assert_eq!(store.award("1"), Err(StoreError::ScoreLimit));
    assert_eq!(store.scoreboard(), vec![row("1", i32::MAX)]);
    assert_eq!(store.award("2"), Ok(1));
}

#[test]
fn learn_stores_the_normal_form() {
    let mut store = Store::new();
    assert_eq!(store.learn("5", "Hello, World!", "Hi there"), Ok(Learnt { phrase_id: 1, created: true }));
    assert_eq!(
        store.phrases(),
        &vec![Phrase { id: 1, author_id: 1, content: "hello world".to_string() }]
    );
    assert_eq!(
        store.responses(),
        &vec![Response { id: 1, phrase_id: 1, content: "Hi there".to_string() }]
    );
    assert_eq!(store.dialog_turns("hello world"), vec![turn("hello world", "Hi there")]);
    assert!(store.dialog_turns("Hello, World!").is_empty());
}

#[test]
fn learn_twice_appends_where_the_text_is_its_normal_form() {
    let mut store = Store::new();
    assert_eq!(store.learn("5", "good morning", "morning"), Ok(Learnt { phrase_id: 1, created: true }));
    assert_eq!(store.learn("6", "good morning", "go away"), Ok(Learnt { phrase_id: 1, created: false }));
    assert_eq!(store.phrases().len(), 1);
    assert_eq!(store.responses().len(), 2);
    assert_eq!(store.members().len(), 1);
    assert_eq!(
        store.dialog_turns("good morning"),
        vec![turn("good morning", "morning"), turn("good morning", "go away")]
    );
}

#[test]
fn learn_twice_makes_a_second_phrase_where_it_is_not() {
    let mut store = Store::new();
    assert_eq!(store.learn("5", "Good Morning", "a"), Ok(Learnt { phrase_id: 1, created: true }));
    assert_eq!(store.learn("5", "Good Morning", "b"), Ok(Learnt { phrase_id: 2, created: true }));
    assert_eq!(store.phrases().len(), 2);
    assert_eq!(store.phrases()[0].content, "good morning");
    assert_eq!(store.phrases()[1].content, "good morning");
    assert_eq!(
        store.dialog_turns("good morning"),
        vec![turn("good morning", "a"), turn("good morning", "b")]
    );
}

#[test]
fn learn_names_the_author_by_row() {
    let mut store = Store::new();
    store.award("x").unwrap();
    store.learn("y", "one", "1").unwrap();
    store.learn("x", "two", "2").unwrap();
    store.learn("y", "three", "3").unwrap();
    let authors: Vec<i32> = store.phrases().iter().map(|p| p.author_id).collect();
    assert_eq!(authors, vec![2, 1, 2]);
    assert_eq!(store.members().len(), 2);
    assert_eq!(store.scoreboard(), vec![row("x", 1), row("y", 0)]);
}

#[test]
fn learn_as_uses_the_normal_form_it_is_given() {
    let mut store = Store::new();
    assert_eq!(store.learn_as("1", "Raw", "cooked", "r"), Ok(Learnt { phrase_id: 1, created: true }));
    assert_eq!(store.phrases()[0].content, "cooked");
    assert_eq!(store.learn_as("1", "cooked", "other", "s"), Ok(Learnt { phrase_id: 1, created: false }));
    assert_eq!(store.learn_as("1", "Raw", "cooked", "t"), Ok(Learnt { phrase_id: 2, created: true }));
    assert_eq!(
        store.dialog_turns("cooked"),
        vec![turn("cooked", "r"), turn("cooked", "s"), turn("cooked", "t")]
    );
    assert!(store.dialog_turns("Raw").is_empty());
}

#[test]
fn dialog_turns_match_the_content_exactly() {
    let mut store = Store::new();
    store.learn("1", "hello", "a").unwrap();
    store.learn("1", "hello there", "b").unwrap();
    store.learn("1", "hello", "c").unwrap();
    assert_eq!(store.dialog_turns("hello"), vec![turn("hello", "a"), turn("hello", "c")]);
    assert_eq!(store.dialog_turns("hello there"), vec![turn("hello there", "b")]);
    assert!(store.dialog_turns("hell").is_empty());
    assert!(store.dialog_turns("").is_empty());
}

#[test]
fn from_rows_accepts_what_a_store_wrote() {
    let mut store = Store::new();
    store.award("a").unwrap();
    store.learn("b", "hi", "hello").unwrap();
    store.learn("a", "hi", "hey").unwrap();
    let copy = Store::from_rows(
        store.members().clone(),
        store.stats().clone(),
        store.phrases().clone(),
        store.responses().clone(),
    )
    .unwrap();
    assert_eq!(copy.members(), store.members());
    assert_eq!(copy.stats(), store.stats());
    assert_eq!(copy.phrases(), store.phrases());
    assert_eq!(copy.responses(), store.responses());
    assert_eq!(copy.dialog_turns("hi"), store.dialog_turns("hi"));
}

#[test]
fn from_rows_refuses_broken_rows() {
    let member = |id: &str| Member { tg_user_id: id.to_string() };
    let phrase = |id: i32, author_id: i32| Phrase { id, author_id, content: "p".to_string() };
    let response = |id: i32, phrase_id: i32| Response { id, phrase_id, content: "r".to_string() };
    // a score without a member
    assert!(Store::from_rows(vec![], vec![None], vec![], vec![]).is_none());
    // a member twice
    assert!(Store::from_rows(vec![member("a"), member("a")], vec![None, None], vec![], vec![]).is_none());
    // a score of zero
    assert!(Store::from_rows(vec![member("a")], vec![Some(Stat { ls: 0 })], vec![], vec![]).is_none());
    // a phrase without an author
    assert!(Store::from_rows(vec![], vec![], vec![phrase(1, 1)], vec![response(1, 1)]).is_none());
    // a phrase with a wrong number
    assert!(Store::from_rows(vec![member("a")], vec![None], vec![phrase(2, 1)], vec![response(1, 1)]).is_none());
    // a phrase without a response
    assert!(Store::from_rows(vec![member("a")], vec![None], vec![phrase(1, 1)], vec![]).is_none());
    // a response without a phrase
    assert!(Store::from_rows(vec![member("a")], vec![None], vec![phrase(1, 1)], vec![response(1, 1), response(2, 2)]).is_none());
    // a response with a wrong number
    assert!(Store::from_rows(vec![member("a")], vec![None], vec![phrase(1, 1)], vec![response(3, 1)]).is_none());
    // well-formed rows
    assert!(Store::from_rows(vec![member("a")], vec![None], vec![phrase(1, 1)], vec![response(1, 1)]).is_some());
}

#[test]
fn invariant_holds_after_every_write() {
    let mut store = Store::new();
    assert!(store.holds_invariant());
    store.award("a").unwrap();
    assert!(store.holds_invariant());
    store.learn("b", "Hello there", "hi").unwrap();
    assert!(store.holds_invariant());
    store.learn("a", "hello there", "hey").unwrap();
    assert!(store.holds_invariant());
    store.award("b").unwrap();
    store.award("c").unwrap();
    assert!(store.holds_invariant());
}

#[test]
fn writes_keep_earlier_rows() {
    let mut store = Store::new();
    store.award("a").unwrap();
    store.learn("b", "one", "1").unwrap();
    let members = store.members().clone();
    let phrases = store.phrases().clone();
    let responses = store.responses().clone();
    store.award("c").unwrap();
    store.learn("c", "two", "2").unwrap();
    store.learn("a", "one", "uno").unwrap();
    assert_eq!(&store.members()[..members.len()], &members[..]);
    assert_eq!(&store.phrases()[..phrases.len()], &phrases[..]);
    assert_eq!(&store.responses()[..responses.len()], &responses[..]);
    assert_eq!(store.stats()[0], Some(Stat { ls: 1 }));
}

#[test]
fn award_leaves_other_scores_alone() {
    let mut store = Store::new();
    store.award("a").unwrap();
    store.award("b").unwrap();
    store.award("b").unwrap();
    store.award("a").unwrap();
    store.award("b").unwrap();
    assert_eq!(store.scoreboard(), vec![row("a", 2), row("b", 3)]);
}

#[test]
fn writes_since_tells_what_was_written() {
    let mut store = Store::new();
    let mark = store.mark();
    assert!(store.writes_since(&mark).is_empty());
    store.award("a").unwrap();
    assert_eq!(
        store.writes_since(&mark),
        vec![
            Write::Member { id: 1, tg_user_id: "a".to_string() },
            Write::Stat { member_id: 1, ls: 1 },
        ]
    );
    let mark = store.mark();
    store.award("a").unwrap();
    assert_eq!(store.writes_since(&mark), vec![Write::Stat { member_id: 1, ls: 2 }]);
    let mark = store.mark();
    store.learn("b", "Hi!", "hello").unwrap();
    assert_eq!(
        store.writes_since(&mark),
        vec![
            Write::Member { id: 2, tg_user_id: "b".to_string() },
            Write::Phrase(Phrase { id: 1, author_id: 2, content: "hi".to_string() }),
            Write::Response(Response { id: 1, phrase_id: 1, content: "hello".to_string() }),
        ]
    );
    let mark = store.mark();
    store.learn("c", "hi", "hey").unwrap();
    assert_eq!(
        store.writes_since(&mark),
        vec![Write::Response(Response { id: 2, phrase_id: 1, content: "hey".to_string() })]
    );
    let mark = store.mark();
    store.award("b").unwrap();
    assert_eq!(store.writes_since(&mark), vec![Write::Stat { member_id: 2, ls: 1 }]);
    assert!(store.writes_since(&store.mark()).is_empty());
}

#[test]
fn writes_since_the_beginning_rebuild_the_store() {
    let mut store = Store::new();
    let beginning = store.mark();
    store.award("a").unwrap();
    store.learn("b", "x", "y").unwrap();
    store.award("a").unwrap();
    let mut members = Vec::new();
    let mut stats = Vec::new();
    let mut phrases = Vec::new();
    let mut responses = Vec::new();
    for write in store.writes_since(&beginning) {
        match write {
            Write::Member { tg_user_id, .. } => {
                members.push(Member { tg_user_id });
                stats.push(None);
            }
            Write::Stat { member_id, ls } => stats[member_id as usize - 1] = Some(Stat { ls }),
            Write::Phrase(phrase) => phrases.push(phrase),
            Write::Response(response) => responses.push(response),
        }
    }
    let copy = Store::from_rows(members, stats, phrases, responses).unwrap();
    assert_eq!(copy.scoreboard(), store.scoreboard());
    assert_eq!(copy.phrases(), store.phrases());
    assert_eq!(copy.responses(), store.responses());
}
