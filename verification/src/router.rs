use vstd::pervasive::unreached;
use vstd::prelude::*;
use crate::command::{
    help_text, labelled, learn_error_text, learn_request, lemma_learn_request_refused, parsed,
    separator, split_learn_body, Command, CommandView,
};
use crate::models::{MemberStat, MemberStatView};
use crate::scan::occurs_at;
use crate::select::pick_response;
use crate::store::{lemma_learnt_is_a_turn, row_views, turn_views, Store, StoreError, StoreView};
use crate::text::{normal_form, normalize};

verus! {

/// The message that another message replies to.
#[derive(Clone, Debug, PartialEq, Eq)]
pub struct Quoted {
    /// Who wrote it, where that is known.
    pub author_id: Option<String>,
    /// Its text; empty where it has none.
    pub text: String,
}

/// An incoming message.
#[derive(Clone, Debug, PartialEq, Eq)]
pub struct Message {
    pub id: i32,
    pub chat_id: i64,
    /// Who wrote it, where that is known.
    pub author_id: Option<String>,
    pub text: String,
    /// The message that it replies to, if it is a reply.
    pub reply_to: Option<Quoted>,
    /// Whether the chat has more than two parties.
    pub multi_party: bool,
}

/// A quoted message as a mathematical value.
pub struct QuotedView {
    pub author_id: Option<Seq<char>>,
    pub text: Seq<char>,
}

/// A message as a mathematical value.
pub struct MessageView {
    pub id: int,
    pub chat_id: int,
    pub author_id: Option<Seq<char>>,
    pub text: Seq<char>,
    pub reply_to: Option<QuotedView>,
    pub multi_party: bool,
}

/// The view of an optional string.
pub open spec fn text_view(text: Option<String>) -> Option<Seq<char>> {
    match text {
        Some(t) => Some(t@),
        None => None,
    }
}

impl View for Quoted {
    type V = QuotedView;

    open spec fn view(&self) -> QuotedView {
        QuotedView { author_id: text_view(self.author_id), text: self.text@ }
    }
}

impl View for Message {
    type V = MessageView;

    open spec fn view(&self) -> MessageView {
        MessageView {
            id: self.id as int,
            chat_id: self.chat_id as int,
            author_id: text_view(self.author_id),
            text: self.text@,
            reply_to: match self.reply_to {
                Some(q) => Some(q@),
                None => None,
            },
            multi_party: self.multi_party,
        }
    }
}

/// By which step of the chain a command was found.
#[derive(Clone, Copy, Debug, PartialEq, Eq, Structural)]
pub enum Via {
    /// The message spelled the command out.
    Literal,
    /// The intent classifier named it.
    Classified,
}

/// Why a message could not be processed.
#[derive(Clone, Copy, Debug, PartialEq, Eq, Structural)]
pub enum RouteError {
    /// The message has no identifiable author.
    NoAuthor,
    /// The store refused a write.
    Store(StoreError),
}

/// What is to be sent back.
#[derive(Clone, Debug, PartialEq, Eq)]
pub enum Reply {
    /// This text.
    Text(String),
    /// The scoreboard with these rows, once their display names are known.
    Scoreboard(Vec<MemberStat>),
}

/// How the processing of a message ended.
#[derive(Clone, Debug, PartialEq, Eq)]
pub enum Outcome {
    /// A command ran.
    Command { command: Command, via: Via, reply: Reply },
    /// A learned phrase matched; `reply` is one of its responses.
    Phrase { reply: String },
    /// Nothing matched: no reply is sent.
    Unresolved,
    /// The message was dropped.
    Failed(RouteError),
}

/// A reply as a mathematical value.
pub enum ReplyView {
    Text(Seq<char>),
    Scoreboard(Seq<MemberStatView>),
}

/// An outcome as a mathematical value.
pub enum OutcomeView {
    Command { command: CommandView, via: Via, reply: ReplyView },
    Phrase { reply: Seq<char> },
    Unresolved,
    Failed(RouteError),
}

impl View for Reply {
    type V = ReplyView;

    open spec fn view(&self) -> ReplyView {
        match self {
            Reply::Text(text) => ReplyView::Text(text@),
            Reply::Scoreboard(rows) => ReplyView::Scoreboard(row_views(rows@)),
        }
    }
}

impl View for Outcome {
    type V = OutcomeView;

    open spec fn view(&self) -> OutcomeView {
        match self {
            Outcome::Command { command, via, reply } => OutcomeView::Command {
                command: command@,
                via: *via,
                reply: reply@,
            },
            Outcome::Phrase { reply } => OutcomeView::Phrase { reply: reply@ },
            Outcome::Unresolved => OutcomeView::Unresolved,
            Outcome::Failed(error) => OutcomeView::Failed(*error),
        }
    }
}

/// The stations of the fallback chain.
#[derive(Clone, Copy, Debug, PartialEq, Eq, Structural)]
pub enum Stage {
    Start,
    TryLiteralCommand,
    TryClassifiedCommand,
    TryPhraseMatch,
    Resolved,
    Unresolved,
    Failed,
}

/// What the caller is to do after a step.
#[derive(Clone, Debug, PartialEq, Eq)]
pub enum Action {
    /// Nothing outside: take the next step.
    Continue,
    /// Ask the intent classifier about this text, and hand its answer to the next step.
    Classify(String),
    /// Act on the outcome: the processing has ended.
    Finish(Outcome),
    /// Nothing: the processing had ended before.
    Rest,
}

/// An action as a mathematical value.
pub enum ActionView {
    Continue,
    Classify(Seq<char>),
    Finish(OutcomeView),
    Rest,
}

impl View for Action {
    type V = ActionView;

    open spec fn view(&self) -> ActionView {
        match self {
            Action::Continue => ActionView::Continue,
            Action::Classify(text) => ActionView::Classify(text@),
            Action::Finish(outcome) => ActionView::Finish(outcome@),
            Action::Rest => ActionView::Rest,
        }
    }
}

/// The reply to `ViewScoreboard` on a store without members.
pub open spec fn empty_scoreboard_text() -> Seq<char> {
    "Scoreboard is empty\\!"@
}

/// The reply to `GiveL` on a message that is no reply.
pub open spec fn not_a_reply_text() -> Seq<char> {
    "reply to the person you want the L awarded to"@
}

/// The reply to a `GiveL` that was carried out.
pub open spec fn awarded_text() -> Seq<char> {
    "L has been awarded"@
}

/// The reply to a `Learn` that was carried out.
pub open spec fn learnt_text() -> Seq<char> {
    "learnt"@
}

/// The member whom a `GiveL` in this message awards: the author of the message replied to.
pub open spec fn awardee(msg: MessageView) -> Option<Seq<char>> {
    match msg.reply_to {
        Some(quoted) => quoted.author_id,
        None => None,
    }
}

/// The text that the intent classifier is asked about: the text of the message, or,
/// where that is empty, the text of the message replied to.
pub open spec fn classifier_input(msg: MessageView) -> Seq<char> {
    if msg.text.len() > 0 {
        msg.text
    } else {
        match msg.reply_to {
            Some(quoted) => quoted.text,
            None => Seq::empty(),
        }
    }
}

/// The outcome of a command that answers with a text.
pub open spec fn text_reply(command: CommandView, via: Via, text: Seq<char>) -> OutcomeView {
    OutcomeView::Command { command, via, reply: ReplyView::Text(text) }
}

/// The store and the outcome after `command` ran for the message `msg`, written by
/// `author`.
pub open spec fn executed_for(
    store: StoreView,
    command: CommandView,
    via: Via,
    msg: MessageView,
    bot_name: Seq<char>,
    author: Seq<char>,
) -> (StoreView, OutcomeView) {
    match command {
        CommandView::Help => (
            store,
            text_reply(command, via, 
                help_text(
                    if msg.multi_party {
                        Some(bot_name)
                    } else {
                        None
                    },
                ),
            ),
        ),
        CommandView::ViewScoreboard => (
            store,
            if store.members.len() == 0 {
                text_reply(command, via, empty_scoreboard_text())
            } else {
                OutcomeView::Command {
                    command,
                    via,
                    reply: ReplyView::Scoreboard(store.scoreboard()),
                }
            },
        ),
        CommandView::GiveL => match awardee(msg) {
            None => (store, text_reply(command, via, not_a_reply_text())),
            Some(target) => match store.award_error(target) {
                Some(e) => (store, OutcomeView::Failed(RouteError::Store(e))),
                None => (store.awarded(target), text_reply(command, via, awarded_text())),
            },
        },
        CommandView::Learn(body) => match learn_request(body) {
            Err(e) => (store, text_reply(command, via, learn_error_text(e))),
            Ok((phrase, response)) => match store.learn_error(author, phrase) {
                Some(e) => (store, OutcomeView::Failed(RouteError::Store(e))),
                None => (
                    store.learnt(author, phrase, normal_form(phrase), response),
                    text_reply(command, via, learnt_text()),
                ),
            },
        },
    }
}

/// The store and the outcome after `command` ran for the message `msg`. A message without
/// an author is dropped, whatever the command.
pub open spec fn executed(
    store: StoreView,
    command: CommandView,
    via: Via,
    msg: MessageView,
    bot_name: Seq<char>,
) -> (StoreView, OutcomeView) {
    match msg.author_id {
        None => (store, OutcomeView::Failed(RouteError::NoAuthor)),
        Some(author) => executed_for(store, command, via, msg, bot_name, author),
    }
}

/// Whether `outcome` may end the phrase match of `text` on `store`: with no turn for the
/// normal form of the text, nothing matched; else the reply is the response of one of the
/// turns.
pub open spec fn phrase_matched(store: StoreView, text: Seq<char>, outcome: OutcomeView) -> bool {
    let turns = store.turns(normal_form(text));
    if turns.len() == 0 {
        outcome == OutcomeView::Unresolved
    } else {
        exists|i: int|
            0 <= i < turns.len() && outcome == (OutcomeView::Phrase {
                reply: (#[trigger] turns[i]).response,
            })
    }
}

/// The stage at which the processing rests after `outcome`.
pub open spec fn stage_of(outcome: OutcomeView) -> Stage {
    match outcome {
        OutcomeView::Command { .. } => Stage::Resolved,
        OutcomeView::Phrase { .. } => Stage::Resolved,
        OutcomeView::Unresolved => Stage::Unresolved,
        OutcomeView::Failed(_) => Stage::Failed,
    }
}

/// Whether a step from `stage` may lead to `next` with `action`, taking the store from
/// `before` to `after`. `answer` is what the intent classifier said, if it was asked and
/// named anything.
pub open spec fn stepped(
    stage: Stage,
    answer: Option<Seq<char>>,
    msg: MessageView,
    bot_name: Seq<char>,
    before: StoreView,
    after: StoreView,
    next: Stage,
    action: ActionView,
) -> bool {
    match stage {
        Stage::Start => after == before && next == Stage::TryLiteralCommand && action
            == ActionView::Continue,
        Stage::TryLiteralCommand => match parsed(msg.text, bot_name) {
            Some(command) => {
                let (store, outcome) = executed(before, command, Via::Literal, msg, bot_name);
                after == store && next == stage_of(outcome) && action == ActionView::Finish(outcome)
            },
            None => after == before && if classifier_input(msg).len() > 0 {
                next == Stage::TryClassifiedCommand && action == ActionView::Classify(
                    classifier_input(msg),
                )
            } else {
                next == Stage::TryPhraseMatch && action == ActionView::Continue
            },
        },
        Stage::TryClassifiedCommand => match classified(answer) {
            Some(command) => {
                let (store, outcome) = executed(before, command, Via::Classified, msg, bot_name);
                after == store && next == stage_of(outcome) && action == ActionView::Finish(outcome)
            },
            None => after == before && next == Stage::TryPhraseMatch && action
                == ActionView::Continue,
        },
        Stage::TryPhraseMatch => after == before && match action {
            ActionView::Finish(outcome) => phrase_matched(before, msg.text, outcome) && next
                == stage_of(outcome),
            _ => false,
        },
        _ => after == before && next == stage && action == ActionView::Rest,
    }
}

/// The command that the classifier's answer stands for, if it gave one and it names one.
pub open spec fn classified(answer: Option<Seq<char>>) -> Option<CommandView> {
    match answer {
        Some(label) => labelled(label),
        None => None,
    }
}

/// The command that a message resolves to, and by which step: the one it spells out; else,
/// where there is text to classify, the one that the classifier's answer names.
pub open spec fn resolved_command(
    msg: MessageView,
    bot_name: Seq<char>,
    answer: Option<Seq<char>>,
) -> Option<(CommandView, Via)> {
    match parsed(msg.text, bot_name) {
        Some(command) => Some((command, Via::Literal)),
        None => if classifier_input(msg).len() > 0 {
            match classified(answer) {
                Some(command) => Some((command, Via::Classified)),
                None => None,
            }
        } else {
            None
        },
    }
}

/// Whether routing `msg` may take the store from `before` to `after` and end in `outcome`:
/// a command, spelled out or else classified, runs; without one the phrases decide, and
/// the store stays as it is.
pub open spec fn routed(
    msg: MessageView,
    bot_name: Seq<char>,
    answer: Option<Seq<char>>,
    before: StoreView,
    after: StoreView,
    outcome: OutcomeView,
) -> bool {
    match resolved_command(msg, bot_name, answer) {
        Some((command, via)) => (after, outcome) == executed(before, command, via, msg, bot_name),
        None => after == before && phrase_matched(before, msg.text, outcome),
    }
}

/// The view of an optional text.
pub open spec fn answer_view(answer: Option<&str>) -> Option<Seq<char>> {
    match answer {
        Some(label) => Some(label@),
        None => None,
    }
}

/// Runs a command for a message. Input errors are answered with a short text and write
/// nothing; a message without an author is dropped.
pub fn execute(
    command: Command,
    via: Via,
    msg: &Message,
    bot_name: &str,
    store: &mut Store,
) -> (outcome: Outcome)
    requires
        old(store).wf(),
    ensures
        final(store).wf(),
        (final(store)@, outcome@) == executed(old(store)@, command@, via, msg@, bot_name@),
{
    let author = match &msg.author_id {
        Some(author) => author,
        None => {
            return Outcome::Failed(RouteError::NoAuthor);
        },
    };
    match command {
        Command::Help => {
            let text = if msg.multi_party {
                Command::descriptions(Some(bot_name))
            } else {
                Command::descriptions(None)
            };
            Outcome::Command { command: Command::Help, via, reply: Reply::Text(text) }
        },
        Command::ViewScoreboard => {
            let rows = store.scoreboard();
            proof {
                assert(row_views(rows@).len() == store@.members.len());
            }
            let reply = if rows.len() == 0 {
                Reply::Text("Scoreboard is empty\\!".to_owned())
            } else {
                Reply::Scoreboard(rows)
            };
            Outcome::Command { command: Command::ViewScoreboard, via, reply }
        },
        Command::GiveL => {
            let target = match &msg.reply_to {
                Some(quoted) => match &quoted.author_id {
                    Some(target) => Some(target),
                    None => None,
                },
                None => None,
            };
            match target {
                None => Outcome::Command {
                    command: Command::GiveL,
                    via,
                    reply: Reply::Text("reply to the person you want the L awarded to".to_owned()),
                },
                Some(target) => match store.award(target.as_str()) {
                    Ok(_) => Outcome::Command {
                        command: Command::GiveL,
                        via,
                        reply: Reply::Text("L has been awarded".to_owned()),
                    },
                    Err(e) => Outcome::Failed(RouteError::Store(e)),
                },
            }
        },
        Command::Learn(body) => {
            let request = split_learn_body(body.as_str());
            match request {
                Err(e) => {
                    let text = e.message().to_owned();
                    Outcome::Command {
                        command: Command::Learn(body),
                        via,
                        reply: Reply::Text(text),
                    }
                },
                Ok(request) => match store.learn(
                    author.as_str(),
                    request.phrase.as_str(),
                    request.response.as_str(),
                ) {
                    Ok(_) => Outcome::Command {
                        command: Command::Learn(body),
                        via,
                        reply: Reply::Text("learnt".to_owned()),
                    },
                    Err(e) => Outcome::Failed(RouteError::Store(e)),
                },
            }
        },
    }
}

/// Looks the text up among the learned phrases, by its normal form, and picks one of the
/// responses at random.
pub fn match_phrase(text: &str, store: &Store) -> (outcome: Outcome)
    requires
        store.wf(),
    ensures
        phrase_matched(store@, text@, outcome@),
{
    let normal = normalize(text);
    let turns = store.dialog_turns(normal.as_str());
    proof {
        assert(turn_views(turns@).len() == turns@.len());
    }
    match pick_response(&turns) {
        Some(reply) => {
            proof {
                let i = choose|i: int|
                    0 <= i < turns@.len() && (#[trigger] turns@[i]).response@ == reply@;
                assert(turn_views(turns@)[i].response == reply@);
            }
            Outcome::Phrase { reply }
        },
        None => Outcome::Unresolved,
    }
}

/// The stage at which the processing rests after `outcome`.
pub fn resting_stage(outcome: &Outcome) -> (stage: Stage)
    ensures
        stage == stage_of(outcome@),
{
    match outcome {
        Outcome::Command { .. } => Stage::Resolved,
        Outcome::Phrase { .. } => Stage::Resolved,
        Outcome::Unresolved => Stage::Unresolved,
        Outcome::Failed(_) => Stage::Failed,
    }
}

/// The text that the intent classifier is asked about.
pub fn text_to_classify(msg: &Message) -> (text: String)
    ensures
        text@ == classifier_input(msg@),
{
    if !msg.text.as_str().is_empty() {
        msg.text.clone()
    } else {
        match &msg.reply_to {
            Some(quoted) => quoted.text.clone(),
            None => String::new(),
        }
    }
}

/// Takes one step of the fallback chain. The order is fixed: a command that the message
/// spells out; else one that the intent classifier names; else a learned phrase.
/// `answer` is read at `TryClassifiedCommand` alone: the label that the classifier gave,
/// or `None` where it gave none, failed or ran out of time.
pub fn step(
    stage: Stage,
    answer: Option<&str>,
    msg: &Message,
    bot_name: &str,
    store: &mut Store,
) -> (result: (Stage, Action))
    requires
        old(store).wf(),
    ensures
        final(store).wf(),
        stepped(
            stage,
            answer_view(answer),
            msg@,
            bot_name@,
            old(store)@,
            final(store)@,
            result.0,
            result.1@,
        ),
{
    match stage {
        Stage::Start => (Stage::TryLiteralCommand, Action::Continue),
        Stage::TryLiteralCommand => match Command::parse(msg.text.as_str(), bot_name) {
            Some(command) => {
                let outcome = execute(command, Via::Literal, msg, bot_name, store);
                (resting_stage(&outcome), Action::Finish(outcome))
            },
            None => {
                let input = text_to_classify(msg);
                if !input.as_str().is_empty() {
                    (Stage::TryClassifiedCommand, Action::Classify(input))
                } else {
                    (Stage::TryPhraseMatch, Action::Continue)
                }
            },
        },
        Stage::TryClassifiedCommand => {
            let command = match answer {
                Some(label) => Command::from_label(label),
                None => None,
            };
            match command {
                Some(command) => {
                    let outcome = execute(command, Via::Classified, msg, bot_name, store);
                    (resting_stage(&outcome), Action::Finish(outcome))
                },
                None => (Stage::TryPhraseMatch, Action::Continue),
            }
        },
        Stage::TryPhraseMatch => {
            let outcome = match_phrase(msg.text.as_str(), store);
            (resting_stage(&outcome), Action::Finish(outcome))
        },
        Stage::Resolved => (Stage::Resolved, Action::Rest),
        Stage::Unresolved => (Stage::Unresolved, Action::Rest),
        Stage::Failed => (Stage::Failed, Action::Rest),
    }
}

/// Routes a message through the whole chain, with `answer` as what the intent classifier
/// says where it is asked.
pub fn route(
    msg: &Message,
    bot_name: &str,
    answer: Option<&str>,
    store: &mut Store,
) -> (outcome: Outcome)
    requires
        old(store).wf(),
    ensures
        final(store).wf(),
        routed(msg@, bot_name@, answer_view(answer), old(store)@, final(store)@, outcome@),
{
    let (stage, _) = step(Stage::Start, answer, msg, bot_name, store);
    let (stage, action) = step(stage, answer, msg, bot_name, store);
    let stage = match action {
        Action::Finish(outcome) => {
            return outcome;
        },
        Action::Classify(_) => {
            let (stage, action) = step(stage, answer, msg, bot_name, store);
            match action {
                Action::Finish(outcome) => {
                    return outcome;
                },
                _ => stage,
            }
        },
        _ => stage,
    };
    let (_, action) = step(stage, answer, msg, bot_name, store);
    match action {
        Action::Finish(outcome) => outcome,
        _ => unreached(),
    }
}

/// A message that spells out a command is answered as that command, whatever the
/// classifier says and whatever phrases the store holds.
pub proof fn lemma_literal_command_wins(
    msg: MessageView,
    bot_name: Seq<char>,
    answer: Option<Seq<char>>,
    before: StoreView,
    after: StoreView,
    outcome: OutcomeView,
)
    requires
        parsed(msg.text, bot_name) is Some,
        routed(msg, bot_name, answer, before, after, outcome),
    ensures
        (after, outcome) == executed(
            before,
            parsed(msg.text, bot_name)->0,
            Via::Literal,
            msg,
            bot_name,
        ),
        outcome !is Phrase,
        outcome !is Unresolved,
        outcome matches OutcomeView::Command { via, .. } ==> via == Via::Literal,
{
}

/// A message that spells out no command, and for which the classifier names one, is
/// answered as that command, whatever phrases the store holds.
pub proof fn lemma_classified_command_wins(
    msg: MessageView,
    bot_name: Seq<char>,
    label: Seq<char>,
    before: StoreView,
    after: StoreView,
    outcome: OutcomeView,
)
    requires
        parsed(msg.text, bot_name) is None,
        classifier_input(msg).len() > 0,
        labelled(label) is Some,
        routed(msg, bot_name, Some(label), before, after, outcome),
    ensures
        (after, outcome) == executed(before, labelled(label)->0, Via::Classified, msg, bot_name),
        outcome !is Phrase,
        outcome !is Unresolved,
{
}

/// A phrase that has been learned, sent back as it was written, is answered with one of
/// the responses learned for it, the new one among them: where the message resolves to no
/// command, and where no phrase was stored under the text as written before or the text is
/// its own normal form.
pub proof fn lemma_learn_round_trip(
    store: StoreView,
    author: Seq<char>,
    phrase: Seq<char>,
    response: Seq<char>,
    msg: MessageView,
    bot_name: Seq<char>,
    answer: Option<Seq<char>>,
    after: StoreView,
    outcome: OutcomeView,
)
    requires
        store.wf(),
        store.phrase_row(phrase) is None || normal_form(phrase) == phrase,
        msg.text == phrase,
        resolved_command(msg, bot_name, answer) is None,
        routed(
            msg,
            bot_name,
            answer,
            store.learnt(author, phrase, normal_form(phrase), response),
            after,
            outcome,
        ),
    ensures
        ({
            let taught = store.learnt(author, phrase, normal_form(phrase), response);
            let turns = taught.turns(normal_form(phrase));
            &&& after == taught
            &&& turns.len() > 0
            &&& turns.last().response == response
            &&& outcome is Phrase
            &&& exists|i: int|
                0 <= i < turns.len() && (#[trigger] turns[i]).response == outcome->Phrase_reply
        }),
{
    lemma_learnt_is_a_turn(store, author, phrase, normal_form(phrase), response);
}

/// Every response among the turns of a text may be the reply to it: the match is free to
/// pick any of them.
pub proof fn lemma_every_response_may_come(store: StoreView, text: Seq<char>, i: int)
    requires
        0 <= i < store.turns(normal_form(text)).len(),
    ensures
        phrase_matched(
            store,
            text,
            OutcomeView::Phrase { reply: store.turns(normal_form(text))[i].response },
        ),
{
}

/// `GiveL` on a message that is no reply writes nothing and answers with the
/// instruction to reply; on a reply it awards the author of the message replied to.
pub proof fn lemma_give_l(store: StoreView, via: Via, msg: MessageView, bot_name: Seq<char>)
    requires
        msg.author_id is Some,
    ensures
        awardee(msg) is None ==> executed(store, CommandView::GiveL, via, msg, bot_name) == (
            store,
            text_reply(CommandView::GiveL, via, not_a_reply_text()),
        ),
        awardee(msg) is Some && store.award_error(awardee(msg)->0) is None ==> executed(
            store,
            CommandView::GiveL,
            via,
            msg,
            bot_name,
        ) == (store.awarded(awardee(msg)->0), text_reply(CommandView::GiveL, via, awarded_text())),
{
}

/// `ViewScoreboard` writes nothing. On a store without members it answers with the
/// text for an empty scoreboard; else with one row for each member, in the order of the
/// store.
pub proof fn lemma_view_scoreboard(
    store: StoreView,
    via: Via,
    msg: MessageView,
    bot_name: Seq<char>,
)
    requires
        msg.author_id is Some,
    ensures
        ({
            let (after, outcome) = executed(
                store,
                CommandView::ViewScoreboard,
                via,
                msg,
                bot_name,
            );
            &&& after == store
            &&& store.members.len() == 0 ==> outcome == text_reply(
                CommandView::ViewScoreboard,
                via,
                empty_scoreboard_text(),
            )
            &&& store.members.len() > 0 ==> {
                &&& outcome matches OutcomeView::Command { reply: ReplyView::Scoreboard(rows), .. }
                &&& rows.len() == store.members.len()
                &&& forall|i: int|
                    0 <= i < rows.len() ==> (#[trigger] rows[i]).tg_user_id == store.members[i]
            }
        }),
{
}

/// `Learn` with an argument that is empty, begins with the separator or holds none
/// writes nothing, and answers with the text that names what is missing.
pub proof fn lemma_learn_refused_writes_nothing(
    store: StoreView,
    body: Seq<char>,
    via: Via,
    msg: MessageView,
    bot_name: Seq<char>,
)
    requires
        msg.author_id is Some,
        body.len() == 0 || occurs_at(body, separator(), 0) || forall|i: int|
            !occurs_at(body, separator(), i),
    ensures
        learn_request(body) is Err,
        executed(store, CommandView::Learn(body), via, msg, bot_name) == (
            store,
            text_reply(CommandView::Learn(body), via, learn_error_text(learn_request(body)->Err_0)),
        ),
{
    lemma_learn_request_refused(body);
}

} // verus!
