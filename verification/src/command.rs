use vstd::prelude::*;
use crate::scan::{
    chars_of, eq_ignoring_ascii_case, find_char, find_pattern, find_whitespace, first_occurrence,
    first_where, is_whitespace, lemma_first_occurrence, lemma_first_where_is, occurs_at, range_is,
    range_is_ignoring_ascii_case,
};

verus! {

/// The structured operations that a message can ask for.
#[derive(Clone, Debug, PartialEq, Eq)]
pub enum Command {
    /// Show the list of commands.
    Help,
    /// Show every member's score.
    ViewScoreboard,
    /// Award a point to the author of the message replied to.
    GiveL,
    /// Learn a phrase and a response to it, both held in the argument.
    Learn(String),
}

/// A command as a mathematical value.
pub enum CommandView {
    Help,
    ViewScoreboard,
    GiveL,
    Learn(Seq<char>),
}

impl View for Command {
    type V = CommandView;

    open spec fn view(&self) -> CommandView {
        match self {
            Command::Help => CommandView::Help,
            Command::ViewScoreboard => CommandView::ViewScoreboard,
            Command::GiveL => CommandView::GiveL,
            Command::Learn(body) => CommandView::Learn(body@),
        }
    }
}

/// The character that opens a command.
pub open spec fn prefix() -> Seq<char> {
    "/"@
}

/// The canonical name of a command.
pub open spec fn name_of(command: CommandView) -> Seq<char> {
    match command {
        CommandView::Help => "help"@,
        CommandView::ViewScoreboard => "viewscoreboard"@,
        CommandView::GiveL => "givel"@,
        CommandView::Learn(_) => "learn"@,
    }
}

/// The one-line description of a command.
pub open spec fn description_of(command: CommandView) -> Seq<char> {
    match command {
        CommandView::Help => "Display this text"@,
        CommandView::ViewScoreboard => "view L scoreboard"@,
        CommandView::GiveL => "award L to user"@,
        CommandView::Learn(_) => "learn a new phrase"@,
    }
}

/// The first word of a message: everything before its first whitespace character.
pub open spec fn first_word(text: Seq<char>) -> Seq<char> {
    text.take(first_where(text, |c: char| is_whitespace(c)) as int)
}

/// What follows the first whitespace character of a message; empty where there is none.
pub open spec fn arguments(text: Seq<char>) -> Seq<char> {
    let n = first_where(text, |c: char| is_whitespace(c));
    if n < text.len() {
        text.skip(n as int + 1)
    } else {
        Seq::empty()
    }
}

/// The part of a word before its first `@`.
pub open spec fn before_mention(word: Seq<char>) -> Seq<char> {
    word.take(first_where(word, |c: char| c == '@') as int)
}

/// The name that a word addresses: what stands between its first `@` and its second,
/// or its end. `None` where the word holds no `@`.
pub open spec fn mention(word: Seq<char>) -> Option<Seq<char>> {
    let n = first_where(word, |c: char| c == '@');
    if n < word.len() {
        let rest = word.skip(n as int + 1);
        Some(rest.take(first_where(rest, |c: char| c == '@') as int))
    } else {
        None
    }
}

/// The command that a prefixed name stands for, with `args` as its argument where it takes one.
pub open spec fn named(word: Seq<char>, args: Seq<char>) -> Option<CommandView> {
    if word == prefix() + name_of(CommandView::Help) {
        Some(CommandView::Help)
    } else if word == prefix() + name_of(CommandView::ViewScoreboard) {
        Some(CommandView::ViewScoreboard)
    } else if word == prefix() + name_of(CommandView::GiveL) {
        Some(CommandView::GiveL)
    } else if word == prefix() + name_of(CommandView::Learn(args)) {
        Some(CommandView::Learn(args))
    } else {
        None
    }
}

/// The command that a message spells out, if it spells one: its first word is the prefix
/// and a canonical name, optionally followed by `@` and the bot's own name (in any ASCII
/// case); what follows the first whitespace is the argument.
pub open spec fn parsed(text: Seq<char>, bot_name: Seq<char>) -> Option<CommandView> {
    let word = first_word(text);
    match mention(word) {
        Some(m) => if eq_ignoring_ascii_case(m, bot_name) {
            named(before_mention(word), arguments(text))
        } else {
            None
        },
        None => named(before_mention(word), arguments(text)),
    }
}

/// The command that a classifier's label stands for: the one whose canonical name it is.
pub open spec fn labelled(label: Seq<char>) -> Option<CommandView> {
    if label == name_of(CommandView::Help) {
        Some(CommandView::Help)
    } else if label == name_of(CommandView::ViewScoreboard) {
        Some(CommandView::ViewScoreboard)
    } else if label == name_of(CommandView::GiveL) {
        Some(CommandView::GiveL)
    } else if label == name_of(CommandView::Learn(Seq::empty())) {
        Some(CommandView::Learn(Seq::empty()))
    } else {
        None
    }
}

/// The line that describes one command: prefix and name, `@` and the bot's name where
/// one is given, a dash, the description.
pub open spec fn description_line(command: CommandView, bot_name: Option<Seq<char>>) -> Seq<char> {
    let addressed = match bot_name {
        Some(name) => prefix() + name_of(command) + "@"@ + name,
        None => prefix() + name_of(command),
    };
    addressed + " \u{2014} "@ + description_of(command)
}

/// The text that `Help` answers with: a heading, an empty line, one line for each command.
pub open spec fn help_text(bot_name: Option<Seq<char>>) -> Seq<char> {
    "These commands are supported:"@ + "\n\n"@ + description_line(CommandView::Help, bot_name)
        + "\n"@ + description_line(CommandView::ViewScoreboard, bot_name) + "\n"@
        + description_line(CommandView::GiveL, bot_name) + "\n"@ + description_line(
        CommandView::Learn(Seq::empty()),
        bot_name,
    )
}

/// What separates the phrase from the response in the argument of `Learn`.
pub open spec fn separator() -> Seq<char> {
    " | "@
}

/// The phrase in the argument of `Learn`: what stands before the first separator.
pub open spec fn phrase_part(body: Seq<char>) -> Seq<char> {
    body.take(first_occurrence(body, separator()) as int)
}

/// The response in the argument of `Learn`: what stands between the first separator and
/// the next, or the end. `None` where the argument holds no separator.
pub open spec fn response_part(body: Seq<char>) -> Option<Seq<char>> {
    let n = first_occurrence(body, separator());
    if n < body.len() {
        let rest = body.skip((n + separator().len()) as int);
        Some(rest.take(first_occurrence(rest, separator()) as int))
    } else {
        None
    }
}

/// Why the argument of `Learn` was refused.
#[derive(Clone, Copy, Debug, PartialEq, Eq, Structural)]
pub enum LearnError {
    /// The phrase is empty.
    InputNotSpecified,
    /// There is no separator, and so no response.
    ResponseNotSpecified,
}

/// The phrase and the response that the argument of `Learn` holds, or why it holds none.
pub open spec fn learn_request(body: Seq<char>) -> Result<(Seq<char>, Seq<char>), LearnError> {
    if phrase_part(body).len() == 0 {
        Err(LearnError::InputNotSpecified)
    } else {
        match response_part(body) {
            Some(response) => Ok((phrase_part(body), response)),
            None => Err(LearnError::ResponseNotSpecified),
        }
    }
}

/// The message that tells the user of a refused argument.
pub open spec fn learn_error_text(error: LearnError) -> Seq<char> {
    match error {
        LearnError::InputNotSpecified => "input not specified"@,
        LearnError::ResponseNotSpecified => "response not specified"@,
    }
}

impl LearnError {
    /// The short reply sent to the user.
    pub fn message(&self) -> (text: &'static str)
        ensures
            text@ == learn_error_text(*self),
    {
        match self {
            LearnError::InputNotSpecified => "input not specified",
            LearnError::ResponseNotSpecified => "response not specified",
        }
    }
}

/// A phrase and a response to it, as the user wrote them.
#[derive(Clone, Debug, PartialEq, Eq)]
pub struct LearnRequest {
    pub phrase: String,
    pub response: String,
}

/// Splits the argument of `Learn` into the phrase and the response.
pub fn split_learn_body(body: &str) -> (request: Result<LearnRequest, LearnError>)
    ensures
        match request {
            Ok(r) => learn_request(body@) == Ok::<(Seq<char>, Seq<char>), LearnError>(
                (r.phrase@, r.response@),
            ),
            Err(e) => learn_request(body@) == Err::<(Seq<char>, Seq<char>), LearnError>(e),
        },
{
    let chars = chars_of(body);
    let pattern = chars_of(" | ");
    let len = chars.len();
    proof {
        reveal_strlit(" | ");
        assert(chars@.skip(0) == body@);
    }
    let first = find_pattern(&chars, 0, &pattern);
    if first == 0 {
        return Err(LearnError::InputNotSpecified);
    }
    if first == len {
        return Err(LearnError::ResponseNotSpecified);
    }
    let second = find_pattern(&chars, first + 3, &pattern);
    let phrase = body.substring_char(0, first).to_owned();
    let response = body.substring_char(first + 3, second).to_owned();
    proof {
        let rest = body@.skip(first + 3);
        assert(rest.take(second - (first + 3)) == body@.subrange(first + 3, second as int));
    }
    Ok(LearnRequest { phrase, response })
}

/// Appends the line that describes `command` to `text`.
fn push_description_line(text: &mut String, command: &Command, bot_name: Option<&str>)
    ensures
        final(text)@ == old(text)@ + description_line(
            command@,
            match bot_name {
                Some(name) => Some(name@),
                None => None,
            },
        ),
{
    text.append("/");
    text.append(command.name());
    match bot_name {
        Some(name) => {
            text.append("@");
            text.append(name);
        },
        None => {},
    }
    text.append(" \u{2014} ");
    text.append(command.description());
}

/// The view of an optional command.
pub open spec fn command_view(command: Option<Command>) -> Option<CommandView> {
    match command {
        Some(c) => Some(c@),
        None => None,
    }
}

impl Command {
    /// The canonical lowercase name.
    pub fn name(&self) -> (name: &'static str)
        ensures
            name@ == name_of(self@),
    {
        match self {
            Command::Help => "help",
            Command::ViewScoreboard => "viewscoreboard",
            Command::GiveL => "givel",
            Command::Learn(_) => "learn",
        }
    }

    /// The one-line description shown by `Help`.
    pub fn description(&self) -> (text: &'static str)
        ensures
            text@ == description_of(self@),
    {
        match self {
            Command::Help => "Display this text",
            Command::ViewScoreboard => "view L scoreboard",
            Command::GiveL => "award L to user",
            Command::Learn(_) => "learn a new phrase",
        }
    }

    /// Reads a message as a command in literal syntax. `None` is no error: the message
    /// is simply no command.
    pub fn parse(text: &str, bot_name: &str) -> (command: Option<Command>)
        ensures
            command_view(command) == parsed(text@, bot_name@),
    {
        let chars = chars_of(text);
        let bot = chars_of(bot_name);
        let len = chars.len();
        let end = find_whitespace(&chars, 0, len);
        let at = find_char(&chars, 0, end, '@');
        let ghost word = first_word(text@);
        proof {
            lemma_first_where_is(text@, |c: char| is_whitespace(c), end as int);
            assert(word == text@.take(end as int));
            assert forall|j: int| 0 <= j < at implies !(#[trigger] word[j] == '@') by {
                assert(word[j] == chars@[j]);
            }
            lemma_first_where_is(word, |c: char| c == '@', at as int);
            assert(before_mention(word) == chars@.subrange(0, at as int));
        }
        if at < end {
            let at2 = find_char(&chars, at + 1, end, '@');
            proof {
                let rest = word.skip(at + 1);
                assert forall|j: int| 0 <= j < at2 - (at + 1) implies !(#[trigger] rest[j]
                    == '@') by {
                    assert(rest[j] == chars@[at + 1 + j]);
                }
                lemma_first_where_is(rest, |c: char| c == '@', at2 - (at + 1));
                assert(rest.take(at2 - (at + 1)) == chars@.subrange(at + 1, at2 as int));
            }
            if !range_is_ignoring_ascii_case(&chars, at + 1, at2, &bot) {
                return None;
            }
        }
        proof {
            reveal_strlit("/");
            reveal_strlit("/help");
            reveal_strlit("help");
            reveal_strlit("/viewscoreboard");
            reveal_strlit("viewscoreboard");
            reveal_strlit("/givel");
            reveal_strlit("givel");
            reveal_strlit("/learn");
            reveal_strlit("learn");
            assert("/help"@ =~= prefix() + name_of(CommandView::Help));
            assert("/viewscoreboard"@ =~= prefix() + name_of(CommandView::ViewScoreboard));
            assert("/givel"@ =~= prefix() + name_of(CommandView::GiveL));
            assert("/learn"@ =~= prefix() + name_of(CommandView::Learn(arguments(text@))));
        }
        if range_is(&chars, 0, at, "/help") {
            Some(Command::Help)
        } else if range_is(&chars, 0, at, "/viewscoreboard") {
            Some(Command::ViewScoreboard)
        } else if range_is(&chars, 0, at, "/givel") {
            Some(Command::GiveL)
        } else if range_is(&chars, 0, at, "/learn") {
            let body = if end < len {
                text.substring_char(end + 1, len).to_owned()
            } else {
                String::new()
            };
            Some(Command::Learn(body))
        } else {
            None
        }
    }

    /// The list of commands with their descriptions, each command addressed to
    /// `bot_name` where one is given.
    pub fn descriptions(bot_name: Option<&str>) -> (text: String)
        ensures
            text@ == help_text(
                match bot_name {
                    Some(name) => Some(name@),
                    None => None,
                },
            ),
    {
        let mut text = String::new();
        text.append("These commands are supported:");
        text.append("\n\n");
        push_description_line(&mut text, &Command::Help, bot_name);
        text.append("\n");
        push_description_line(&mut text, &Command::ViewScoreboard, bot_name);
        text.append("\n");
        push_description_line(&mut text, &Command::GiveL, bot_name);
        text.append("\n");
        push_description_line(&mut text, &Command::Learn(String::new()), bot_name);
        text
    }

    /// Maps a classifier's label to the command whose canonical name it is, with an
    /// empty argument where the command takes one.
    pub fn from_label(label: &str) -> (command: Option<Command>)
        ensures
            command_view(command) == labelled(label@),
    {
        let chars = chars_of(label);
        let len = chars.len();
        proof {
            assert(chars@.subrange(0, len as int) == label@);
        }
        if range_is(&chars, 0, len, "help") {
            Some(Command::Help)
        } else if range_is(&chars, 0, len, "viewscoreboard") {
            Some(Command::ViewScoreboard)
        } else if range_is(&chars, 0, len, "givel") {
            Some(Command::GiveL)
        } else if range_is(&chars, 0, len, "learn") {
            Some(Command::Learn(String::new()))
        } else {
            None
        }
    }
}

/// The argument of `Learn` is refused exactly where it is empty, begins with the
/// separator, or holds no separator at all.
pub proof fn lemma_learn_request_refused(body: Seq<char>)
    ensures
        learn_request(body) is Err <==> (body.len() == 0 || occurs_at(body, separator(), 0)
            || forall|i: int| !occurs_at(body, separator(), i)),
        learn_request(body) == Err::<(Seq<char>, Seq<char>), LearnError>(
            LearnError::InputNotSpecified,
        ) <==> (body.len() == 0 || occurs_at(body, separator(), 0)),
{
    reveal_strlit(" | ");
    lemma_first_occurrence(body, separator());
    let f = first_occurrence(body, separator()) as int;
    if f == body.len() {
        assert forall|i: int| !occurs_at(body, separator(), i) by {
            if 0 <= i < body.len() {
                assert(!occurs_at(body, separator(), i));
            }
        }
    } else {
        assert(occurs_at(body, separator(), f));
    }
}

} // verus!
