use vstd::prelude::*;

verus! {

/// A chat participant, known by the platform's user id.
#[derive(Clone, Debug, PartialEq, Eq)]
pub struct Member {
    pub tg_user_id: String,
}

/// A member's score.
#[derive(Clone, Copy, Debug, PartialEq, Eq)]
pub struct Stat {
    pub ls: i32,
}

/// A member together with their score; a member without one counts as zero.
#[derive(Clone, Debug, PartialEq, Eq)]
pub struct MemberStat {
    pub tg_user_id: String,
    pub ls: i32,
}

/// A learned trigger phrase. `author_id` is the row number of the member who taught it.
#[derive(Clone, Debug, PartialEq, Eq)]
pub struct Phrase {
    pub id: i32,
    pub author_id: i32,
    pub content: String,
}

/// A reply that may be given to a phrase. `phrase_id` is the phrase that owns it.
#[derive(Clone, Debug, PartialEq, Eq)]
pub struct Response {
    pub id: i32,
    pub phrase_id: i32,
    pub content: String,
}

/// A phrase paired with one of its responses.
#[derive(Clone, Debug, PartialEq, Eq)]
pub struct DialogTurn {
    pub phrase: String,
    pub response: String,
}

/// A member with their score, as a mathematical value.
pub struct MemberStatView {
    pub tg_user_id: Seq<char>,
    pub ls: int,
}

/// A phrase as a mathematical value.
pub struct PhraseView {
    pub id: int,
    pub author_id: int,
    pub content: Seq<char>,
}

/// A response as a mathematical value.
pub struct ResponseView {
    pub id: int,
    pub phrase_id: int,
    pub content: Seq<char>,
}

/// A dialog turn as a mathematical value.
pub struct DialogTurnView {
    pub phrase: Seq<char>,
    pub response: Seq<char>,
}

impl View for Member {
    type V = Seq<char>;

    open spec fn view(&self) -> Seq<char> {
        self.tg_user_id@
    }
}

impl View for MemberStat {
    type V = MemberStatView;

    open spec fn view(&self) -> MemberStatView {
        MemberStatView { tg_user_id: self.tg_user_id@, ls: self.ls as int }
    }
}

impl View for Phrase {
    type V = PhraseView;

    open spec fn view(&self) -> PhraseView {
        PhraseView { id: self.id as int, author_id: self.author_id as int, content: self.content@ }
    }
}

impl View for Response {
    type V = ResponseView;

    open spec fn view(&self) -> ResponseView {
        ResponseView {
            id: self.id as int,
            phrase_id: self.phrase_id as int,
            content: self.content@,
        }
    }
}

impl View for DialogTurn {
    type V = DialogTurnView;

    open spec fn view(&self) -> DialogTurnView {
        DialogTurnView { phrase: self.phrase@, response: self.response@ }
    }
}

} // verus!
