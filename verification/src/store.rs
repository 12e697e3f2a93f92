use vstd::prelude::*;
use crate::models::{
    DialogTurn, DialogTurnView, Member, MemberStat, MemberStatView, Phrase, PhraseView, Response,
    ResponseView, Stat,
};
use crate::scan::{first_of, lemma_first_of, lemma_first_of_is};
use crate::text::{normal_form, normalize};

verus! {

/// What the store holds, as a mathematical value: the members in the order in which they
/// came, the score of each (`None` for a member who was never awarded), the phrases and
/// the responses in the order in which they were learned.
pub struct StoreView {
    pub members: Seq<Seq<char>>,
    pub scores: Seq<Option<int>>,
    pub phrases: Seq<PhraseView>,
    pub responses: Seq<ResponseView>,
}

/// Why the store refused a write.
#[derive(Clone, Copy, Debug, PartialEq, Eq, Structural)]
pub enum StoreError {
    /// The score is the largest that a `Stat` can hold.
    ScoreLimit,
    /// A table holds as many rows as can be numbered.
    RowLimit,
}

/// What a successful `learn` did.
#[derive(Clone, Copy, Debug, PartialEq, Eq, Structural)]
pub struct Learnt {
    /// The phrase that owns the new response.
    pub phrase_id: i32,
    /// Whether that phrase is new.
    pub created: bool,
}

/// A row that was added to a table, or changed in it.
#[derive(Clone, Debug, PartialEq, Eq)]
pub enum Write {
    /// A new member, in this row.
    Member { id: i32, tg_user_id: String },
    /// The score of the member in this row, new or changed.
    Stat { member_id: i32, ls: i32 },
    /// A new phrase.
    Phrase(Phrase),
    /// A new response.
    Response(Response),
}

/// A write as a mathematical value.
pub enum WriteView {
    Member { id: int, tg_user_id: Seq<char> },
    Stat { member_id: int, ls: int },
    Phrase(PhraseView),
    Response(ResponseView),
}

impl View for Write {
    type V = WriteView;

    open spec fn view(&self) -> WriteView {
        match self {
            Write::Member { id, tg_user_id } => WriteView::Member {
                id: *id as int,
                tg_user_id: tg_user_id@,
            },
            Write::Stat { member_id, ls } => WriteView::Stat {
                member_id: *member_id as int,
                ls: *ls as int,
            },
            Write::Phrase(phrase) => WriteView::Phrase(phrase@),
            Write::Response(response) => WriteView::Response(response@),
        }
    }
}

/// The views of a sequence of writes.
pub open spec fn write_views(writes: Seq<Write>) -> Seq<WriteView> {
    writes.map_values(|w: Write| w@)
}

/// What a store held at some moment, as far as later writes can be told from it: how many
/// rows each table had, and the scores.
#[derive(Clone, Debug, PartialEq, Eq)]
pub struct Mark {
    pub members: usize,
    pub stats: Vec<Option<Stat>>,
    pub phrases: usize,
    pub responses: usize,
}

/// A mark as a mathematical value.
pub struct MarkView {
    pub members: int,
    pub scores: Seq<Option<int>>,
    pub phrases: int,
    pub responses: int,
}

impl View for Mark {
    type V = MarkView;

    open spec fn view(&self) -> MarkView {
        MarkView {
            members: self.members as int,
            scores: self.stats@.map_values(|s: Option<Stat>| score_view(s)),
            phrases: self.phrases as int,
            responses: self.responses as int,
        }
    }
}

impl StoreView {
    /// The store that holds nothing.
    pub open spec fn empty() -> StoreView {
        StoreView {
            members: Seq::empty(),
            scores: Seq::empty(),
            phrases: Seq::empty(),
            responses: Seq::empty(),
        }
    }

    /// Whether some response belongs to the phrase with this id.
    pub open spec fn answered(self, phrase_id: int) -> bool {
        exists|r: int| 0 <= r < self.responses.len() && (#[trigger] self.responses[r]).phrase_id
            == phrase_id
    }

    /// The invariant of the store: every member has one row; scores start at 1; rows are
    /// numbered from 1 in the order in which they came; every phrase names its author's row
    /// and every response its phrase's; every phrase has a response.
    pub open spec fn wf(self) -> bool {
        &&& self.scores.len() == self.members.len()
        &&& self.members.len() <= i32::MAX
        &&& self.phrases.len() <= i32::MAX
        &&& self.responses.len() <= i32::MAX
        &&& self.members_distinct()
        &&& self.scores_counted()
        &&& self.phrases_numbered()
        &&& self.responses_numbered()
        &&& self.phrases_answered()
    }

    /// No member has two rows.
    pub open spec fn members_distinct(self) -> bool {
        forall|i: int, j: int|
            0 <= i < j < self.members.len() ==> self.members[i] != self.members[j]
    }

    /// Every score that is there is at least 1.
    pub open spec fn scores_counted(self) -> bool {
        forall|i: int|
            0 <= i < self.scores.len() ==> ((#[trigger] self.scores[i]) matches Some(n) ==> 1 <= n
                <= i32::MAX)
    }

    /// The phrases are numbered from 1, and each names the row of a member as its author.
    pub open spec fn phrases_numbered(self) -> bool {
        forall|i: int|
            0 <= i < self.phrases.len() ==> (#[trigger] self.phrases[i]).id == i + 1 && 1
                <= self.phrases[i].author_id <= self.members.len()
    }

    /// The responses are numbered from 1, and each names a phrase as its owner.
    pub open spec fn responses_numbered(self) -> bool {
        forall|i: int|
            0 <= i < self.responses.len() ==> (#[trigger] self.responses[i]).id == i + 1 && 1
                <= self.responses[i].phrase_id <= self.phrases.len()
    }

    /// Every phrase has a response.
    pub open spec fn phrases_answered(self) -> bool {
        forall|id: int| 1 <= id <= self.phrases.len() ==> #[trigger] self.answered(id)
    }

    /// Whether this store holds all that `earlier` held: no row is gone or changed, and
    /// no score is gone or lower.
    pub open spec fn keeps(self, earlier: StoreView) -> bool {
        &&& earlier.members.is_prefix_of(self.members)
        &&& earlier.phrases.is_prefix_of(self.phrases)
        &&& earlier.responses.is_prefix_of(self.responses)
        &&& earlier.scores.len() <= self.scores.len()
        &&& forall|i: int|
            0 <= i < earlier.scores.len() ==> ((#[trigger] earlier.scores[i]) matches Some(n)
                ==> self.scores[i] matches Some(m) && m >= n)
    }

    /// The row of the member with this id.
    pub open spec fn member_row(self, id: Seq<char>) -> Option<int> {
        let i = first_of(self.members, id);
        if i < self.members.len() {
            Some(i as int)
        } else {
            None
        }
    }

    /// The score of the member with this id; zero for a member without one and for a
    /// stranger.
    pub open spec fn score_of(self, id: Seq<char>) -> int {
        match self.member_row(id) {
            Some(i) => match self.scores[i] {
                Some(n) => n,
                None => 0,
            },
            None => 0,
        }
    }

    /// Whether a point can still be awarded to `target`.
    pub open spec fn award_error(self, target: Seq<char>) -> Option<StoreError> {
        match self.member_row(target) {
            Some(i) => if self.scores[i] == Some(i32::MAX as int) {
                Some(StoreError::ScoreLimit)
            } else {
                None
            },
            None => if self.members.len() >= i32::MAX {
                Some(StoreError::RowLimit)
            } else {
                None
            },
        }
    }

    /// The store after a point was awarded to `target`: a first award makes the score 1,
    /// and makes the member where there was none; a later one adds 1.
    pub open spec fn awarded(self, target: Seq<char>) -> StoreView {
        match self.member_row(target) {
            Some(i) => StoreView {
                scores: self.scores.update(
                    i,
                    Some(
                        match self.scores[i] {
                            Some(n) => n + 1,
                            None => 1,
                        },
                    ),
                ),
                ..self
            },
            None => StoreView {
                members: self.members.push(target),
                scores: self.scores.push(Some(1)),
                ..self
            },
        }
    }

    /// The scoreboard: every member, in the order of the store, with their score.
    pub open spec fn scoreboard(self) -> Seq<MemberStatView> {
        Seq::new(
            self.members.len(),
            |i: int|
                MemberStatView {
                    tg_user_id: self.members[i],
                    ls: match self.scores[i] {
                        Some(n) => n,
                        None => 0,
                    },
                },
        )
    }

    /// The contents under which the phrases are stored, in the order of the phrases.
    pub open spec fn contents(self) -> Seq<Seq<char>> {
        self.phrases.map_values(|p: PhraseView| p.content)
    }

    /// Whether no two phrases are stored under the same content.
    pub open spec fn contents_distinct(self) -> bool {
        forall|i: int, j: int|
            0 <= i < j < self.phrases.len() ==> (#[trigger] self.phrases[i]).content != (
            #[trigger] self.phrases[j]).content
    }

    /// The row of the first phrase whose stored content is exactly `content`.
    pub open spec fn phrase_row(self, content: Seq<char>) -> Option<int> {
        let i = first_of(self.contents(), content);
        if i < self.phrases.len() {
            Some(i as int)
        } else {
            None
        }
    }

    /// The store with `id` among its members.
    pub open spec fn with_member(self, id: Seq<char>) -> StoreView {
        if self.member_row(id) is Some {
            self
        } else {
            StoreView { members: self.members.push(id), scores: self.scores.push(None), ..self }
        }
    }

    /// Why `phrase` cannot be learned from `author`, if it cannot.
    pub open spec fn learn_error(self, author: Seq<char>, phrase: Seq<char>) -> Option<
        StoreError,
    > {
        if self.responses.len() >= i32::MAX {
            Some(StoreError::RowLimit)
        } else if self.phrase_row(phrase) is Some {
            None
        } else if self.phrases.len() >= i32::MAX {
            Some(StoreError::RowLimit)
        } else if self.member_row(author) is None && self.members.len() >= i32::MAX {
            Some(StoreError::RowLimit)
        } else {
            None
        }
    }

    /// The store after `author` taught `response` as a reply to `phrase`, whose normal form
    /// is `normal`. Where a phrase is stored under `phrase` as written, the response joins
    /// that phrase. Where none is, the author becomes a member, and a new phrase is stored
    /// under `normal` with the response as its first.
    pub open spec fn learnt(
        self,
        author: Seq<char>,
        phrase: Seq<char>,
        normal: Seq<char>,
        response: Seq<char>,
    ) -> StoreView {
        match self.phrase_row(phrase) {
            Some(p) => StoreView {
                responses: self.responses.push(
                    ResponseView {
                        id: self.responses.len() as int + 1,
                        phrase_id: p + 1,
                        content: response,
                    },
                ),
                ..self
            },
            None => {
                let known = self.with_member(author);
                StoreView {
                    phrases: known.phrases.push(
                        PhraseView {
                            id: known.phrases.len() as int + 1,
                            author_id: known.member_row(author)->0 + 1,
                            content: normal,
                        },
                    ),
                    responses: known.responses.push(
                        ResponseView {
                            id: known.responses.len() as int + 1,
                            phrase_id: known.phrases.len() as int + 1,
                            content: response,
                        },
                    ),
                    ..known
                }
            },
        }
    }

    /// The mark of this store.
    pub open spec fn mark(self) -> MarkView {
        MarkView {
            members: self.members.len() as int,
            scores: self.scores,
            phrases: self.phrases.len() as int,
            responses: self.responses.len() as int,
        }
    }

    /// The members in the rows after `from` up to `to`, as writes.
    pub open spec fn member_writes(self, from: int, to: int) -> Seq<WriteView>
        decreases to - from,
    {
        if to <= from {
            Seq::empty()
        } else {
            self.member_writes(from, to - 1).push(
                WriteView::Member { id: to, tg_user_id: self.members[to - 1] },
            )
        }
    }

    /// The scores in the first `n` rows that are not in `earlier` as they are now, as
    /// writes.
    pub open spec fn score_writes(self, earlier: Seq<Option<int>>, n: int) -> Seq<WriteView>
        decreases n,
    {
        if n <= 0 {
            Seq::empty()
        } else {
            let before = self.score_writes(earlier, n - 1);
            match self.scores[n - 1] {
                Some(ls) => if n - 1 < earlier.len() && earlier[n - 1] == Some(ls) {
                    before
                } else {
                    before.push(WriteView::Stat { member_id: n, ls })
                },
                None => before,
            }
        }
    }

    /// The phrases in the rows after `from` up to `to`, as writes.
    pub open spec fn phrase_writes(self, from: int, to: int) -> Seq<WriteView>
        decreases to - from,
    {
        if to <= from {
            Seq::empty()
        } else {
            self.phrase_writes(from, to - 1).push(WriteView::Phrase(self.phrases[to - 1]))
        }
    }

    /// The responses in the rows after `from` up to `to`, as writes.
    pub open spec fn response_writes(self, from: int, to: int) -> Seq<WriteView>
        decreases to - from,
    {
        if to <= from {
            Seq::empty()
        } else {
            self.response_writes(from, to - 1).push(WriteView::Response(self.responses[to - 1]))
        }
    }

    /// What was written since the mark was taken: the new members, the scores that are new
    /// or changed, the new phrases, the new responses; each kind in the order of its rows.
    pub open spec fn writes_since(self, mark: MarkView) -> Seq<WriteView> {
        self.member_writes(mark.members, self.members.len() as int) + self.score_writes(
            mark.scores,
            self.scores.len() as int,
        ) + self.phrase_writes(mark.phrases, self.phrases.len() as int) + self.response_writes(
            mark.responses,
            self.responses.len() as int,
        )
    }

    /// The dialog turns that the first `n` responses give for `content`: one for each
    /// response whose phrase is stored under exactly `content`.
    pub open spec fn turns_among(self, content: Seq<char>, n: nat) -> Seq<DialogTurnView>
        decreases n,
    {
        if n == 0 {
            Seq::empty()
        } else {
            let r = self.responses[n - 1];
            let before = self.turns_among(content, (n - 1) as nat);
            if self.phrases[r.phrase_id - 1].content == content {
                before.push(DialogTurnView { phrase: content, response: r.content })
            } else {
                before
            }
        }
    }

    /// The dialog turns for `content`, in the order in which the responses were learned.
    pub open spec fn turns(self, content: Seq<char>) -> Seq<DialogTurnView> {
        self.turns_among(content, self.responses.len())
    }
}

/// The phrase store together with the members and their scores.
#[derive(Debug)]
pub struct Store {
    members: Vec<Member>,
    stats: Vec<Option<Stat>>,
    phrases: Vec<Phrase>,
    responses: Vec<Response>,
}

/// The views of a sequence of dialog turns.
pub open spec fn turn_views(turns: Seq<DialogTurn>) -> Seq<DialogTurnView> {
    turns.map_values(|t: DialogTurn| t@)
}

/// The views of a sequence of scoreboard rows.
pub open spec fn row_views(rows: Seq<MemberStat>) -> Seq<MemberStatView> {
    rows.map_values(|r: MemberStat| r@)
}

/// The score that a row of the score table stands for.
pub open spec fn score_view(stat: Option<Stat>) -> Option<int> {
    match stat {
        Some(s) => Some(s.ls as int),
        None => None,
    }
}

/// What a store with these rows holds.
pub open spec fn rows_view(
    members: Seq<Member>,
    stats: Seq<Option<Stat>>,
    phrases: Seq<Phrase>,
    responses: Seq<Response>,
) -> StoreView {
    StoreView {
        members: members.map_values(|m: Member| m@),
        scores: stats.map_values(|s: Option<Stat>| score_view(s)),
        phrases: phrases.map_values(|p: Phrase| p@),
        responses: responses.map_values(|r: Response| r@),
    }
}

impl View for Store {
    type V = StoreView;

    closed spec fn view(&self) -> StoreView {
        rows_view(self.members@, self.stats@, self.phrases@, self.responses@)
    }
}

/// Whether no two of the members have the same id.
fn members_are_distinct(members: &Vec<Member>) -> (distinct: bool)
    ensures
        distinct == forall|i: int, j: int|
            0 <= i < j < members@.len() ==> members@[i]@ != members@[j]@,
{
    let mut j: usize = 0;
    while j < members.len()
        invariant
            j <= members.len(),
            forall|a: int, b: int| 0 <= a < b < j ==> members@[a]@ != members@[b]@,
        decreases members.len() - j,
    {
        let mut i: usize = 0;
        while i < j
            invariant
                i <= j < members.len(),
                forall|a: int| 0 <= a < i ==> members@[a]@ != members@[j as int]@,
            decreases j - i,
        {
            if members[i].tg_user_id == members[j].tg_user_id {
                return false;
            }
            i += 1;
        }
        j += 1;
    }
    true
}

/// Whether every score that is there is at least 1.
fn scores_are_counted(stats: &Vec<Option<Stat>>) -> (counted: bool)
    ensures
        counted == forall|i: int|
            0 <= i < stats@.len() ==> ((#[trigger] stats@[i]) matches Some(s) ==> s.ls >= 1),
{
    let mut i: usize = 0;
    while i < stats.len()
        invariant
            i <= stats.len(),
            forall|a: int| 0 <= a < i ==> ((#[trigger] stats@[a]) matches Some(s) ==> s.ls >= 1),
        decreases stats.len() - i,
    {
        match stats[i] {
            Some(stat) => {
                if stat.ls < 1 {
                    return false;
                }
            },
            None => {},
        }
        i += 1;
    }
    true
}

/// Whether the phrases are numbered from 1 and each names one of `member_count` rows.
fn phrases_are_numbered(phrases: &Vec<Phrase>, member_count: usize) -> (numbered: bool)
    requires
        phrases.len() <= i32::MAX,
    ensures
        numbered == forall|i: int|
            0 <= i < phrases@.len() ==> (#[trigger] phrases@[i]).id == i + 1 && 1
                <= phrases@[i].author_id <= member_count,
{
    let mut i: usize = 0;
    while i < phrases.len()
        invariant
            i <= phrases.len() <= i32::MAX,
            forall|a: int|
                0 <= a < i ==> (#[trigger] phrases@[a]).id == a + 1 && 1 <= phrases@[a].author_id
                    <= member_count,
        decreases phrases.len() - i,
    {
        let phrase = &phrases[i];
        if phrase.id < 1 || phrase.id as usize != i + 1 || phrase.author_id < 1
            || phrase.author_id as usize > member_count {
            return false;
        }
        i += 1;
    }
    true
}

/// Whether the responses are numbered from 1 and each names one of `phrase_count` phrases.
fn responses_are_numbered(responses: &Vec<Response>, phrase_count: usize) -> (numbered: bool)
    requires
        responses.len() <= i32::MAX,
    ensures
        numbered == forall|i: int|
            0 <= i < responses@.len() ==> (#[trigger] responses@[i]).id == i + 1 && 1
                <= responses@[i].phrase_id <= phrase_count,
{
    let mut i: usize = 0;
    while i < responses.len()
        invariant
            i <= responses.len() <= i32::MAX,
            forall|a: int|
                0 <= a < i ==> (#[trigger] responses@[a]).id == a + 1 && 1
                    <= responses@[a].phrase_id <= phrase_count,
        decreases responses.len() - i,
    {
        let response = &responses[i];
        if response.id < 1 || response.id as usize != i + 1 || response.phrase_id < 1
            || response.phrase_id as usize > phrase_count {
            return false;
        }
        i += 1;
    }
    true
}

/// Whether one of the first `n` responses belongs to the phrase with this id.
pub open spec fn answered_among(responses: Seq<Response>, n: int, phrase_id: int) -> bool {
    exists|r: int| 0 <= r < n && (#[trigger] responses[r]).phrase_id == phrase_id
}

/// Whether each of `phrase_count` phrases has a response.
fn phrases_are_answered(phrase_count: usize, responses: &Vec<Response>) -> (answered: bool)
    requires
        forall|i: int|
            0 <= i < responses@.len() ==> 1 <= (#[trigger] responses@[i]).phrase_id <= phrase_count,
    ensures
        answered == forall|id: int|
            1 <= id <= phrase_count ==> #[trigger] answered_among(
                responses@,
                responses@.len() as int,
                id,
            ),
{
    let mut seen: Vec<bool> = Vec::new();
    let mut k: usize = 0;
    while k < phrase_count
        invariant
            k <= phrase_count,
            seen.len() == k,
            forall|a: int| 0 <= a < k ==> !(#[trigger] seen@[a]),
        decreases phrase_count - k,
    {
        seen.push(false);
        k += 1;
    }
    let mut n: usize = 0;
    while n < responses.len()
        invariant
            n <= responses.len(),
            seen.len() == phrase_count,
            forall|i: int|
                0 <= i < responses@.len() ==> 1 <= (#[trigger] responses@[i]).phrase_id
                    <= phrase_count,
            forall|a: int|
                0 <= a < phrase_count ==> ((#[trigger] seen@[a]) <==> answered_among(
                    responses@,
                    n as int,
                    a + 1,
                )),
        decreases responses.len() - n,
    {
        let ghost before = seen@;
        let p = (responses[n].phrase_id - 1) as usize;
        seen.set(p, true);
        proof {
            assert forall|a: int| 0 <= a < phrase_count implies ((#[trigger] seen@[a])
                <==> answered_among(responses@, n + 1, a + 1)) by {
                if a == p {
                    assert(responses@[n as int].phrase_id == a + 1);
                } else {
                    assert(seen@[a] == before[a]);
                    if answered_among(responses@, n + 1, a + 1) {
                        let r = choose|r: int|
                            0 <= r < n + 1 && (#[trigger] responses@[r]).phrase_id == a + 1;
                        assert(r < n);
                    }
                    if answered_among(responses@, n as int, a + 1) {
                        let r = choose|r: int|
                            0 <= r < n && (#[trigger] responses@[r]).phrase_id == a + 1;
                        assert(r < n + 1);
                    }
                }
            }
        }
        n += 1;
    }
    let mut a: usize = 0;
    while a < phrase_count
        invariant
            a <= phrase_count,
            seen.len() == phrase_count,
            forall|b: int|
                0 <= b < phrase_count ==> ((#[trigger] seen@[b]) <==> answered_among(
                    responses@,
                    responses@.len() as int,
                    b + 1,
                )),
            forall|id: int|
                1 <= id <= a ==> #[trigger] answered_among(
                    responses@,
                    responses@.len() as int,
                    id,
                ),
        decreases phrase_count - a,
    {
        if !seen[a] {
            proof {
                assert(!answered_among(responses@, responses@.len() as int, a + 1));
            }
            return false;
        }
        proof {
            assert forall|id: int| 1 <= id <= a + 1 implies #[trigger] answered_among(
                responses@,
                responses@.len() as int,
                id,
            ) by {
                if id == a + 1 {
                    assert(seen@[a as int]);
                }
            }
        }
        a += 1;
    }
    true
}

/// Whether a store with these rows would meet the invariant of the store.
fn rows_fit(
    members: &Vec<Member>,
    stats: &Vec<Option<Stat>>,
    phrases: &Vec<Phrase>,
    responses: &Vec<Response>,
) -> (fit: bool)
    ensures
        fit == rows_view(members@, stats@, phrases@, responses@).wf(),
{
    let ghost view = rows_view(members@, stats@, phrases@, responses@);
    if stats.len() != members.len() || members.len() > 0x7fff_ffff || phrases.len()
        > 0x7fff_ffff || responses.len() > 0x7fff_ffff {
        return false;
    }
    if !members_are_distinct(members) {
        proof {
            let (i, j) = choose|i: int, j: int|
                0 <= i < j < members@.len() && members@[i]@ == members@[j]@;
            assert(view.members[i] == view.members[j]);
        }
        return false;
    }
    if !scores_are_counted(stats) {
        proof {
            let i = choose|i: int|
                0 <= i < stats@.len() && !((#[trigger] stats@[i]) matches Some(s) ==> s.ls
                    >= 1);
            assert(view.scores[i] == score_view(stats@[i]));
        }
        return false;
    }
    if !phrases_are_numbered(phrases, members.len()) {
        proof {
            let i = choose|i: int|
                0 <= i < phrases@.len() && !((#[trigger] phrases@[i]).id == i + 1 && 1
                    <= phrases@[i].author_id <= members.len());
            assert(view.phrases[i] == phrases@[i]@);
        }
        return false;
    }
    if !responses_are_numbered(responses, phrases.len()) {
        proof {
            let i = choose|i: int|
                0 <= i < responses@.len() && !((#[trigger] responses@[i]).id == i + 1 && 1
                    <= responses@[i].phrase_id <= phrases.len());
            assert(view.responses[i] == responses@[i]@);
        }
        return false;
    }
    if !phrases_are_answered(phrases.len(), responses) {
        proof {
            let id = choose|id: int|
                1 <= id <= phrases.len() && !(#[trigger] answered_among(
                    responses@,
                    responses@.len() as int,
                    id,
                ));
            if view.answered(id) {
                let r = choose|r: int|
                    0 <= r < view.responses.len() && (#[trigger] view.responses[r]).phrase_id
                        == id;
                assert(responses@[r].phrase_id == id);
            }
        }
        return false;
    }
    proof {
        assert forall|i: int|
            0 <= i < view.scores.len() implies ((#[trigger] view.scores[i]) matches Some(n)
            ==> 1 <= n <= i32::MAX) by {
            assert(view.scores[i] == score_view(stats@[i]));
        }
        assert forall|i: int|
            0 <= i < view.phrases.len() implies (#[trigger] view.phrases[i]).id == i + 1 && 1
            <= view.phrases[i].author_id <= view.members.len() by {
            assert(view.phrases[i] == phrases@[i]@);
        }
        assert forall|i: int|
            0 <= i < view.responses.len() implies (#[trigger] view.responses[i]).id == i + 1
            && 1 <= view.responses[i].phrase_id <= view.phrases.len() by {
            assert(view.responses[i] == responses@[i]@);
        }
        assert forall|id: int| 1 <= id <= view.phrases.len() implies #[trigger] view.answered(
            id,
        ) by {
            assert(answered_among(responses@, responses@.len() as int, id));
            let r = choose|r: int|
                0 <= r < responses@.len() && (#[trigger] responses@[r]).phrase_id == id;
            assert(view.responses[r].phrase_id == id);
        }
    }
    true
}

impl Store {
    /// Whether the store meets its invariant.
    pub open spec fn wf(&self) -> bool {
        self@.wf()
    }

    /// A store that holds nothing.
    pub fn new() -> (store: Store)
        ensures
            store.wf(),
            store@ == StoreView::empty(),
    {
        let store = Store {
            members: Vec::new(),
            stats: Vec::new(),
            phrases: Vec::new(),
            responses: Vec::new(),
        };
        proof {
            assert(store@.members =~= Seq::empty());
            assert(store@.scores =~= Seq::empty());
            assert(store@.phrases =~= Seq::empty());
            assert(store@.responses =~= Seq::empty());
        }
        store
    }

    /// The store that holds these rows, where they meet the invariant of the store:
    /// the scores stand in the order of the members, one for each; `None` where they do not.
    pub fn from_rows(
        members: Vec<Member>,
        stats: Vec<Option<Stat>>,
        phrases: Vec<Phrase>,
        responses: Vec<Response>,
    ) -> (store: Option<Store>)
        ensures
            match store {
                Some(s) => s.wf() && s@ == rows_view(members@, stats@, phrases@, responses@),
                None => !rows_view(members@, stats@, phrases@, responses@).wf(),
            },
    {
        if rows_fit(&members, &stats, &phrases, &responses) {
            Some(Store { members, stats, phrases, responses })
        } else {
            None
        }
    }

    /// Whether the store meets its invariant, found out at run time.
    pub fn holds_invariant(&self) -> (holds: bool)
        ensures
            holds == self.wf(),
    {
        rows_fit(&self.members, &self.stats, &self.phrases, &self.responses)
    }

    /// The row of the member with this id.
    fn find_member(&self, id: &String) -> (row: Option<usize>)
        ensures
            match row {
                Some(i) => self@.member_row(id@) == Some(i as int) && i < self.members.len(),
                None => self@.member_row(id@) is None,
            },
    {
        let mut i: usize = 0;
        while i < self.members.len()
            invariant
                i <= self.members.len(),
                forall|j: int| 0 <= j < i ==> (#[trigger] self@.members[j]) != id@,
            decreases self.members.len() - i,
        {
            if self.members[i].tg_user_id == *id {
                proof {
                    assert(self@.members[i as int] == id@);
                    lemma_first_of_is(self@.members, id@, i as int);
                }
                return Some(i);
            }
            i += 1;
        }
        proof {
            lemma_first_of_is(self@.members, id@, self.members.len() as int,
            );
        }
        None
    }
    /// The row of the first phrase stored under exactly `content`.
    fn find_phrase(&self, content: &String) -> (row: Option<usize>)
        ensures
            match row {
                Some(i) => self@.phrase_row(content@) == Some(i as int) && i < self.phrases.len(),
                None => self@.phrase_row(content@) is None,
            },
    {
        let mut i: usize = 0;
        while i < self.phrases.len()
            invariant
                i <= self.phrases.len(),
                forall|j: int| 0 <= j < i ==> (#[trigger] self@.phrases[j]).content != content@,
            decreases self.phrases.len() - i,
        {
            if self.phrases[i].content == *content {
                proof {
                    assert(self@.phrases[i as int].content == content@);
                    lemma_first_of_is(self@.contents(), content@, i as int,
                    );
                }
                return Some(i);
            }
            i += 1;
        }
        proof {
            lemma_first_of_is(self@.contents(), content@, self.phrases.len() as int,
            );
        }
        None
    }

    /// Awards one point to `target`. A first award makes the member, where there is none,
    /// and sets the score to 1; a later one adds 1. Returns the new score. On an error
    /// nothing is written.
    pub fn award(&mut self, target: &str) -> (result: Result<i32, StoreError>)
        requires
            old(self).wf(),
        ensures
            final(self).wf(),
            match result {
                Ok(score) => {
                    &&& old(self)@.award_error(target@) is None
                    &&& final(self)@ == old(self)@.awarded(target@)
                    &&& score == final(self)@.score_of(target@)
                    &&& score == old(self)@.score_of(target@) + 1
                },
                Err(e) => {
                    &&& old(self)@.award_error(target@) == Some(e)
                    &&& final(self)@ == old(self)@
                },
            },
    {
        let id = target.to_owned();
        let ghost before = self@;
        match self.find_member(&id) {
            Some(i) => {
                let score = match self.stats[i] {
                    Some(stat) => stat.ls,
                    None => 0,
                };
                proof {
                    assert(before.scores[i as int] == score_view(self.stats@[i as int]));
                }
                if score == i32::MAX {
                    return Err(StoreError::ScoreLimit);
                }
                self.stats.set(i, Some(Stat { ls: score + 1 }));
                proof {
                    assert(self@.scores =~= before.scores.update(i as int, Some(score + 1)));
                    assert(self@.members == before.members);
                    assert(self@.phrases == before.phrases);
                    assert(self@.responses == before.responses);
                    assert(self@ == before.awarded(target@));
                    assert forall|id: int|
                        1 <= id <= self@.phrases.len() implies #[trigger] self@.answered(id) by {
                        assert(before.answered(id));
                    }
                }
                Ok(score + 1)
            },
            None => {
                if self.members.len() >= 0x7fff_ffff {
                    return Err(StoreError::RowLimit);
                }
                self.members.push(Member { tg_user_id: id });
                self.stats.push(Some(Stat { ls: 1 }));
                proof {
                    lemma_first_of(before.members, target@);
                    assert(self@.members =~= before.members.push(target@));
                    assert(self@.scores =~= before.scores.push(Some(1int)));
                    assert(self@.phrases == before.phrases);
                    assert(self@.responses == before.responses);
                    assert(self@ == before.awarded(target@));
                    lemma_first_of_is(self@.members, target@, before.members.len() as int,
                    );
                    assert forall|id: int|
                        1 <= id <= self@.phrases.len() implies #[trigger] self@.answered(id) by {
                        assert(before.answered(id));
                    }
                }
                Ok(1)
            },
        }
    }

    /// Every member with their score, in the order of the store.
    pub fn scoreboard(&self) -> (rows: Vec<MemberStat>)
        requires
            self.wf(),
        ensures
            row_views(rows@) == self@.scoreboard(),
    {
        let mut rows: Vec<MemberStat> = Vec::new();
        let mut i: usize = 0;
        while i < self.members.len()
            invariant
                self.wf(),
                i <= self.members.len(),
                rows.len() == i,
                forall|j: int| 0 <= j < i ==> (#[trigger] rows@[j])@ == self@.scoreboard()[j],
            decreases self.members.len() - i,
        {
            let ls = match self.stats[i] {
                Some(stat) => stat.ls,
                None => 0,
            };
            proof {
                assert(self@.scores[i as int] == score_view(self.stats@[i as int]));
                assert(self@.members[i as int] == self.members@[i as int].tg_user_id@);
            }
            rows.push(MemberStat { tg_user_id: self.members[i].tg_user_id.clone(), ls });
            i += 1;
        }
        proof {
            assert(row_views(rows@) =~= self@.scoreboard());
        }
        rows
    }

    /// Stores `response` as a reply to `phrase`, whose normal form the caller hands in as
    /// `normal`. Where a phrase is stored under `phrase` as written, the response joins it;
    /// where none is, `author` becomes a member and a new phrase is stored under `normal`.
    /// On an error nothing is written.
    pub fn learn_as(
        &mut self,
        author: &str,
        phrase: &str,
        normal: &str,
        response: &str,
    ) -> (result: Result<Learnt, StoreError>)
        requires
            old(self).wf(),
        ensures
            final(self).wf(),
            match result {
                Ok(learnt) => {
                    &&& old(self)@.learn_error(author@, phrase@) is None
                    &&& final(self)@ == old(self)@.learnt(author@, phrase@, normal@, response@)
                    &&& learnt.created == (old(self)@.phrase_row(phrase@) is None)
                    &&& learnt.phrase_id == final(self)@.responses.last().phrase_id
                },
                Err(e) => {
                    &&& old(self)@.learn_error(author@, phrase@) == Some(e)
                    &&& final(self)@ == old(self)@
                },
            },
    {
        let ghost before = self@;
        if self.responses.len() >= 0x7fff_ffff {
            return Err(StoreError::RowLimit);
        }
        let response_id = (self.responses.len() + 1) as i32;
        let raw = phrase.to_owned();
        match self.find_phrase(&raw) {
            Some(p) => {
                let phrase_id = self.phrases[p].id;
                proof {
                    assert(before.phrases[p as int] == self.phrases@[p as int]@);
                }
                self.responses.push(
                    Response { id: response_id, phrase_id, content: response.to_owned() },
                );
                proof {
                    assert(self@.responses =~= before.responses.push(
                        ResponseView {
                            id: before.responses.len() as int + 1,
                            phrase_id: p as int + 1,
                            content: response@,
                        },
                    ));
                    assert(self@.members == before.members);
                    assert(self@.scores == before.scores);
                    assert(self@.phrases == before.phrases);
                    assert(self@ == before.learnt(author@, phrase@, normal@, response@));
                    assert forall|id: int|
                        1 <= id <= self@.phrases.len() implies #[trigger] self@.answered(id) by {
                        assert(before.answered(id));
                        let r = choose|r: int|
                            0 <= r < before.responses.len() && (
                            #[trigger] before.responses[r]).phrase_id == id;
                        assert(self@.responses[r].phrase_id == id);
                    }
                }
                Ok(Learnt { phrase_id, created: false })
            },
            None => {
                if self.phrases.len() >= 0x7fff_ffff {
                    return Err(StoreError::RowLimit);
                }
                let writer = author.to_owned();
                let row = match self.find_member(&writer) {
                    Some(i) => i,
                    None => {
                        if self.members.len() >= 0x7fff_ffff {
                            return Err(StoreError::RowLimit);
                        }
                        self.members.push(Member { tg_user_id: writer });
                        self.stats.push(None);
                        self.members.len() - 1
                    },
                };
                let ghost known = before.with_member(author@);
                proof {
                    lemma_first_of(before.members, author@);
                    if before.member_row(author@) is None {
                        assert(self@.members =~= before.members.push(author@));
                        assert(self@.scores =~= before.scores.push(None));
                        lemma_first_of_is(self@.members, author@, before.members.len() as int,
                        );
                    } else {
                        assert(self@.members == before.members);
                        assert(self@.scores == before.scores);
                    }
                    assert(self@.members == known.members);
                    assert(self@.scores == known.scores);
                    assert(known.member_row(author@) == Some(row as int));
                }
                let phrase_id = (self.phrases.len() + 1) as i32;
                let author_id = (row + 1) as i32;
                self.phrases.push(Phrase { id: phrase_id, author_id, content: normal.to_owned() });
                self.responses.push(
                    Response { id: response_id, phrase_id, content: response.to_owned() },
                );
                proof {
                    assert(self@.phrases =~= before.phrases.push(
                        PhraseView {
                            id: before.phrases.len() as int + 1,
                            author_id: row as int + 1,
                            content: normal@,
                        },
                    ));
                    assert(self@.responses =~= before.responses.push(
                        ResponseView {
                            id: before.responses.len() as int + 1,
                            phrase_id: before.phrases.len() as int + 1,
                            content: response@,
                        },
                    ));
                    assert(self@ == before.learnt(author@, phrase@, normal@, response@));
                    assert forall|id: int|
                        1 <= id <= self@.phrases.len() implies #[trigger] self@.answered(id) by {
                        if id <= before.phrases.len() {
                            assert(before.answered(id));
                            let r = choose|r: int|
                                0 <= r < before.responses.len() && (
                                #[trigger] before.responses[r]).phrase_id == id;
                            assert(self@.responses[r].phrase_id == id);
                        } else {
                            assert(self@.responses[before.responses.len() as int].phrase_id == id);
                        }
                    }
                }
                Ok(Learnt { phrase_id, created: true })
            },
        }
    }

    /// Stores `response` as a reply to `phrase`: `learn_as` with the normal form of the
    /// phrase.
    pub fn learn(&mut self, author: &str, phrase: &str, response: &str) -> (result: Result<
        Learnt,
        StoreError,
    >)
        requires
            old(self).wf(),
        ensures
            final(self).wf(),
            match result {
                Ok(learnt) => {
                    &&& old(self)@.learn_error(author@, phrase@) is None
                    &&& final(self)@ == old(self)@.learnt(
                        author@,
                        phrase@,
                        normal_form(phrase@),
                        response@,
                    )
                    &&& learnt.created == (old(self)@.phrase_row(phrase@) is None)
                    &&& learnt.phrase_id == final(self)@.responses.last().phrase_id
                },
                Err(e) => {
                    &&& old(self)@.learn_error(author@, phrase@) == Some(e)
                    &&& final(self)@ == old(self)@
                },
            },
    {
        let normal = normalize(phrase);
        self.learn_as(author, phrase, normal.as_str(), response)
    }

    /// The dialog turns for `content`: one for each response whose phrase is stored under
    /// exactly `content`, in the order in which the responses were learned.
    pub fn dialog_turns(&self, content: &str) -> (turns: Vec<DialogTurn>)
        requires
            self.wf(),
        ensures
            turn_views(turns@) == self@.turns(content@),
    {
        let wanted = content.to_owned();
        let mut turns: Vec<DialogTurn> = Vec::new();
        let mut n: usize = 0;
        while n < self.responses.len()
            invariant
                self.wf(),
                wanted@ == content@,
                n <= self.responses.len(),
                turn_views(turns@) == self@.turns_among(content@, n as nat),
            decreases self.responses.len() - n,
        {
            let ghost shown = turn_views(turns@);
            proof {
                assert(self@.responses[n as int] == self.responses@[n as int]@);
            }
            let p = (self.responses[n].phrase_id - 1) as usize;
            proof {
                assert(self@.phrases[p as int] == self.phrases@[p as int]@);
            }
            if self.phrases[p].content == wanted {
                turns.push(
                    DialogTurn {
                        phrase: wanted.clone(),
                        response: self.responses[n].content.clone(),
                    },
                );
                proof {
                    assert(turn_views(turns@) =~= shown.push(
                        DialogTurnView {
                            phrase: content@,
                            response: self@.responses[n as int].content,
                        },
                    ));
                }
            }
            n += 1;
        }
        turns
    }

    /// What the store holds now, as far as later writes can be told from it.
    pub fn mark(&self) -> (mark: Mark)
        ensures
            mark@ == self@.mark(),
    {
        Mark {
            members: self.members.len(),
            stats: self.stats.clone(),
            phrases: self.phrases.len(),
            responses: self.responses.len(),
        }
    }

    /// The rows that were written since the mark was taken, for a database to follow.
    pub fn writes_since(&self, mark: &Mark) -> (writes: Vec<Write>)
        requires
            self.wf(),
        ensures
            write_views(writes@) == self@.writes_since(mark@),
    {
        let mut writes: Vec<Write> = Vec::new();
        let ghost members = self@.member_writes(mark@.members, self@.members.len() as int);
        let ghost scores = self@.score_writes(mark@.scores, self@.scores.len() as int);
        let ghost phrases = self@.phrase_writes(mark@.phrases, self@.phrases.len() as int);

        let mut i: usize = if mark.members < self.members.len() {
            mark.members
        } else {
            self.members.len()
        };
        proof {
            assert(self@.member_writes(mark@.members, i as int) == Seq::<WriteView>::empty());
            assert(write_views(writes@) =~= Seq::<WriteView>::empty());
        }
        while i < self.members.len()
            invariant
                self.wf(),
                i <= self.members.len(),
                mark.members <= i || i == self.members.len(),
                write_views(writes@) == self@.member_writes(mark@.members, i as int),
            decreases self.members.len() - i,
        {
            let ghost shown = write_views(writes@);
            proof {
                assert(self@.members[i as int] == self.members@[i as int]@);
            }
            let tg_user_id = self.members[i].tg_user_id.clone();
            writes.push(Write::Member { id: (i + 1) as i32, tg_user_id });
            proof {
                assert(write_views(writes@) =~= shown.push(
                    WriteView::Member { id: i + 1, tg_user_id: self@.members[i as int] },
                ));
            }
            i += 1;
        }

        let mut n: usize = 0;
        proof {
            assert(write_views(writes@) =~= members + self@.score_writes(mark@.scores, 0));
        }
        while n < self.stats.len()
            invariant
                self.wf(),
                n <= self.stats.len(),
                members == self@.member_writes(mark@.members, self@.members.len() as int),
                write_views(writes@) == members + self@.score_writes(mark@.scores, n as int),
            decreases self.stats.len() - n,
        {
            let ghost shown = write_views(writes@);
            proof {
                assert(self@.scores[n as int] == score_view(self.stats@[n as int]));
                if n < mark.stats.len() {
                    assert(mark@.scores[n as int] == score_view(mark.stats@[n as int]));
                }
            }
            match self.stats[n] {
                Some(stat) => {
                    let kept = n < mark.stats.len() && match mark.stats[n] {
                        Some(earlier) => earlier.ls == stat.ls,
                        None => false,
                    };
                    if !kept {
                        writes.push(Write::Stat { member_id: (n + 1) as i32, ls: stat.ls });
                        proof {
                            assert(write_views(writes@) =~= shown.push(
                                WriteView::Stat { member_id: n + 1, ls: stat.ls as int },
                            ));
                        }
                    }
                },
                None => {},
            }
            n += 1;
        }

        let mut p: usize = if mark.phrases < self.phrases.len() {
            mark.phrases
        } else {
            self.phrases.len()
        };
        proof {
            assert(self@.phrase_writes(mark@.phrases, p as int) == Seq::<WriteView>::empty());
            assert(write_views(writes@) =~= members + scores + self@.phrase_writes(
                mark@.phrases,
                p as int,
            ));
        }
        while p < self.phrases.len()
            invariant
                self.wf(),
                p <= self.phrases.len(),
                mark.phrases <= p || p == self.phrases.len(),
                members == self@.member_writes(mark@.members, self@.members.len() as int),
                scores == self@.score_writes(mark@.scores, self@.scores.len() as int),
                write_views(writes@) == members + scores + self@.phrase_writes(
                    mark@.phrases,
                    p as int,
                ),
            decreases self.phrases.len() - p,
        {
            let ghost shown = write_views(writes@);
            proof {
                assert(self@.phrases[p as int] == self.phrases@[p as int]@);
            }
            let phrase = &self.phrases[p];
            writes.push(
                Write::Phrase(
                    Phrase {
                        id: phrase.id,
                        author_id: phrase.author_id,
                        content: phrase.content.clone(),
                    },
                ),
            );
            proof {
                assert(write_views(writes@) =~= shown.push(
                    WriteView::Phrase(self@.phrases[p as int]),
                ));
            }
            p += 1;
        }

        let mut r: usize = if mark.responses < self.responses.len() {
            mark.responses
        } else {
            self.responses.len()
        };
        proof {
            assert(self@.response_writes(mark@.responses, r as int) == Seq::<WriteView>::empty());
            assert(write_views(writes@) =~= members + scores + phrases + self@.response_writes(
                mark@.responses,
                r as int,
            ));
        }
        while r < self.responses.len()
            invariant
                self.wf(),
                r <= self.responses.len(),
                mark.responses <= r || r == self.responses.len(),
                members == self@.member_writes(mark@.members, self@.members.len() as int),
                scores == self@.score_writes(mark@.scores, self@.scores.len() as int),
                phrases == self@.phrase_writes(mark@.phrases, self@.phrases.len() as int),
                write_views(writes@) == members + scores + phrases + self@.response_writes(
                    mark@.responses,
                    r as int,
                ),
            decreases self.responses.len() - r,
        {
            let ghost shown = write_views(writes@);
            proof {
                assert(self@.responses[r as int] == self.responses@[r as int]@);
            }
            let response = &self.responses[r];
            writes.push(
                Write::Response(
                    Response {
                        id: response.id,
                        phrase_id: response.phrase_id,
                        content: response.content.clone(),
                    },
                ),
            );
            proof {
                assert(write_views(writes@) =~= shown.push(
                    WriteView::Response(self@.responses[r as int]),
                ));
            }
            r += 1;
        }
        writes
    }

    /// The members, in the order in which they came.
    pub fn members(&self) -> (members: &Vec<Member>)
        ensures
            members@.map_values(|m: Member| m@) == self@.members,
    {
        &self.members
    }

    /// The score of each member, in the order of the members.
    pub fn stats(&self) -> (stats: &Vec<Option<Stat>>)
        ensures
            stats@.map_values(|s: Option<Stat>| score_view(s)) == self@.scores,
    {
        &self.stats
    }

    /// The phrases, in the order in which they were learned.
    pub fn phrases(&self) -> (phrases: &Vec<Phrase>)
        ensures
            phrases@.map_values(|p: Phrase| p@) == self@.phrases,
    {
        &self.phrases
    }

    /// The responses, in the order in which they were learned.
    pub fn responses(&self) -> (responses: &Vec<Response>)
        ensures
            responses@.map_values(|r: Response| r@) == self@.responses,
    {
        &self.responses
    }
}

/// What `member_row` finds is the one row of that member; it finds none only where the
/// member has no row.
pub proof fn lemma_member_row(store: StoreView, id: Seq<char>)
    ensures
        match store.member_row(id) {
            Some(i) => 0 <= i < store.members.len() && store.members[i] == id,
            None => forall|j: int|
                0 <= j < store.members.len() ==> (#[trigger] store.members[j]) != id,
        },
{
    lemma_first_of(store.members, id);
}

/// What `phrase_row` finds is the first phrase stored under that content; it finds none
/// only where no phrase is.
pub proof fn lemma_phrase_row(store: StoreView, content: Seq<char>)
    ensures
        match store.phrase_row(content) {
            Some(i) => {
                &&& 0 <= i < store.phrases.len()
                &&& store.phrases[i].content == content
                &&& forall|j: int| 0 <= j < i ==> (#[trigger] store.phrases[j]).content != content
            },
            None => forall|j: int|
                0 <= j < store.phrases.len() ==> (#[trigger] store.phrases[j]).content != content,
        },
{
    lemma_first_of(store.contents(), content);
    assert forall|j: int| 0 <= j < first_of(store.contents(), content) implies (
    #[trigger] store.phrases[j]).content != content by {
        assert(store.contents()[j] == store.phrases[j].content);
    }
}

/// The first row that holds the member is what `member_row` finds.
pub proof fn lemma_member_row_is(store: StoreView, id: Seq<char>, i: int)
    requires
        0 <= i < store.members.len(),
        store.members[i] == id,
        forall|j: int| 0 <= j < i ==> (#[trigger] store.members[j]) != id,
    ensures
        store.member_row(id) == Some(i),
{
    lemma_first_of_is(store.members, id, i);
}

/// The first phrase stored under `content` is what `phrase_row` finds.
pub proof fn lemma_phrase_row_is(store: StoreView, content: Seq<char>, i: int)
    requires
        0 <= i <= store.phrases.len(),
        i < store.phrases.len() ==> store.phrases[i].content == content,
        forall|j: int| 0 <= j < i ==> (#[trigger] store.phrases[j]).content != content,
    ensures
        store.phrase_row(content) == (if i < store.phrases.len() {
            Some(i)
        } else {
            None
        }),
{
    assert forall|j: int| 0 <= j < i implies (#[trigger] store.contents()[j]) != content by {
        assert(store.contents()[j] == store.phrases[j].content);
    }
    lemma_first_of_is(store.contents(), content, i);
}

/// A response that has just been learned is among the turns of the content under which
/// its phrase is stored: under the phrase as written where such a phrase was there, under
/// the normal form where it was not.
pub proof fn lemma_learnt_is_a_turn(
    store: StoreView,
    author: Seq<char>,
    phrase: Seq<char>,
    normal: Seq<char>,
    response: Seq<char>,
)
    requires
        store.wf(),
    ensures
        ({
            let after = store.learnt(author, phrase, normal, response);
            let content = if store.phrase_row(phrase) is Some {
                phrase
            } else {
                normal
            };
            &&& after.turns(content).len() > 0
            &&& after.turns(content).last() == DialogTurnView { phrase: content, response }
            &&& after.turns(content).drop_last() == after.turns_among(
                content,
                store.responses.len(),
            )
        }),
{
    let after = store.learnt(author, phrase, normal, response);
    lemma_phrase_row(store, phrase);
    if store.phrase_row(phrase) is Some {
        let p = store.phrase_row(phrase)->0;
        assert(after.phrases[p].content == phrase);
        assert(after.turns(phrase) == after.turns_among(phrase, store.responses.len()).push(
            DialogTurnView { phrase, response },
        ));
    } else {
        assert(after.phrases[store.phrases.len() as int].content == normal);
        assert(after.turns(normal) == after.turns_among(normal, store.responses.len()).push(
            DialogTurnView { phrase: normal, response },
        ));
    }
}

/// Learning leaves the turns of the earlier responses as they were.
pub proof fn lemma_learnt_keeps_turns(
    store: StoreView,
    author: Seq<char>,
    phrase: Seq<char>,
    normal: Seq<char>,
    response: Seq<char>,
    content: Seq<char>,
    n: nat,
)
    requires
        store.wf(),
        n <= store.responses.len(),
    ensures
        store.learnt(author, phrase, normal, response).turns_among(content, n)
            == store.turns_among(content, n),
    decreases n,
{
    if n > 0 {
        let after = store.learnt(author, phrase, normal, response);
        lemma_learnt_keeps_turns(store, author, phrase, normal, response, content, (n - 1) as nat);
        assert(after.responses[n - 1] == store.responses[n - 1]);
        let p = store.responses[n - 1].phrase_id - 1;
        assert(after.phrases[p] == store.phrases[p]);
    }
}

/// A text taught twice as written gets a second response, not a second phrase, where a
/// phrase is stored under the text as written or the text is its own normal form. Both
/// responses are then turns of the content under which that phrase is stored.
pub proof fn lemma_learn_twice(
    store: StoreView,
    author: Seq<char>,
    phrase: Seq<char>,
    first: Seq<char>,
    second: Seq<char>,
)
    requires
        store.wf(),
        store.learn_error(author, phrase) is None,
        store.phrase_row(phrase) is Some || normal_form(phrase) == phrase,
    ensures
        ({
            let once = store.learnt(author, phrase, normal_form(phrase), first);
            let twice = once.learnt(author, phrase, normal_form(phrase), second);
            &&& once.phrase_row(phrase) is Some
            &&& twice.phrases == once.phrases
            &&& twice.members == once.members
            &&& twice.scores == once.scores
            &&& twice.responses.len() == once.responses.len() + 1
            &&& twice.responses.last().phrase_id == once.responses.last().phrase_id
            &&& twice.turns(phrase).len() >= 2
            &&& twice.turns(phrase).last().response == second
            &&& twice.turns(phrase).drop_last().last().response == first
        }),
{
    let normal = normal_form(phrase);
    let once = store.learnt(author, phrase, normal, first);
    lemma_phrase_row(store, phrase);
    lemma_learnt_wf(store, author, phrase, normal, first);
    if store.phrase_row(phrase) is Some {
        lemma_phrase_row_is(once, phrase, store.phrase_row(phrase)->0);
    } else {
        assert forall|j: int| 0 <= j < store.phrases.len() implies (
        #[trigger] once.phrases[j]).content != phrase by {
            assert(once.phrases[j] == store.phrases[j]);
        }
        lemma_phrase_row_is(once, phrase, store.phrases.len() as int);
    }
    lemma_learnt_is_a_turn(store, author, phrase, normal, first);
    lemma_learnt_is_a_turn(once, author, phrase, normal, second);
    lemma_learnt_keeps_turns(once, author, phrase, normal, second, phrase, once.responses.len());
}

/// Learning keeps the stored contents distinct, where a phrase is stored under the text
/// as written or the text is its own normal form.
pub proof fn lemma_learnt_keeps_contents_distinct(
    store: StoreView,
    author: Seq<char>,
    phrase: Seq<char>,
    normal: Seq<char>,
    response: Seq<char>,
)
    requires
        store.contents_distinct(),
        store.phrase_row(phrase) is Some || normal == phrase,
    ensures
        store.learnt(author, phrase, normal, response).contents_distinct(),
{
    let after = store.learnt(author, phrase, normal, response);
    lemma_phrase_row(store, phrase);
    assert forall|i: int, j: int| 0 <= i < j < after.phrases.len() implies (
    #[trigger] after.phrases[i]).content != (#[trigger] after.phrases[j]).content by {
        if j < store.phrases.len() {
            assert(after.phrases[i] == store.phrases[i]);
            assert(after.phrases[j] == store.phrases[j]);
        } else {
            assert(after.phrases[i] == store.phrases[i]);
        }
    }
}

/// Learning keeps the invariant of the store, where the store does not refuse it.
pub proof fn lemma_learnt_wf(
    store: StoreView,
    author: Seq<char>,
    phrase: Seq<char>,
    normal: Seq<char>,
    response: Seq<char>,
)
    requires
        store.wf(),
        store.learn_error(author, phrase) is None,
    ensures
        store.learnt(author, phrase, normal, response).wf(),
{
    let after = store.learnt(author, phrase, normal, response);
    let known = store.with_member(author);
    lemma_phrase_row(store, phrase);
    lemma_member_row(store, author);
    if store.phrase_row(phrase) is None {
        if store.member_row(author) is None {
            assert forall|j: int| 0 <= j < store.members.len() implies (#[trigger] known.members[j])
                != author by {
                assert(known.members[j] == store.members[j]);
            }
            lemma_member_row_is(known, author, store.members.len() as int);
        }
        lemma_member_row(known, author);
    }
    assert forall|id: int| 1 <= id <= after.phrases.len() implies #[trigger] after.answered(
        id,
    ) by {
        if id <= store.phrases.len() {
            assert(store.answered(id));
            let r = choose|r: int|
                0 <= r < store.responses.len() && (#[trigger] store.responses[r]).phrase_id == id;
            assert(after.responses[r].phrase_id == id);
        } else {
            assert(after.responses[store.responses.len() as int].phrase_id == id);
        }
    }
}

/// An award takes nothing away: every row stays, the score of the awarded member grows
/// by exactly 1, and every other score stays as it is.
pub proof fn lemma_awarded_keeps(store: StoreView, target: Seq<char>)
    requires
        store.wf(),
    ensures
        store.awarded(target).keeps(store),
        store.awarded(target).score_of(target) == store.score_of(target) + 1,
        forall|other: Seq<char>|
            other != target ==> #[trigger] store.awarded(target).score_of(other) == store.score_of(
                other,
            ),
{
    let after = store.awarded(target);
    lemma_member_row(store, target);
    if store.member_row(target) is None {
        assert forall|j: int| 0 <= j < store.members.len() implies (#[trigger] after.members[j])
            != target by {
            assert(after.members[j] == store.members[j]);
        }
        lemma_member_row_is(after, target, store.members.len() as int);
    }
    assert forall|other: Seq<char>| other != target implies #[trigger] after.score_of(other)
        == store.score_of(other) by {
        lemma_member_row(store, other);
        lemma_member_row(after, other);
        match store.member_row(other) {
            Some(i) => {
                assert forall|j: int| 0 <= j < i implies (#[trigger] after.members[j]) != other by {
                    assert(after.members[j] == store.members[j]);
                    assert(store.members[j] != store.members[i]);
                }
                assert(after.members[i] == store.members[i]);
                lemma_member_row_is(after, other, i);
            },
            None => {
                if after.member_row(other) is Some {
                    let k = after.member_row(other)->0;
                    if k < store.members.len() {
                        assert(after.members[k] == store.members[k]);
                    }
                }
            },
        }
    }
}

/// Learning takes nothing away: every row stays, and every score stays as it is.
pub proof fn lemma_learnt_keeps(
    store: StoreView,
    author: Seq<char>,
    phrase: Seq<char>,
    normal: Seq<char>,
    response: Seq<char>,
)
    requires
        store.wf(),
    ensures
        store.learnt(author, phrase, normal, response).keeps(store),
        forall|id: Seq<char>| #[trigger]
            store.learnt(author, phrase, normal, response).score_of(id) == store.score_of(id),
{
    let after = store.learnt(author, phrase, normal, response);
    assert forall|id: Seq<char>| #[trigger] after.score_of(id) == store.score_of(id) by {
        lemma_member_row(store, id);
        lemma_member_row(after, id);
        match store.member_row(id) {
            Some(i) => {
                assert forall|j: int| 0 <= j < i implies (#[trigger] after.members[j]) != id by {
                    assert(after.members[j] == store.members[j]);
                    assert(store.members[j] != store.members[i]);
                }
                assert(after.members[i] == store.members[i]);
                lemma_member_row_is(after, id, i);
            },
            None => {
                if after.member_row(id) is Some {
                    let k = after.member_row(id)->0;
                    if k < store.members.len() {
                        assert(after.members[k] == store.members[k]);
                    }
                }
            },
        }
    }
}

/// No score of a store differs from what the store holds.
pub proof fn lemma_no_score_writes(store: StoreView, n: int)
    requires
        n <= store.scores.len(),
    ensures
        store.score_writes(store.scores, n) == Seq::<WriteView>::empty(),
    decreases n,
{
    if n > 0 {
        lemma_no_score_writes(store, n - 1);
    }
}

/// Nothing was written to a store since its own mark was taken.
pub proof fn lemma_no_writes_since_own_mark(store: StoreView)
    ensures
        store.writes_since(store.mark()) == Seq::<WriteView>::empty(),
{
    lemma_no_score_writes(store, store.scores.len() as int);
}

/// A first award gives the score 1, a second one the score 2.
pub proof fn lemma_award_counts(store: StoreView, target: Seq<char>)
    requires
        store.wf(),
        store.score_of(target) == 0,
        store.award_error(target) is None,
    ensures
        store.awarded(target).wf(),
        store.awarded(target).score_of(target) == 1,
        store.awarded(target).awarded(target).score_of(target) == 2,
        store.awarded(target).awarded(target).members == store.awarded(target).members,
{
    let once = store.awarded(target);
    lemma_member_row(store, target);
    if store.member_row(target) is None {
        assert forall|j: int| 0 <= j < store.members.len() implies (#[trigger] once.members[j])
            != target by {
            assert(once.members[j] == store.members[j]);
        }
        lemma_member_row_is(once, target, store.members.len() as int);
    }
    assert(once.responses == store.responses);
    assert forall|id: int| 1 <= id <= once.phrases.len() implies #[trigger] once.answered(id) by {
        assert(store.answered(id));
    }
}

} // verus!
