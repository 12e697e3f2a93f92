use vstd::prelude::*;

verus! {

/// The character that stands for a digit.
pub open spec fn digit(d: int) -> char {
    if d == 0 {
        '0'
    } else if d == 1 {
        '1'
    } else if d == 2 {
        '2'
    } else if d == 3 {
        '3'
    } else if d == 4 {
        '4'
    } else if d == 5 {
        '5'
    } else if d == 6 {
        '6'
    } else if d == 7 {
        '7'
    } else if d == 8 {
        '8'
    } else {
        '9'
    }
}

/// A natural number in decimal, without leading zeros.
pub open spec fn decimal_nat(n: nat) -> Seq<char>
    decreases n,
{
    if n < 10 {
        seq![digit(n as int)]
    } else {
        decimal_nat(n / 10).push(digit((n % 10) as int))
    }
}

/// An integer in decimal, with a minus sign where it is negative.
pub open spec fn decimal(n: int) -> Seq<char> {
    if n < 0 {
        seq!['-'] + decimal_nat((-n) as nat)
    } else {
        decimal_nat(n as nat)
    }
}

/// A row of the scoreboard that is ready to be shown: a display name and a score.
#[derive(Clone, Debug, PartialEq, Eq)]
pub struct ScoreLine {
    pub name: String,
    pub ls: i32,
}

/// A scoreboard line as a mathematical value.
pub struct ScoreLineView {
    pub name: Seq<char>,
    pub ls: int,
}

impl View for ScoreLine {
    type V = ScoreLineView;

    open spec fn view(&self) -> ScoreLineView {
        ScoreLineView { name: self.name@, ls: self.ls as int }
    }
}

/// The views of a sequence of scoreboard lines.
pub open spec fn line_views(lines: Seq<ScoreLine>) -> Seq<ScoreLineView> {
    lines.map_values(|l: ScoreLine| l@)
}

/// One line of the scoreboard: the name underlined, a dash, the score in bold.
pub open spec fn score_line(line: ScoreLineView) -> Seq<char> {
    "__"@ + line.name + "__ \u{2014} *"@ + decimal(line.ls) + "* Ls"@
}

/// The scoreboard as text: the lines in their order, with a line break between each two.
pub open spec fn scoreboard_text(lines: Seq<ScoreLineView>) -> Seq<char>
    decreases lines.len(),
{
    if lines.len() == 0 {
        Seq::empty()
    } else if lines.len() == 1 {
        score_line(lines[0])
    } else {
        scoreboard_text(lines.drop_last()) + "\n"@ + score_line(lines.last())
    }
}

/// The text of one digit.
fn digit_text(d: u32) -> (text: &'static str)
    requires
        d < 10,
    ensures
        text@ == seq![digit(d as int)],
{
    proof {
        reveal_strlit("0");
        reveal_strlit("1");
        reveal_strlit("2");
        reveal_strlit("3");
        reveal_strlit("4");
        reveal_strlit("5");
        reveal_strlit("6");
        reveal_strlit("7");
        reveal_strlit("8");
        reveal_strlit("9");
    }
    let text = if d == 0 {
        "0"
    } else if d == 1 {
        "1"
    } else if d == 2 {
        "2"
    } else if d == 3 {
        "3"
    } else if d == 4 {
        "4"
    } else if d == 5 {
        "5"
    } else if d == 6 {
        "6"
    } else if d == 7 {
        "7"
    } else if d == 8 {
        "8"
    } else {
        "9"
    };
    assert(text@ =~= seq![digit(d as int)]);
    text
}

/// Appends `n` in decimal.
fn append_decimal_nat(text: &mut String, n: u32)
    ensures
        final(text)@ == old(text)@ + decimal_nat(n as nat),
    decreases n,
{
    if n >= 10 {
        append_decimal_nat(text, n / 10);
    }
    text.append(digit_text(n % 10));
}

/// Appends `n` in decimal, with a minus sign where it is negative.
pub fn append_decimal(text: &mut String, n: i32)
    ensures
        final(text)@ == old(text)@ + decimal(n as int),
{
    if n < 0 {
        proof {
            reveal_strlit("-");
        }
        text.append("-");
        let magnitude = (-(n as i64)) as u32;
        append_decimal_nat(text, magnitude);
    } else {
        append_decimal_nat(text, n as u32);
    }
}

/// Renders the scoreboard: one line for each entry, in the order given.
pub fn render_scoreboard(lines: &Vec<ScoreLine>) -> (text: String)
    ensures
        text@ == scoreboard_text(line_views(lines@)),
{
    let mut text = String::new();
    let mut i: usize = 0;
    while i < lines.len()
        invariant
            i <= lines.len(),
            text@ == scoreboard_text(line_views(lines@).take(i as int)),
        decreases lines.len() - i,
    {
        let ghost before = line_views(lines@).take(i as int);
        let ghost after = line_views(lines@).take(i + 1);
        proof {
            assert(after.drop_last() == before);
            assert(after.last() == lines@[i as int]@);
        }
        if i > 0 {
            text.append("\n");
        }
        text.append("__");
        text.append(lines[i].name.as_str());
        text.append("__ \u{2014} *");
        append_decimal(&mut text, lines[i].ls);
        text.append("* Ls");
        proof {
            if i == 0 {
                assert(before.len() == 0);
                assert(text@ =~= score_line(after.last()));
            } else {
                assert(text@ =~= scoreboard_text(before) + "\n"@ + score_line(after.last()));
            }
        }
        i += 1;
    }
    proof {
        assert(line_views(lines@).take(lines.len() as int) == line_views(lines@));
    }
    text
}

/// The number of line breaks in a text.
pub open spec fn line_breaks(text: Seq<char>) -> nat
    decreases text.len(),
{
    if text.len() == 0 {
        0
    } else if text.last() == '\n' {
        line_breaks(text.drop_last()) + 1
    } else {
        line_breaks(text.drop_last())
    }
}

/// The line breaks of two texts put together are those of the one and those of the other.
pub proof fn lemma_line_breaks_add(a: Seq<char>, b: Seq<char>)
    ensures
        line_breaks(a + b) == line_breaks(a) + line_breaks(b),
    decreases b.len(),
{
    if b.len() == 0 {
        assert(a + b == a);
    } else {
        assert((a + b).drop_last() == a + b.drop_last());
        assert((a + b).last() == b.last());
        lemma_line_breaks_add(a, b.drop_last());
    }
}

/// A number in decimal holds no line break.
pub proof fn lemma_decimal_nat_is_one_line(n: nat)
    ensures
        line_breaks(decimal_nat(n)) == 0,
    decreases n,
{
    if n < 10 {
        let one = seq![digit(n as int)];
        assert(one.last() == digit(n as int));
        assert(one.drop_last() == Seq::<char>::empty());
        assert(line_breaks(one.drop_last()) == 0);
    } else {
        lemma_decimal_nat_is_one_line(n / 10);
        assert(decimal_nat(n).last() == digit((n % 10) as int));
        assert(decimal_nat(n).drop_last() == decimal_nat(n / 10));
    }
}

/// A line of the scoreboard holds no line break, where the name holds none.
pub proof fn lemma_score_line_is_one_line(line: ScoreLineView)
    requires
        line_breaks(line.name) == 0,
    ensures
        line_breaks(score_line(line)) == 0,
{
    reveal_strlit("__");
    reveal_strlit("__ \u{2014} *");
    reveal_strlit("* Ls");
    reveal_with_fuel(line_breaks, 8);
    assert(line_breaks("__"@) == 0);
    assert(line_breaks("__ \u{2014} *"@) == 0);
    assert(line_breaks("* Ls"@) == 0);
    if line.ls < 0 {
        lemma_decimal_nat_is_one_line((-line.ls) as nat);
        assert(line_breaks(seq!['-']) == 0);
        lemma_line_breaks_add(seq!['-'], decimal_nat((-line.ls) as nat));
    } else {
        lemma_decimal_nat_is_one_line(line.ls as nat);
    }
    lemma_line_breaks_add("__"@, line.name);
    lemma_line_breaks_add("__"@ + line.name, "__ \u{2014} *"@);
    lemma_line_breaks_add("__"@ + line.name + "__ \u{2014} *"@, decimal(line.ls));
    lemma_line_breaks_add(
        "__"@ + line.name + "__ \u{2014} *"@ + decimal(line.ls),
        "* Ls"@,
    );
}

/// A scoreboard of N entries has N lines: N - 1 line breaks, where no name holds one.
pub proof fn lemma_scoreboard_lines(lines: Seq<ScoreLineView>)
    requires
        lines.len() > 0,
        forall|i: int| 0 <= i < lines.len() ==> line_breaks((#[trigger] lines[i]).name) == 0,
    ensures
        line_breaks(scoreboard_text(lines)) == lines.len() - 1,
    decreases lines.len(),
{
    lemma_score_line_is_one_line(lines.last());
    if lines.len() > 1 {
        let front = lines.drop_last();
        assert forall|i: int| 0 <= i < front.len() implies line_breaks(
            (#[trigger] front[i]).name,
        ) == 0 by {
            assert(front[i] == lines[i]);
        }
        lemma_scoreboard_lines(front);
        reveal_strlit("\n");
        reveal_with_fuel(line_breaks, 2);
        assert(line_breaks("\n"@) == 1);
        lemma_line_breaks_add(scoreboard_text(front), "\n"@);
        lemma_line_breaks_add(scoreboard_text(front) + "\n"@, score_line(lines.last()));
    }
}

} // verus!
