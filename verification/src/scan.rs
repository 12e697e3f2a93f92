use vstd::prelude::*;

verus! {

/// The first position of `s` whose item satisfies `found`, or the length of `s` where
/// none does.
pub open spec fn first_where<T>(s: Seq<T>, found: spec_fn(T) -> bool) -> nat
    decreases s.len(),
{
    if s.len() == 0 || found(s[0]) {
        0
    } else {
        1 + first_where(s.drop_first(), found)
    }
}

/// A position whose item satisfies `found`, with none before it that does, is `first_where`.
pub proof fn lemma_first_where_is<T>(s: Seq<T>, found: spec_fn(T) -> bool, i: int)
    requires
        0 <= i <= s.len(),
        forall|j: int| 0 <= j < i ==> !found(#[trigger] s[j]),
        i < s.len() ==> found(s[i]),
    ensures
        first_where(s, found) == i,
    decreases s.len(),
{
    if i > 0 {
        let rest = s.drop_first();
        assert forall|j: int| 0 <= j < i - 1 implies !found(#[trigger] rest[j]) by {
            assert(rest[j] == s[j + 1]);
        }
        lemma_first_where_is(rest, found, i - 1);
    }
}

/// `first_where` lies within the sequence, no item before it satisfies `found`, and the
/// item at it does, where it is a position at all.
pub proof fn lemma_first_where<T>(s: Seq<T>, found: spec_fn(T) -> bool)
    ensures
        first_where(s, found) <= s.len(),
        forall|j: int| 0 <= j < first_where(s, found) ==> !found(#[trigger] s[j]),
        first_where(s, found) < s.len() ==> found(s[first_where(s, found) as int]),
    decreases s.len(),
{
    if s.len() > 0 && !found(s[0]) {
        let rest = s.drop_first();
        lemma_first_where(rest, found);
        assert forall|j: int| 0 <= j < first_where(s, found) implies !found(#[trigger] s[j]) by {
            if j > 0 {
                assert(s[j] == rest[j - 1]);
            }
        }
    }
}

/// The first position of `s` that holds `item`, or the length of `s` where none does.
pub open spec fn first_of<T>(s: Seq<T>, item: T) -> nat
    decreases s.len(),
{
    if s.len() == 0 || s[0] == item {
        0
    } else {
        1 + first_of(s.drop_first(), item)
    }
}

/// A position that holds `item`, with none before it that does, is `first_of`.
pub proof fn lemma_first_of_is<T>(s: Seq<T>, item: T, i: int)
    requires
        0 <= i <= s.len(),
        forall|j: int| 0 <= j < i ==> (#[trigger] s[j]) != item,
        i < s.len() ==> s[i] == item,
    ensures
        first_of(s, item) == i,
    decreases s.len(),
{
    if i > 0 {
        let rest = s.drop_first();
        assert forall|j: int| 0 <= j < i - 1 implies (#[trigger] rest[j]) != item by {
            assert(rest[j] == s[j + 1]);
        }
        lemma_first_of_is(rest, item, i - 1);
    }
}

/// `first_of` lies within the sequence, no position before it holds `item`, and it does,
/// where it is a position at all.
pub proof fn lemma_first_of<T>(s: Seq<T>, item: T)
    ensures
        first_of(s, item) <= s.len(),
        forall|j: int| 0 <= j < first_of(s, item) ==> (#[trigger] s[j]) != item,
        first_of(s, item) < s.len() ==> s[first_of(s, item) as int] == item,
    decreases s.len(),
{
    if s.len() > 0 && s[0] != item {
        let rest = s.drop_first();
        lemma_first_of(rest, item);
        assert forall|j: int| 0 <= j < first_of(s, item) implies (#[trigger] s[j]) != item by {
            if j > 0 {
                assert(s[j] == rest[j - 1]);
            }
        }
    }
}

/// The code points with the Unicode property `White_Space`.
pub open spec fn is_whitespace(c: char) -> bool {
    let n = c as u32;
    (0x09 <= n && n <= 0x0D) || n == 0x20 || n == 0x85 || n == 0xA0 || n == 0x1680 || (0x2000 <= n
        && n <= 0x200A) || n == 0x2028 || n == 0x2029 || n == 0x202F || n == 0x205F || n == 0x3000
}

/// The lowercase form of an ASCII capital; every other character as it is.
pub open spec fn ascii_lowercase(c: char) -> char {
    if 'A' <= c && c <= 'Z' {
        ((c as u8) + 32) as char
    } else {
        c
    }
}

/// Equality of two texts up to the case of ASCII letters.
pub open spec fn eq_ignoring_ascii_case(a: Seq<char>, b: Seq<char>) -> bool {
    a.len() == b.len() && forall|i: int|
        0 <= i < a.len() ==> ascii_lowercase(#[trigger] a[i]) == ascii_lowercase(b[i])
}

/// Whether `pattern` stands in `s` at position `i`.
pub open spec fn occurs_at(s: Seq<char>, pattern: Seq<char>, i: int) -> bool {
    0 <= i && i + pattern.len() <= s.len() && s.subrange(i, i + pattern.len()) == pattern
}

/// The position of the first occurrence of `pattern` in `s`, or the length of `s` where
/// there is none.
pub open spec fn first_occurrence(s: Seq<char>, pattern: Seq<char>) -> nat
    decreases s.len(),
{
    if s.len() == 0 || occurs_at(s, pattern, 0) {
        0
    } else {
        1 + first_occurrence(s.drop_first(), pattern)
    }
}

/// `first_occurrence` is the least position at which the pattern stands.
pub proof fn lemma_first_occurrence_is(s: Seq<char>, pattern: Seq<char>, i: int)
    requires
        0 <= i <= s.len(),
        forall|j: int| 0 <= j < i ==> !occurs_at(s, pattern, j),
        i < s.len() ==> occurs_at(s, pattern, i),
    ensures
        first_occurrence(s, pattern) == i,
    decreases s.len(),
{
    if i > 0 {
        let rest = s.drop_first();
        assert forall|j: int| 0 <= j < i - 1 implies !occurs_at(rest, pattern, j) by {
            assert(!occurs_at(s, pattern, j + 1));
            if j + pattern.len() <= rest.len() {
                assert(rest.subrange(j, j + pattern.len()) == s.subrange(
                    j + 1,
                    j + 1 + pattern.len(),
                ));
            }
        }
        if i < s.len() {
            assert(rest.subrange(i - 1, i - 1 + pattern.len()) == s.subrange(
                i,
                i + pattern.len(),
            ));
        }
        lemma_first_occurrence_is(rest, pattern, i - 1);
    }
}

/// `first_occurrence` lies within the text, the pattern stands at no position before it,
/// and it stands there, where it is a position at all.
pub proof fn lemma_first_occurrence(s: Seq<char>, pattern: Seq<char>)
    ensures
        first_occurrence(s, pattern) <= s.len(),
        forall|j: int| 0 <= j < first_occurrence(s, pattern) ==> !occurs_at(s, pattern, j),
        first_occurrence(s, pattern) < s.len() ==> occurs_at(
            s,
            pattern,
            first_occurrence(s, pattern) as int,
        ),
    decreases s.len(),
{
    if s.len() > 0 && !occurs_at(s, pattern, 0) {
        let rest = s.drop_first();
        let f = first_occurrence(rest, pattern) as int;
        lemma_first_occurrence(rest, pattern);
        assert forall|j: int| 0 <= j < f + 1 implies !occurs_at(s, pattern, j) by {
            if j > 0 && j + pattern.len() <= s.len() {
                assert(!occurs_at(rest, pattern, j - 1));
                assert(rest.subrange(j - 1, j - 1 + pattern.len()) == s.subrange(
                    j,
                    j + pattern.len(),
                ));
            }
        }
        if f < rest.len() {
            assert(rest.subrange(f, f + pattern.len()) == s.subrange(f + 1, f + 1 + pattern.len()));
        }
    }
}

/// The characters of `s`, in order, as a vector that can be indexed in constant time.
pub fn chars_of(s: &str) -> (v: Vec<char>)
    ensures
        v@ == s@,
{
    let mut v: Vec<char> = Vec::new();
    for c in it: s.chars()
        invariant
            it.seq() == s@,
            v@ == it.seq().take(it.index() as int),
    {
        v.push(c);
    }
    v
}

/// Whether `c` is a whitespace character.
pub fn whitespace(c: char) -> (b: bool)
    ensures
        b == is_whitespace(c),
{
    let n = c as u32;
    (0x09 <= n && n <= 0x0D) || n == 0x20 || n == 0x85 || n == 0xA0 || n == 0x1680 || (0x2000 <= n
        && n <= 0x200A) || n == 0x2028 || n == 0x2029 || n == 0x202F || n == 0x205F || n == 0x3000
}

/// Whether `a` and `b` are the same character up to ASCII case.
pub fn same_ignoring_ascii_case(a: char, b: char) -> (same: bool)
    ensures
        same == (ascii_lowercase(a) == ascii_lowercase(b)),
{
    let x = a as u32;
    let y = b as u32;
    let lx = if 0x41 <= x && x <= 0x5A { x + 32 } else { x };
    let ly = if 0x41 <= y && y <= 0x5A { y + 32 } else { y };
    lx == ly
}

/// The first position in `[from, to)` that holds a whitespace character, or `to`.
pub fn find_whitespace(v: &Vec<char>, from: usize, to: usize) -> (i: usize)
    requires
        from <= to <= v.len(),
    ensures
        from <= i <= to,
        forall|j: int| from <= j < i ==> !is_whitespace(#[trigger] v@[j]),
        i < to ==> is_whitespace(v@[i as int]),
{
    let mut i: usize = from;
    while i < to && !whitespace(v[i])
        invariant
            from <= i <= to <= v.len(),
            forall|j: int| from <= j < i ==> !is_whitespace(#[trigger] v@[j]),
        decreases to - i,
    {
        i += 1;
    }
    i
}

/// The first position in `[from, to)` that holds `c`, or `to`.
pub fn find_char(v: &Vec<char>, from: usize, to: usize, c: char) -> (i: usize)
    requires
        from <= to <= v.len(),
    ensures
        from <= i <= to,
        forall|j: int| from <= j < i ==> (#[trigger] v@[j]) != c,
        i < to ==> v@[i as int] == c,
{
    let mut i: usize = from;
    while i < to && v[i] != c
        invariant
            from <= i <= to <= v.len(),
            forall|j: int| from <= j < i ==> (#[trigger] v@[j]) != c,
        decreases to - i,
    {
        i += 1;
    }
    i
}

/// Whether the characters in `[from, to)` spell `word`.
pub fn range_is(v: &Vec<char>, from: usize, to: usize, word: &str) -> (same: bool)
    requires
        from <= to <= v.len(),
    ensures
        same == (v@.subrange(from as int, to as int) == word@),
{
    let letters = chars_of(word);
    let n = letters.len();
    if to - from != n {
        return false;
    }
    let mut k: usize = 0;
    while k < n
        invariant
            from <= to <= v.len(),
            letters@ == word@,
            n == letters.len(),
            to - from == n,
            k <= n,
            forall|j: int| 0 <= j < k ==> v@[from + j] == #[trigger] word@[j],
        decreases n - k,
    {
        if v[from + k] != letters[k] {
            proof {
                assert(v@.subrange(from as int, to as int)[k as int] != word@[k as int]);
            }
            return false;
        }
        k += 1;
    }
    proof {
        assert(v@.subrange(from as int, to as int) =~= word@);
    }
    true
}

/// Whether the characters in `[from, to)` spell `word` up to the case of ASCII letters.
pub fn range_is_ignoring_ascii_case(
    v: &Vec<char>,
    from: usize,
    to: usize,
    word: &Vec<char>,
) -> (same: bool)
    requires
        from <= to <= v.len(),
    ensures
        same == eq_ignoring_ascii_case(v@.subrange(from as int, to as int), word@),
{
    let n = word.len();
    if to - from != n {
        return false;
    }
    let ghost part = v@.subrange(from as int, to as int);
    let mut k: usize = 0;
    while k < n
        invariant
            from <= to <= v.len(),
            n == word@.len(),
            to - from == n,
            k <= n,
            part == v@.subrange(from as int, to as int),
            forall|j: int|
                0 <= j < k ==> ascii_lowercase(#[trigger] part[j]) == ascii_lowercase(word@[j]),
        decreases n - k,
    {
        if !same_ignoring_ascii_case(v[from + k], word[k]) {
            proof {
                assert(part[k as int] == v@[from + k]);
            }
            return false;
        }
        proof {
            assert(part[k as int] == v@[from + k]);
        }
        k += 1;
    }
    true
}

/// The first position at or after `from` at which `pattern` stands in `v`, or the length
/// of `v` where it stands at none.
pub fn find_pattern(v: &Vec<char>, from: usize, pattern: &Vec<char>) -> (i: usize)
    requires
        from <= v.len(),
        pattern.len() > 0,
    ensures
        from <= i <= v.len(),
        i < v.len() ==> i + pattern.len() <= v.len(),
        i - from == first_occurrence(v@.skip(from as int), pattern@),
{
    let len = v.len();
    let n = pattern.len();
    let ghost tail = v@.skip(from as int);
    let mut i: usize = from;
    while i < len
        invariant
            from <= i <= len,
            len == v.len(),
            n == pattern.len(),
            n > 0,
            tail == v@.skip(from as int),
            forall|j: int| 0 <= j < i - from ==> !occurs_at(tail, pattern@, j),
        decreases len - i,
    {
        if n <= len - i {
            let mut k: usize = 0;
            while k < n && v[i + k] == pattern[k]
                invariant
                    i + n <= len,
                    len == v.len(),
                    n == pattern.len(),
                    k <= n,
                    forall|j: int| 0 <= j < k ==> v@[i + j] == #[trigger] pattern@[j],
                decreases n - k,
            {
                k += 1;
            }
            if k == n {
                proof {
                    assert(tail.subrange(i - from, i - from + n) =~= pattern@);
                    lemma_first_occurrence_is(tail, pattern@, i - from);
                }
                return i;
            }
            proof {
                assert(tail.subrange(i - from, i - from + n)[k as int] == v@[i + k]);
            }
        }
        i += 1;
    }
    proof {
        lemma_first_occurrence_is(tail, pattern@, len - from);
    }
    len
}

} // verus!
