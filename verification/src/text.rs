//! Lines and words of a text, as sequences of characters.
//!
//! A line ends with a line feed, which a carriage return may precede; neither
//! belongs to the line. The last line needs no ending. Words are the maximal
//! runs of characters that are not white space.

use vstd::prelude::*;

verus! {

/// White space: the characters that carry the Unicode property `White_Space`.
pub open spec fn is_space(c: char) -> bool {
    let u = c as u32;
    ||| 0x09 <= u <= 0x0D
    ||| u == 0x20
    ||| u == 0x85
    ||| u == 0xA0
    ||| u == 0x1680
    ||| 0x2000 <= u <= 0x200A
    ||| u == 0x2028
    ||| u == 0x2029
    ||| u == 0x202F
    ||| u == 0x205F
    ||| u == 0x3000
}

/// How many characters stand between index `i` and the next line feed, or the
/// end of `s` where no line feed follows.
pub open spec fn line_len(s: Seq<char>, i: int) -> nat
    decreases s.len() - i,
{
    if 0 <= i < s.len() && s[i] != '\n' {
        1 + line_len(s, i + 1)
    } else {
        0
    }
}

/// Index of the line feed that ends the line starting at `i`, or the length
/// of `s` where the line is the last one and has no ending.
pub open spec fn line_stop(s: Seq<char>, i: int) -> int {
    i + line_len(s, i)
}

/// Index just behind the last character of the line starting at `i`: the line
/// feed and a carriage return right before it are left out.
pub open spec fn line_end(s: Seq<char>, i: int) -> int {
    let stop = line_stop(s, i);
    if i < stop < s.len() && s[stop - 1] == '\r' {
        stop - 1
    } else {
        stop
    }
}

/// The line that starts at index `i`, without its ending.
pub open spec fn line_at(s: Seq<char>, i: int) -> Seq<char> {
    s.subrange(i, line_end(s, i))
}

/// Index at which the line after the one starting at `i` starts; the length
/// of `s` where there is none.
pub open spec fn next_line(s: Seq<char>, i: int) -> int {
    let stop = line_stop(s, i);
    if stop < s.len() {
        stop + 1
    } else {
        s.len() as int
    }
}

/// The lines of `s` from index `i` on, where `i` is the start of a line.
pub open spec fn lines_from(s: Seq<char>, i: int) -> Seq<Seq<char>>
    decreases s.len() - i,
{
    if 0 <= i < s.len() {
        seq![line_at(s, i)] + lines_from(s, next_line(s, i))
    } else {
        Seq::empty()
    }
}

/// The lines of `s`. An empty text has no line; a text that ends with a line
/// ending has no empty line behind it.
pub open spec fn lines(s: Seq<char>) -> Seq<Seq<char>> {
    lines_from(s, 0)
}

/// The first line of `s`; empty where `s` is empty.
pub open spec fn first_line(s: Seq<char>) -> Seq<char> {
    line_at(s, 0)
}

/// The leading lines of `ls` up to, and without, the first empty one.
pub open spec fn until_blank(ls: Seq<Seq<char>>) -> Seq<Seq<char>>
    decreases ls.len(),
{
    if ls.len() == 0 || ls[0].len() == 0 {
        Seq::empty()
    } else {
        seq![ls[0]] + until_blank(ls.drop_first())
    }
}

/// The first of `ls` that begins with `prefix`, if there is one.
pub open spec fn first_with_prefix(ls: Seq<Seq<char>>, prefix: Seq<char>) -> Option<Seq<char>>
    decreases ls.len(),
{
    if ls.len() == 0 {
        None
    } else if prefix.is_prefix_of(ls[0]) {
        Some(ls[0])
    } else {
        first_with_prefix(ls.drop_first(), prefix)
    }
}

/// How many white-space characters stand in a row from index `i` on.
pub open spec fn spaces(s: Seq<char>, i: int) -> nat
    decreases s.len() - i,
{
    if 0 <= i < s.len() && is_space(s[i]) {
        1 + spaces(s, i + 1)
    } else {
        0
    }
}

/// How many characters other than white space stand in a row from index `i` on.
pub open spec fn letters(s: Seq<char>, i: int) -> nat
    decreases s.len() - i,
{
    if 0 <= i < s.len() && !is_space(s[i]) {
        1 + letters(s, i + 1)
    } else {
        0
    }
}

/// The word of `s` that has `k` words between index `i` and itself, if `s`
/// has that many words from `i` on. `word(s, 0, 0)` is the first word.
pub open spec fn word(s: Seq<char>, i: int, k: nat) -> Option<Seq<char>>
    decreases k,
{
    let from = i + spaces(s, i);
    let to = from + letters(s, from);
    if from == to {
        None
    } else if k == 0 {
        Some(s.subrange(from, to))
    } else {
        word(s, to, (k - 1) as nat)
    }
}

/// A line runs from its start to the first line feed behind it, or to the end
/// of the text: it stops inside the text, no line feed stands before the
/// stop, and the next line starts behind the line feed.
pub proof fn lemma_line_stop(s: Seq<char>, i: int)
    requires
        0 <= i <= s.len(),
    ensures
        i <= line_end(s, i) <= line_stop(s, i) <= s.len(),
        line_stop(s, i) < s.len() ==> s[line_stop(s, i)] == '\n',
        forall|j: int| i <= j < line_stop(s, i) ==> s[j] != '\n',
        i < s.len() ==> i < next_line(s, i) <= s.len(),
    decreases s.len() - i,
{
    if i < s.len() && s[i] != '\n' {
        lemma_line_stop(s, i + 1);
    }
}

/// No line holds a line feed.
pub proof fn lemma_line_has_no_line_feed(s: Seq<char>, i: int)
    requires
        0 <= i <= s.len(),
    ensures
        forall|j: int| 0 <= j < line_at(s, i).len() ==> line_at(s, i)[j] != '\n',
{
    lemma_line_stop(s, i);
}

/// No line of a text holds a line feed.
pub proof fn lemma_lines_have_no_line_feed(s: Seq<char>, i: int)
    requires
        0 <= i <= s.len(),
    ensures
        forall|n: int, j: int|
            0 <= n < lines_from(s, i).len() && 0 <= j < lines_from(s, i)[n].len()
                ==> #[trigger] lines_from(s, i)[n][j] != '\n',
    decreases s.len() - i,
{
    if i < s.len() {
        lemma_line_stop(s, i);
        lemma_lines_have_no_line_feed(s, next_line(s, i));
        let ls = lines_from(s, i);
        let rest = lines_from(s, next_line(s, i));
        assert forall|n: int, j: int| 0 <= n < ls.len() && 0 <= j < ls[n].len() implies #[trigger] ls[n][j]
            != '\n' by {
            if n == 0 {
                assert(ls[0] == line_at(s, i));
            } else {
                assert(ls[n] == rest[n - 1]);
            }
        }
    }
}

/// What `until_blank` keeps are the leading lines themselves, none of them
/// empty, and it stops at the end or before an empty line.
pub proof fn lemma_until_blank(ls: Seq<Seq<char>>)
    ensures
        until_blank(ls).len() <= ls.len(),
        forall|n: int|
            0 <= n < until_blank(ls).len() ==> #[trigger] until_blank(ls)[n] == ls[n]
                && ls[n].len() > 0,
        until_blank(ls).len() < ls.len() ==> ls[until_blank(ls).len() as int].len() == 0,
    decreases ls.len(),
{
    if ls.len() > 0 && ls[0].len() > 0 {
        let rest = ls.drop_first();
        lemma_until_blank(rest);
        let kept = until_blank(ls);
        assert forall|n: int| 0 <= n < kept.len() implies #[trigger] kept[n] == ls[n] && ls[n].len()
            > 0 by {
            if n > 0 {
                assert(kept[n] == until_blank(rest)[n - 1]);
                assert(rest[n - 1] == ls[n]);
            }
        }
        if kept.len() < ls.len() {
            assert(rest[until_blank(rest).len() as int] == ls[kept.len() as int]);
        }
    }
}

/// A run of white space stops inside the text, holds white space only, and
/// ends where the text ends or something else stands.
pub proof fn lemma_spaces(s: Seq<char>, i: int)
    requires
        0 <= i <= s.len(),
    ensures
        i + spaces(s, i) <= s.len(),
        forall|j: int| i <= j < i + spaces(s, i) ==> is_space(s[j]),
        i + spaces(s, i) < s.len() ==> !is_space(s[i + spaces(s, i)]),
    decreases s.len() - i,
{
    if i < s.len() && is_space(s[i]) {
        lemma_spaces(s, i + 1);
    }
}

/// A run of other characters stops inside the text, holds no white space, and
/// ends where the text ends or white space stands.
pub proof fn lemma_letters(s: Seq<char>, i: int)
    requires
        0 <= i <= s.len(),
    ensures
        i + letters(s, i) <= s.len(),
        forall|j: int| i <= j < i + letters(s, i) ==> !is_space(s[j]),
        i + letters(s, i) < s.len() ==> is_space(s[i + letters(s, i)]),
    decreases s.len() - i,
{
    if i < s.len() && !is_space(s[i]) {
        lemma_letters(s, i + 1);
    }
}

/// A word is never empty and holds no white space.
pub proof fn lemma_word_is_clean(s: Seq<char>, i: int, k: nat)
    requires
        0 <= i <= s.len(),
    ensures
        word(s, i, k) matches Some(w) ==> w.len() > 0 && forall|j: int|
            0 <= j < w.len() ==> !is_space(#[trigger] w[j]),
    decreases k,
{
    lemma_spaces(s, i);
    let from = i + spaces(s, i);
    lemma_letters(s, from);
    let to = from + letters(s, from);
    if from != to && k > 0 {
        lemma_word_is_clean(s, to, (k - 1) as nat);
    }
}

/// Tells whether `c` is white space.
pub fn is_whitespace(c: char) -> (b: bool)
    ensures
        b == is_space(c),
{
    let u: u32 = c as u32;
    (0x09 <= u && u <= 0x0D) || u == 0x20 || u == 0x85 || u == 0xA0 || u == 0x1680 || (0x2000 <= u
        && u <= 0x200A) || u == 0x2028 || u == 0x2029 || u == 0x202F || u == 0x205F || u == 0x3000
}

/// The characters of `text`, one by one.
pub fn chars_of(text: &str) -> (v: Vec<char>)
    ensures
        v@ == text@,
{
    broadcast use vstd::string::group_string_axioms;

    let mut v: Vec<char> = Vec::new();
    for c in it: text.chars()
        invariant
            v@ == text@.take(it.index() as int),
            it.seq() == text@,
    {
        v.push(c);
        assert(v@ =~= text@.take(it.index() + 1));
    }
    assert(v@ =~= text@);
    v
}

/// Finds where the line starting at `i` stops.
pub fn find_line_stop(v: &Vec<char>, i: usize) -> (stop: usize)
    requires
        i <= v.len(),
    ensures
        stop == line_stop(v@, i as int),
        i <= stop <= v.len(),
{
    let mut j: usize = i;
    while j < v.len() && v[j] != '\n'
        invariant
            i <= j <= v.len(),
            line_len(v@, i as int) == (j - i) + line_len(v@, j as int),
        decreases v.len() - j,
    {
        j += 1;
    }
    j
}

/// Finds the end of the line that starts at `i` and stops at `stop`.
pub fn find_line_end(v: &Vec<char>, i: usize, stop: usize) -> (end: usize)
    requires
        i <= v.len(),
        stop == line_stop(v@, i as int),
    ensures
        end == line_end(v@, i as int),
        i <= end <= stop,
{
    if i < stop && stop < v.len() && v[stop - 1] == '\r' {
        stop - 1
    } else {
        stop
    }
}

/// Finds the start of the line after the one that starts at `i` and stops at
/// `stop`.
pub fn find_next_line(v: &Vec<char>, i: usize, stop: usize) -> (next: usize)
    requires
        i <= v.len(),
        i <= stop <= v.len(),
        stop == line_stop(v@, i as int),
    ensures
        next == next_line(v@, i as int),
        next <= v.len(),
        i < v.len() ==> i < next,
{
    if stop < v.len() {
        stop + 1
    } else {
        v.len()
    }
}

/// Skips the white space of the first `end` characters from index `i` on.
pub fn skip_spaces(v: &Vec<char>, i: usize, end: usize) -> (j: usize)
    requires
        i <= end <= v.len(),
    ensures
        j == i + spaces(v@.take(end as int), i as int),
        i <= j <= end,
{
    let ghost s = v@.take(end as int);
    let mut j: usize = i;
    while j < end && is_whitespace(v[j])
        invariant
            i <= j <= end <= v.len(),
            s == v@.take(end as int),
            spaces(s, i as int) == (j - i) + spaces(s, j as int),
        decreases end - j,
    {
        j += 1;
    }
    j
}

/// Skips what is not white space in the first `end` characters from index `i`
/// on.
pub fn skip_letters(v: &Vec<char>, i: usize, end: usize) -> (j: usize)
    requires
        i <= end <= v.len(),
    ensures
        j == i + letters(v@.take(end as int), i as int),
        i <= j <= end,
{
    let ghost s = v@.take(end as int);
    let mut j: usize = i;
    while j < end && !is_whitespace(v[j])
        invariant
            i <= j <= end <= v.len(),
            s == v@.take(end as int),
            letters(s, i as int) == (j - i) + letters(s, j as int),
        decreases end - j,
    {
        j += 1;
    }
    j
}

/// Tells whether the characters of `v` from `from` up to `to` begin with
/// `prefix`.
pub fn begins_with(v: &Vec<char>, from: usize, to: usize, prefix: &Vec<char>) -> (b: bool)
    requires
        from <= to <= v.len(),
    ensures
        b == prefix@.is_prefix_of(v@.subrange(from as int, to as int)),
{
    let n = prefix.len();
    if n > to - from {
        return false;
    }
    let ghost part = v@.subrange(from as int, to as int);
    let mut k: usize = 0;
    while k < n
        invariant
            k <= n <= to - from,
            from <= to <= v.len(),
            n == prefix.len(),
            part == v@.subrange(from as int, to as int),
            forall|j: int| 0 <= j < k ==> prefix@[j] == part[j],
        decreases n - k,
    {
        if prefix[k] != v[from + k] {
            assert(part.subrange(0, n as int)[k as int] == part[k as int]);
            return false;
        }
        k += 1;
    }
    assert(prefix@ =~= part.subrange(0, n as int));
    true
}

/// Tells whether two texts hold the same characters.
pub fn same_text(a: &str, b: &str) -> (same: bool)
    ensures
        same == (a@ == b@),
{
    let x = chars_of(a);
    let y = chars_of(b);
    if x.len() != y.len() {
        return false;
    }
    let same = begins_with(&x, 0, x.len(), &y);
    proof {
        assert(x@.subrange(0, x.len() as int) =~= x@);
        if same {
            assert(y@ =~= x@.subrange(0, y.len() as int));
        }
    }
    same
}

} // verus!
