//! Small operations on text that the other modules share.

use vstd::prelude::*;

verus! {

/// The value of an optional string.
pub open spec fn text_of(s: Option<String>) -> Option<Seq<char>> {
    match s {
        Some(t) => Some(t@),
        None => None,
    }
}

/// The values of a sequence of strings.
pub open spec fn text_views(texts: Seq<String>) -> Seq<Seq<char>> {
    Seq::new(texts.len(), |i: int| texts[i]@)
}

/// The characters of `text`, in order.
pub fn chars_of(text: &str) -> (chars: Vec<char>)
    ensures
        chars@ == text@,
{
    let mut chars: Vec<char> = Vec::new();
    for c in it: text.chars()
        invariant
            it.seq() == text@,
            chars@ == it.seq().take(it.index() as int),
    {
        chars.push(c);
        assert(it.seq().take(it.index() + 1) =~= it.seq().take(it.index() as int).push(c));
    }
    assert(text@.take(text@.len() as int) =~= text@);
    chars
}

/// `head` followed by `tail`.
pub fn join_text(head: &str, tail: &str) -> (joined: String)
    ensures
        joined@ == head@ + tail@,
{
    let mut joined = String::from_str(head);
    joined.append(tail);
    joined
}

/// A copy of an optional string.
pub fn copy_optional_text(text: &Option<String>) -> (copy: Option<String>)
    ensures
        text_of(copy) == text_of(*text),
{
    match text {
        Some(t) => Some(t.clone()),
        None => None,
    }
}

/// Whether two texts are the same.
pub fn same_text(a: &str, b: &str) -> (same: bool)
    ensures
        same == (a@ == b@),
{
    let left = chars_of(a);
    let right = chars_of(b);
    if left.len() != right.len() {
        return false;
    }
    let mut i: usize = 0;
    while i < left.len()
        invariant
            i <= left.len(),
            left.len() == right.len(),
            left@ == a@,
            right@ == b@,
            forall|k: int| 0 <= k < i ==> left[k] == right[k],
        decreases left.len() - i,
    {
        if left[i] != right[i] {
            return false;
        }
        i += 1;
    }
    assert(left@ =~= right@);
    true
}

/// The place of the first `mark` in `text` at or after `from`; the length of
/// the text if there is none.
pub open spec fn next_mark(text: Seq<char>, mark: char, from: int) -> int
    decreases text.len() - from,
{
    if from < 0 || from >= text.len() {
        text.len() as int
    } else if text[from] == mark {
        from
    } else {
        next_mark(text, mark, from + 1)
    }
}

/// The next mark lies at or after the start of the search and within the
/// text, with no mark before it.
pub proof fn lemma_next_mark(text: Seq<char>, mark: char, from: int)
    requires
        0 <= from <= text.len(),
    ensures
        from <= next_mark(text, mark, from) <= text.len(),
        next_mark(text, mark, from) < text.len() ==> text[next_mark(text, mark, from)] == mark,
        forall|k: int| from <= k < next_mark(text, mark, from) ==> text[k] != mark,
    decreases text.len() - from,
{
    if from < text.len() && text[from] != mark {
        lemma_next_mark(text, mark, from + 1);
    }
}

/// Finds the first `mark` at or after `from`.
pub fn find_mark(chars: &Vec<char>, mark: char, from: usize) -> (at: usize)
    ensures
        at == next_mark(chars@, mark, from as int),
        from <= chars.len() ==> from <= at <= chars.len(),
        from > chars.len() ==> at == chars.len(),
{
    if from >= chars.len() {
        return chars.len();
    }
    let mut at: usize = from;
    while at < chars.len() && chars[at] != mark
        invariant
            from <= at <= chars.len(),
            next_mark(chars@, mark, from as int) == next_mark(chars@, mark, at as int),
        decreases chars.len() - at,
    {
        at += 1;
    }
    at
}

/// `pattern` stands in `text` at place `at`.
pub open spec fn occurs_at(text: Seq<char>, pattern: Seq<char>, at: int) -> bool {
    &&& 0 <= at
    &&& at + pattern.len() <= text.len()
    &&& text.subrange(at, at + pattern.len()) == pattern
}

/// `pattern` stands somewhere in `text`.
pub open spec fn contains_text(text: Seq<char>, pattern: Seq<char>) -> bool {
    exists|at: int| occurs_at(text, pattern, at)
}

/// Whether `pattern` stands somewhere in `text`.
pub fn text_contains(text: &str, pattern: &str) -> (yes: bool)
    ensures
        yes == contains_text(text@, pattern@),
{
    let chars = chars_of(text);
    let wanted = chars_of(pattern);
    if wanted.len() > chars.len() {
        return false;
    }
    let last: usize = chars.len() - wanted.len();
    let mut at: usize = 0;
    while at <= last
        invariant
            at <= last + 1,
            last == chars.len() - wanted.len(),
            wanted.len() <= chars.len(),
            chars@ == text@,
            wanted@ == pattern@,
            forall|k: int| 0 <= k < at ==> !occurs_at(chars@, wanted@, k),
        decreases last + 1 - at,
    {
        let mut m: usize = 0;
        while m < wanted.len() && chars[at + m] == wanted[m]
            invariant
                at <= last,
                last == chars.len() - wanted.len(),
                wanted.len() <= chars.len(),
                m <= wanted.len(),
                forall|j: int| 0 <= j < m ==> chars[at + j] == wanted[j],
            decreases wanted.len() - m,
        {
            m += 1;
        }
        if m == wanted.len() {
            assert(chars@.subrange(at as int, at + wanted.len()) =~= wanted@);
            assert(occurs_at(chars@, wanted@, at as int));
            return true;
        }
        assert(!occurs_at(chars@, wanted@, at as int)) by {
            if occurs_at(chars@, wanted@, at as int) {
                let here = chars@.subrange(at as int, at + wanted.len());
                assert(here[m as int] == wanted@[m as int]);
            }
        }
        if at == last {
            assert forall|k: int| !occurs_at(chars@, wanted@, k) by {}
            return false;
        }
        at += 1;
    }
    false
}

/// The line of `text` that starts at `from` and ends before the line feed at
/// `end`: a carriage return before that line feed is no part of the line.
pub open spec fn line_between(text: Seq<char>, from: int, end: int) -> Seq<char> {
    if end < text.len() && from < end && text[end - 1] == '\r' {
        text.subrange(from, end - 1)
    } else {
        text.subrange(from, end)
    }
}

/// The lines of `text` from place `from` on. A line ends at a line feed or
/// at a carriage return with a line feed; the end of the last line may be
/// missing.
pub open spec fn lines_from(text: Seq<char>, from: int) -> Seq<Seq<char>>
    decreases text.len() - from,
    via lines_from_ends
{
    if from < 0 || from >= text.len() {
        Seq::empty()
    } else {
        let end = next_mark(text, '\n', from);
        if end >= text.len() {
            seq![line_between(text, from, end)]
        } else {
            seq![line_between(text, from, end)] + lines_from(text, end + 1)
        }
    }
}

#[via_fn]
proof fn lines_from_ends(text: Seq<char>, from: int) {
    if 0 <= from < text.len() {
        lemma_next_mark(text, '\n', from);
    }
}

/// The lines of a text.
pub open spec fn lines_of(text: Seq<char>) -> Seq<Seq<char>> {
    lines_from(text, 0)
}

/// Splits a text into its lines.
pub fn text_lines(text: &str) -> (lines: Vec<String>)
    ensures
        text_views(lines@) == lines_of(text@),
{
    let chars = chars_of(text);
    let mut lines: Vec<String> = Vec::new();
    let mut from: usize = 0;
    assert(text_views(lines@) + lines_from(text@, 0) =~= lines_of(text@));
    while from < chars.len()
        invariant
            from <= chars.len(),
            chars@ == text@,
            text_views(lines@) + lines_from(text@, from as int) == lines_of(text@),
        decreases chars.len() - from,
    {
        let ghost before = text_views(lines@);
        let end: usize = find_mark(&chars, '\n', from);
        let stop: usize = if end < chars.len() && from < end && chars[end - 1] == '\r' {
            end - 1
        } else {
            end
        };
        let line = text.substring_char(from, stop);
        lines.push(String::from_str(line));
        proof {
            let one = line_between(text@, from as int, end as int);
            let rest = lines_from(text@, end + 1);
            assert(text_views(lines@) =~= before.push(one));
            assert(before.push(one) + rest =~= before + (seq![one] + rest));
            assert(before.push(one) =~= before + seq![one]);
        }
        if end >= chars.len() {
            from = chars.len();
        } else {
            from = end + 1;
        }
    }
    proof {
        assert(text_views(lines@) + Seq::<Seq<char>>::empty() =~= text_views(lines@));
    }
    lines
}

/// What `str::to_lowercase` makes of a text.
pub uninterp spec fn lowercase_text(text: Seq<char>) -> Seq<char>;

/// `str::to_lowercase`: the lowercase form of a text, by the rules of
/// Unicode. The same text always gives the same result.
#[verifier::external_body]
pub(crate) fn lowercase(text: &str) -> (lower: String)
    ensures
        lower@ == lowercase_text(text@),
{
    text.to_lowercase()
}

/// The digit for a number below ten.
pub open spec fn digit_char(d: nat) -> char {
    if d == 0 {
        '0'
    } else if d == 1 {
        '1'
    } else if d == 2 {
        '2'
    } else if d == 3 {
        '3'
    } else if d == 4 {
        '4'
    } else if d == 5 {
        '5'
    } else if d == 6 {
        '6'
    } else if d == 7 {
        '7'
    } else if d == 8 {
        '8'
    } else {
        '9'
    }
}

/// A number written in decimal, without sign or leading zeros.
pub open spec fn decimal_text(n: nat) -> Seq<char>
    decreases n,
{
    if n < 10 {
        seq![digit_char(n)]
    } else {
        decimal_text(n / 10).push(digit_char(n % 10))
    }
}

/// Writes a number in decimal.
pub fn decimal_string(n: u64) -> (text: String)
    ensures
        text@ == decimal_text(n as nat),
    decreases n,
{
    let digits = "0123456789";
    proof {
        reveal_strlit("0123456789");
    }
    if n < 10 {
        let d: usize = n as usize;
        let one = digits.substring_char(d, d + 1);
        assert(one@ =~= seq![digit_char(n as nat)]);
        String::from_str(one)
    } else {
        let mut text = decimal_string(n / 10);
        let d: usize = (n % 10) as usize;
        let one = digits.substring_char(d, d + 1);
        assert(one@ =~= seq![digit_char((n % 10) as nat)]);
        text.append(one);
        assert(text@ =~= decimal_text((n / 10) as nat).push(digit_char((n % 10) as nat)));
        text
    }
}

} // verus!
