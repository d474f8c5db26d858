//! Reading and building text.
//!
//! A text is the sequence of its characters. The `spec` functions say what each operation
//! means on that sequence; the executable functions of the same subject compute it.

use vstd::prelude::*;

verus! {

/// `String::push` appends one character.
pub assume_specification[ String::push ](string: &mut String, c: char)
    ensures
        final(string)@ == old(string)@.push(c),
;

/// The views of a list of strings.
pub open spec fn texts(list: Seq<String>) -> Seq<Seq<char>> {
    Seq::new(list.len(), |i: int| list[i]@)
}

/// The view of an optional string.
pub open spec fn opt_text(text: Option<String>) -> Option<Seq<char>> {
    match text {
        Some(text) => Some(text@),
        None => None,
    }
}

/// A character with the Unicode property `White_Space`.
pub open spec fn white_char(c: char) -> bool {
    let code = c as u32;
    ||| 9 <= code <= 13
    ||| code == 0x20
    ||| code == 0x85
    ||| code == 0xa0
    ||| code == 0x1680
    ||| 0x2000 <= code <= 0x200a
    ||| code == 0x2028
    ||| code == 0x2029
    ||| code == 0x202f
    ||| code == 0x205f
    ||| code == 0x3000
}

/// The class of white-space characters.
pub open spec fn white() -> spec_fn(char) -> bool {
    |c: char| white_char(c)
}

/// The class of the characters in `set`.
pub open spec fn one_of(set: Seq<char>) -> spec_fn(char) -> bool {
    |c: char| set.contains(c)
}

/// The position of the first character of `class`; the length where there is none.
pub open spec fn first_of(s: Seq<char>, class: spec_fn(char) -> bool) -> int
    decreases s.len(),
{
    if s.len() == 0 || class(s[0]) {
        0
    } else {
        1 + first_of(s.skip(1), class)
    }
}

/// The position of the last character of `class`; minus one where there is none.
pub open spec fn last_of(s: Seq<char>, class: spec_fn(char) -> bool) -> int
    decreases s.len(),
{
    if s.len() == 0 || class(s.last()) {
        s.len() - 1
    } else {
        last_of(s.drop_last(), class)
    }
}

/// The text without the leading characters of `class`.
pub open spec fn without_leading(s: Seq<char>, class: spec_fn(char) -> bool) -> Seq<char>
    decreases s.len(),
{
    if s.len() > 0 && class(s[0]) {
        without_leading(s.skip(1), class)
    } else {
        s
    }
}

/// The text without the trailing characters of `class`.
pub open spec fn without_trailing(s: Seq<char>, class: spec_fn(char) -> bool) -> Seq<char>
    decreases s.len(),
{
    if s.len() > 0 && class(s.last()) {
        without_trailing(s.drop_last(), class)
    } else {
        s
    }
}

/// The text without leading and trailing characters of `class`.
pub open spec fn stripped(s: Seq<char>, class: spec_fn(char) -> bool) -> Seq<char> {
    without_trailing(without_leading(s, class), class)
}

/// The text without leading and trailing white space.
pub open spec fn trimmed(s: Seq<char>) -> Seq<char> {
    stripped(s, white())
}

/// The pieces between the characters of `class`.
pub open spec fn pieces(s: Seq<char>, class: spec_fn(char) -> bool) -> Seq<Seq<char>>
    decreases s.len(),
    via pieces_decreases
{
    let at = first_of(s, class);
    if at >= s.len() {
        seq![s]
    } else {
        seq![s.take(at)] + pieces(s.skip(at + 1), class)
    }
}

#[via_fn]
proof fn pieces_decreases(s: Seq<char>, class: spec_fn(char) -> bool) {
    lemma_first_of(s, class);
}

/// A line without the carriage return that belongs to its ending.
pub open spec fn without_return(line: Seq<char>) -> Seq<char> {
    if line.len() > 0 && line.last() == '\r' {
        line.drop_last()
    } else {
        line
    }
}

/// The lines of a text: ended by a line feed, or by a carriage return and a line feed; the last
/// ending is optional.
pub open spec fn lines(s: Seq<char>) -> Seq<Seq<char>>
    decreases s.len(),
    via lines_decreases
{
    let at = first_of(s, one_of(seq!['\n']));
    if s.len() == 0 {
        seq![]
    } else if at >= s.len() {
        seq![s]
    } else {
        seq![without_return(s.take(at))] + lines(s.skip(at + 1))
    }
}

#[via_fn]
proof fn lines_decreases(s: Seq<char>) {
    lemma_first_of(s, one_of(seq!['\n']));
}

/// The words of a text: its longest runs of characters that are not white space.
pub open spec fn words(s: Seq<char>) -> Seq<Seq<char>>
    decreases s.len(),
    via words_decreases
{
    let rest = without_leading(s, white());
    if rest.len() == 0 {
        seq![]
    } else {
        let at = first_of(rest, white());
        seq![rest.take(at)] + words(rest.skip(at))
    }
}

#[via_fn]
proof fn words_decreases(s: Seq<char>) {
    let rest = without_leading(s, white());
    lemma_without_leading(s, white());
    lemma_first_of(rest, white());
}

/// `part` stands in `s` at position `at`.
pub open spec fn stands_at(s: Seq<char>, part: Seq<char>, at: int) -> bool {
    0 <= at && at + part.len() <= s.len() && s.subrange(at, at + part.len()) == part
}

/// `s` begins with `part`.
pub open spec fn begins_with(s: Seq<char>, part: Seq<char>) -> bool {
    stands_at(s, part, 0)
}

/// `s` ends with `part`.
pub open spec fn finishes_with(s: Seq<char>, part: Seq<char>) -> bool {
    stands_at(s, part, s.len() - part.len())
}

/// `part` stands somewhere in `s`.
pub open spec fn holds_text(s: Seq<char>, part: Seq<char>) -> bool {
    exists|at: int| stands_at(s, part, at)
}

/// `at` is the first position of `part` in `s`.
pub open spec fn first_at(s: Seq<char>, part: Seq<char>, at: int) -> bool {
    stands_at(s, part, at) && forall|i: int| i < at ==> !stands_at(s, part, i)
}

/// What stands before and after the first `part`, where there is one.
pub open spec fn split_at_first(s: Seq<char>, part: Seq<char>) -> Option<(Seq<char>, Seq<char>)> {
    if holds_text(s, part) {
        let at = choose|at: int| first_at(s, part, at);
        Some((s.take(at), s.skip(at + part.len())))
    } else {
        None
    }
}

/// What stands before and after the last `c`, where there is one.
pub open spec fn split_at_last(s: Seq<char>, c: char) -> Option<(Seq<char>, Seq<char>)> {
    let at = last_of(s, one_of(seq![c]));
    if at < 0 {
        None
    } else {
        Some((s.take(at), s.skip(at + 1)))
    }
}

/// An upper-case ASCII letter made lower case; every other character as it is.
pub open spec fn lower_char(c: char) -> char {
    if 'A' <= c <= 'Z' {
        (c as u8 + 32) as char
    } else {
        c
    }
}

/// A lower-case ASCII letter made upper case; every other character as it is.
pub open spec fn upper_char(c: char) -> char {
    if 'a' <= c <= 'z' {
        (c as u8 - 32) as char
    } else {
        c
    }
}

/// The text with its ASCII letters in lower case.
pub open spec fn lower(s: Seq<char>) -> Seq<char> {
    Seq::new(s.len(), |i: int| lower_char(s[i]))
}

/// The text with its ASCII letters in upper case.
pub open spec fn upper(s: Seq<char>) -> Seq<char> {
    Seq::new(s.len(), |i: int| upper_char(s[i]))
}

/// The texts one after the other, with `separator` between them.
pub open spec fn joined(list: Seq<Seq<char>>, separator: Seq<char>) -> Seq<char>
    decreases list.len(),
{
    if list.len() == 0 {
        seq![]
    } else if list.len() == 1 {
        list[0]
    } else {
        joined(list.drop_last(), separator) + separator + list.last()
    }
}

/// A decimal digit.
pub open spec fn digit_char(c: char) -> bool {
    '0' <= c <= '9'
}

/// The digit that stands for a number below ten.
pub open spec fn digit(n: int) -> char {
    ('0' as u8 + n) as char
}

/// The decimal numeral of a number.
pub open spec fn decimal(n: nat) -> Seq<char>
    decreases n,
{
    if n < 10 {
        seq![digit(n as int)]
    } else {
        decimal(n / 10).push(digit((n % 10) as int))
    }
}

/// The decimal numeral of a signed number.
pub open spec fn signed_decimal(n: int) -> Seq<char> {
    if n < 0 {
        seq!['-'] + decimal((-n) as nat)
    } else {
        decimal(n as nat)
    }
}

/// The number that a run of decimal digits denotes.
pub open spec fn numeral(s: Seq<char>) -> nat
    decreases s.len(),
{
    if s.len() == 0 {
        0
    } else {
        numeral(s.drop_last()) * 10 + (s.last() as u32 - '0' as u32) as nat
    }
}

/// Only decimal digits.
pub open spec fn all_digits(s: Seq<char>) -> bool {
    forall|i: int| 0 <= i < s.len() ==> digit_char(#[trigger] s[i])
}

/// The text without the plus sign that it begins with, where it does.
pub open spec fn without_plus(s: Seq<char>) -> Seq<char> {
    if s.len() > 0 && s[0] == '+' {
        s.skip(1)
    } else {
        s
    }
}

/// The number below `2^16` that a text denotes: digits, with at most one plus sign before them.
pub open spec fn parsed_u16(s: Seq<char>) -> Option<u16> {
    let digits = without_plus(s);
    if digits.len() > 0 && all_digits(digits) && numeral(digits) <= u16::MAX {
        Some(numeral(digits) as u16)
    } else {
        None
    }
}

/// What `first_of` finds.
pub proof fn lemma_first_of(s: Seq<char>, class: spec_fn(char) -> bool)
    ensures
        0 <= first_of(s, class) <= s.len(),
        first_of(s, class) < s.len() ==> class(s[first_of(s, class)]),
        forall|i: int| 0 <= i < first_of(s, class) ==> !class(#[trigger] s[i]),
    decreases s.len(),
{
    if s.len() > 0 && !class(s[0]) {
        lemma_first_of(s.skip(1), class);
        assert forall|i: int| 0 <= i < first_of(s, class) implies !class(#[trigger] s[i]) by {
            if i > 0 {
                assert(s[i] == s.skip(1)[i - 1]);
            }
        }
    }
}

/// `first_of` is the only position with what it finds.
pub proof fn lemma_first_of_is(s: Seq<char>, class: spec_fn(char) -> bool, at: int)
    requires
        0 <= at <= s.len(),
        at < s.len() ==> class(s[at]),
        forall|i: int| 0 <= i < at ==> !class(#[trigger] s[i]),
    ensures
        first_of(s, class) == at,
{
    lemma_first_of(s, class);
}

/// `without_leading` drops exactly the leading characters of the class.
pub proof fn lemma_without_leading(s: Seq<char>, class: spec_fn(char) -> bool)
    ensures
        without_leading(s, class).len() <= s.len(),
        without_leading(s, class).len() > 0 ==> !class(without_leading(s, class)[0]),
    decreases s.len(),
{
    if s.len() > 0 && class(s[0]) {
        lemma_without_leading(s.skip(1), class);
    }
}

/// Dropping a known run of leading characters of the class.
pub proof fn lemma_without_leading_is(s: Seq<char>, class: spec_fn(char) -> bool, from: int)
    requires
        0 <= from <= s.len(),
        forall|i: int| 0 <= i < from ==> class(#[trigger] s[i]),
        from < s.len() ==> !class(s[from]),
    ensures
        without_leading(s, class) == s.skip(from),
    decreases s.len(),
{
    if from == 0 {
        assert(s.skip(0) =~= s);
    } else {
        let t = s.skip(1);
        assert forall|i: int| 0 <= i < from - 1 implies class(#[trigger] t[i]) by {
            assert(t[i] == s[i + 1]);
        }
        lemma_without_leading_is(t, class, from - 1);
        assert(t.skip(from - 1) =~= s.skip(from));
    }
}

/// Dropping a known run of trailing characters of the class.
pub proof fn lemma_without_trailing_is(s: Seq<char>, class: spec_fn(char) -> bool, to: int)
    requires
        0 <= to <= s.len(),
        forall|i: int| to <= i < s.len() ==> class(#[trigger] s[i]),
        to > 0 ==> !class(s[to - 1]),
    ensures
        without_trailing(s, class) == s.take(to),
    decreases s.len(),
{
    if to == s.len() {
        assert(s.take(to) =~= s);
    } else {
        lemma_without_trailing_is(s.drop_last(), class, to);
        assert(s.drop_last().take(to) =~= s.take(to));
    }
}

/// `without_trailing` drops exactly the trailing characters of the class.
pub proof fn lemma_without_trailing(s: Seq<char>, class: spec_fn(char) -> bool)
    ensures
        without_trailing(s, class).len() <= s.len(),
        without_trailing(s, class) == s.take(without_trailing(s, class).len() as int),
        without_trailing(s, class).len() > 0 ==> !class(without_trailing(s, class).last()),
        forall|i: int|
            without_trailing(s, class).len() <= i < s.len() ==> class(#[trigger] s[i]),
    decreases s.len(),
{
    if s.len() > 0 && class(s.last()) {
        let shorter = s.drop_last();
        lemma_without_trailing(shorter, class);
        let kept = without_trailing(s, class);
        assert(kept =~= s.take(kept.len() as int));
        assert forall|i: int| kept.len() <= i < s.len() implies class(#[trigger] s[i]) by {
            if i < shorter.len() {
                assert(s[i] == shorter[i]);
            }
        }
    } else {
        assert(s =~= s.take(s.len() as int));
    }
}

/// The last position of a class is where a search from the end stops.
proof fn lemma_last_of_is(s: Seq<char>, class: spec_fn(char) -> bool, at: int)
    requires
        -1 <= at < s.len(),
        at >= 0 ==> class(s[at]),
        forall|i: int| at < i < s.len() ==> !class(#[trigger] s[i]),
    ensures
        last_of(s, class) == at,
    decreases s.len(),
{
    if s.len() > 0 && at != s.len() - 1 {
        lemma_last_of_is(s.drop_last(), class, at);
    }
}

/// What `last_of` finds.
pub proof fn lemma_last_of(s: Seq<char>, class: spec_fn(char) -> bool)
    ensures
        -1 <= last_of(s, class) < s.len(),
        last_of(s, class) >= 0 ==> class(s[last_of(s, class)]),
    decreases s.len(),
{
    if s.len() > 0 && !class(s.last()) {
        lemma_last_of(s.drop_last(), class);
    }
}

/// The characters of a text.
pub fn chars_of(s: &str) -> (chars: Vec<char>)
    ensures
        chars@ == s@,
{
    let mut chars: Vec<char> = Vec::new();
    for c in it: s.chars()
        invariant
            chars@ == it.seq().take(it.index()),
            it.seq() == s@,
    {
        proof {
            assert(it.seq().take(it.index() + 1) =~= it.seq().take(it.index()).push(c));
        }
        chars.push(c);
    }
    proof {
        assert(s@.take(s@.len() as int) =~= s@);
    }
    chars
}

/// Whether two texts are equal.
pub fn same_text(a: &str, b: &str) -> (same: bool)
    ensures
        same == (a@ == b@),
{
    a.to_owned() == b.to_owned()
}

/// Whether a character is white space.
fn is_white(c: char) -> (holds: bool)
    ensures
        holds == white_char(c),
{
    let code: u32 = c as u32;
    (9 <= code && code <= 13) || code == 0x20 || code == 0x85 || code == 0xa0 || code == 0x1680 || (
    0x2000 <= code && code <= 0x200a) || code == 0x2028 || code == 0x2029 || code == 0x202f || code
        == 0x205f || code == 0x3000
}

/// Whether a character is in a set.
fn in_set(c: char, set: &Vec<char>) -> (holds: bool)
    ensures
        holds == set@.contains(c),
{
    let mut i: usize = 0;
    while i < set.len()
        invariant
            i <= set.len(),
            forall|j: int| 0 <= j < i ==> set@[j] != c,
        decreases set.len() - i,
    {
        if set[i] == c {
            return true;
        }
        i = i + 1;
    }
    false
}

/// The text without leading and trailing white space.
pub fn trim(s: &str) -> (inner: &str)
    ensures
        inner@ == trimmed(s@),
{
    let chars = chars_of(s);
    let mut from: usize = 0;
    while from < chars.len() && is_white(chars[from])
        invariant
            from <= chars.len(),
            forall|i: int| 0 <= i < from ==> white()(#[trigger] chars@[i]),
        decreases chars.len() - from,
    {
        from = from + 1;
    }
    let mut to: usize = chars.len();
    while to > from && is_white(chars[to - 1])
        invariant
            from <= to <= chars.len(),
            forall|i: int| to <= i < chars.len() ==> white()(#[trigger] chars@[i]),
        decreases to,
    {
        to = to - 1;
    }
    proof {
        let rest = s@.skip(from as int);
        lemma_without_leading_is(s@, white(), from as int);
        assert forall|i: int| to - from <= i < rest.len() implies white()(#[trigger] rest[i]) by {
            assert(rest[i] == chars@[i + from]);
        }
        lemma_without_trailing_is(rest, white(), to - from);
        assert(rest.take(to - from) =~= s@.subrange(from as int, to as int));
    }
    s.substring_char(from, to)
}

/// The text without leading and trailing characters of a set.
pub fn strip<'a>(s: &'a str, set: &Vec<char>) -> (inner: &'a str)
    ensures
        inner@ == stripped(s@, one_of(set@)),
{
    let chars = chars_of(s);
    let mut from: usize = 0;
    while from < chars.len() && in_set(chars[from], set)
        invariant
            from <= chars.len(),
            forall|i: int| 0 <= i < from ==> one_of(set@)(#[trigger] chars@[i]),
        decreases chars.len() - from,
    {
        from = from + 1;
    }
    let mut to: usize = chars.len();
    while to > from && in_set(chars[to - 1], set)
        invariant
            from <= to <= chars.len(),
            forall|i: int| to <= i < chars.len() ==> one_of(set@)(#[trigger] chars@[i]),
        decreases to,
    {
        to = to - 1;
    }
    proof {
        let rest = s@.skip(from as int);
        lemma_without_leading_is(s@, one_of(set@), from as int);
        assert forall|i: int| to - from <= i < rest.len() implies one_of(set@)(
            #[trigger] rest[i],
        ) by {
            assert(rest[i] == chars@[i + from]);
        }
        lemma_without_trailing_is(rest, one_of(set@), to - from);
        assert(rest.take(to - from) =~= s@.subrange(from as int, to as int));
    }
    s.substring_char(from, to)
}

/// The text without trailing characters of a set.
pub fn strip_trailing<'a>(s: &'a str, set: &Vec<char>) -> (inner: &'a str)
    ensures
        inner@ == without_trailing(s@, one_of(set@)),
{
    let chars = chars_of(s);
    let mut to: usize = chars.len();
    while to > 0 && in_set(chars[to - 1], set)
        invariant
            to <= chars.len(),
            forall|i: int| to <= i < chars.len() ==> one_of(set@)(#[trigger] chars@[i]),
        decreases to,
    {
        to = to - 1;
    }
    proof {
        lemma_without_trailing_is(s@, one_of(set@), to as int);
        assert(s@.take(to as int) =~= s@.subrange(0, to as int));
    }
    s.substring_char(0, to)
}

/// The position of the first character of a set.
pub fn find_any(s: &str, set: &Vec<char>) -> (at: usize)
    ensures
        at == first_of(s@, one_of(set@)),
        at <= s@.len(),
{
    let chars = chars_of(s);
    let mut at: usize = 0;
    while at < chars.len() && !in_set(chars[at], set)
        invariant
            at <= chars.len(),
            forall|i: int| 0 <= i < at ==> !one_of(set@)(#[trigger] chars@[i]),
        decreases chars.len() - at,
    {
        at = at + 1;
    }
    proof {
        lemma_first_of_is(s@, one_of(set@), at as int);
    }
    at
}

/// The first `at` characters.
pub fn take_chars(s: &str, at: usize) -> (start: &str)
    requires
        at <= s@.len(),
    ensures
        start@ == s@.take(at as int),
{
    proof {
        assert(s@.take(at as int) =~= s@.subrange(0, at as int));
    }
    s.substring_char(0, at)
}

/// Everything from the character at `at` on.
pub fn skip_chars(s: &str, at: usize) -> (rest: &str)
    requires
        at <= s@.len(),
    ensures
        rest@ == s@.skip(at as int),
{
    let len: usize = s.unicode_len();
    proof {
        assert(s@.skip(at as int) =~= s@.subrange(at as int, len as int));
    }
    s.substring_char(at, len)
}

/// The pieces between the characters of a set.
pub fn split_any(s: &str, set: &Vec<char>) -> (list: Vec<String>)
    ensures
        texts(list@) == pieces(s@, one_of(set@)),
{
    let mut list: Vec<String> = Vec::new();
    let mut rest: &str = s;
    proof {
        assert(texts(list@) + pieces(rest@, one_of(set@)) =~= pieces(s@, one_of(set@)));
    }
    loop
        invariant
            texts(list@) + pieces(rest@, one_of(set@)) == pieces(s@, one_of(set@)),
        decreases rest@.len(),
    {
        let at: usize = find_any(rest, set);
        let len: usize = rest.unicode_len();
        if at >= len {
            let ghost before = list@;
            list.push(rest.to_owned());
            proof {
                assert(texts(list@) =~= texts(before) + seq![rest@]);
            }
            return list;
        }
        let ghost before = list@;
        let piece: String = take_chars(rest, at).to_owned();
        let next: &str = skip_chars(rest, at + 1);
        list.push(piece);
        proof {
            assert(texts(list@) =~= texts(before) + seq![rest@.take(at as int)]);
            assert(texts(list@) + pieces(next@, one_of(set@)) =~= texts(before) + pieces(
                rest@,
                one_of(set@),
            ));
        }
        rest = next;
    }
}

/// The lines of a text.
pub fn split_lines(s: &str) -> (list: Vec<String>)
    ensures
        texts(list@) == lines(s@),
{
    let feed: Vec<char> = vec!['\n'];
    let mut list: Vec<String> = Vec::new();
    let mut rest: &str = s;
    proof {
        assert(feed@ =~= seq!['\n']);
        assert(texts(list@) + lines(rest@) =~= lines(s@));
    }
    while rest.unicode_len() > 0
        invariant
            feed@ == seq!['\n'],
            texts(list@) + lines(rest@) == lines(s@),
        decreases rest@.len(),
    {
        let at: usize = find_any(rest, &feed);
        let len: usize = rest.unicode_len();
        let ghost before = list@;
        if at >= len {
            list.push(rest.to_owned());
            proof {
                assert(texts(list@) =~= texts(before) + seq![rest@]);
            }
            return list;
        }
        let line: &str = take_chars(rest, at);
        let kept: usize = if at > 0 && line.get_char(at - 1) == '\r' {
            at - 1
        } else {
            at
        };
        let line: &str = take_chars(line, kept);
        let next: &str = skip_chars(rest, at + 1);
        list.push(line.to_owned());
        proof {
            assert(line@ =~= without_return(rest@.take(at as int)));
            assert(texts(list@) =~= texts(before) + seq![line@]);
            assert(texts(list@) + lines(next@) =~= texts(before) + lines(rest@));
        }
        rest = next;
    }
    proof {
        assert(texts(list@) + lines(rest@) =~= texts(list@));
    }
    list
}

/// The words of a text.
pub fn split_words(s: &str) -> (list: Vec<String>)
    ensures
        texts(list@) == words(s@),
{
    let chars = chars_of(s);
    let mut list: Vec<String> = Vec::new();
    let mut from: usize = 0;
    proof {
        assert(s@.skip(0) =~= s@);
        assert(texts(list@) + words(s@.skip(0)) =~= words(s@));
    }
    loop
        invariant
            chars@ == s@,
            from <= chars.len(),
            texts(list@) + words(s@.skip(from as int)) == words(s@),
        decreases chars.len() - from,
    {
        let mut start: usize = from;
        while start < chars.len() && is_white(chars[start])
            invariant
                from <= start <= chars.len(),
                forall|i: int| from <= i < start ==> white()(#[trigger] chars@[i]),
            decreases chars.len() - start,
        {
            start = start + 1;
        }
        proof {
            let tail = s@.skip(from as int);
            assert forall|i: int| 0 <= i < start - from implies white()(#[trigger] tail[i]) by {
                assert(tail[i] == chars@[i + from]);
            }
            lemma_without_leading_is(tail, white(), start - from);
            assert(tail.skip(start - from) =~= s@.skip(start as int));
        }
        if start >= chars.len() {
            proof {
                assert(texts(list@) + words(s@.skip(from as int)) =~= texts(list@));
            }
            return list;
        }
        let mut end: usize = start;
        while end < chars.len() && !is_white(chars[end])
            invariant
                start <= end <= chars.len(),
                forall|i: int| start <= i < end ==> !white()(#[trigger] chars@[i]),
            decreases chars.len() - end,
        {
            end = end + 1;
        }
        let ghost before = list@;
        let word: &str = s.substring_char(start, end);
        list.push(word.to_owned());
        proof {
            let rest = s@.skip(start as int);
            assert forall|i: int| 0 <= i < end - start implies !white()(#[trigger] rest[i]) by {
                assert(rest[i] == chars@[i + start]);
            }
            lemma_first_of_is(rest, white(), end - start);
            assert(rest.take(end - start) =~= word@);
            assert(rest.skip(end - start) =~= s@.skip(end as int));
            assert(texts(list@) =~= texts(before) + seq![word@]);
            assert(texts(list@) + words(s@.skip(end as int)) =~= texts(before) + words(
                s@.skip(from as int),
            ));
        }
        from = end;
    }
}

/// Whether `part` stands in `s` at `at`.
fn is_at(s: &Vec<char>, part: &Vec<char>, at: usize) -> (holds: bool)
    requires
        at <= s.len(),
    ensures
        holds == stands_at(s@, part@, at as int),
{
    if part.len() > s.len() - at {
        return false;
    }
    let mut i: usize = 0;
    while i < part.len()
        invariant
            i <= part.len(),
            at + part.len() <= s.len(),
            forall|j: int| 0 <= j < i ==> s@[at + j] == part@[j],
        decreases part.len() - i,
    {
        if s[at + i] != part[i] {
            proof {
                assert(s@.subrange(at as int, at + part.len())[i as int] != part@[i as int]);
            }
            return false;
        }
        i = i + 1;
    }
    proof {
        assert(s@.subrange(at as int, at + part.len()) =~= part@);
    }
    true
}

/// Whether `s` begins with `part`.
pub fn starts_with(s: &str, part: &str) -> (holds: bool)
    ensures
        holds == begins_with(s@, part@),
{
    is_at(&chars_of(s), &chars_of(part), 0)
}

/// Whether `s` ends with `part`.
pub fn ends_with(s: &str, part: &str) -> (holds: bool)
    ensures
        holds == finishes_with(s@, part@),
{
    let chars = chars_of(s);
    let ending = chars_of(part);
    if ending.len() > chars.len() {
        return false;
    }
    is_at(&chars, &ending, chars.len() - ending.len())
}

/// The first position of `part` in `s`.
fn find_text(s: &str, part: &str) -> (found: Option<usize>)
    ensures
        match found {
            Some(at) => first_at(s@, part@, at as int),
            None => !holds_text(s@, part@),
        },
{
    let chars = chars_of(s);
    let sought = chars_of(part);
    let mut at: usize = 0;
    loop
        invariant
            chars@ == s@,
            sought@ == part@,
            at <= chars.len(),
            forall|i: int| i < at ==> !stands_at(s@, part@, i),
        decreases chars.len() - at,
    {
        if is_at(&chars, &sought, at) {
            return Some(at);
        }
        if at == chars.len() {
            return None;
        }
        at = at + 1;
    }
}

/// Whether `part` stands somewhere in `s`.
pub fn contains(s: &str, part: &str) -> (holds: bool)
    ensures
        holds == holds_text(s@, part@),
{
    match find_text(s, part) {
        Some(_) => true,
        None => false,
    }
}

/// There is only one first position.
proof fn lemma_first_at(s: Seq<char>, part: Seq<char>, at: int)
    requires
        first_at(s, part, at),
    ensures
        split_at_first(s, part) == Some((s.take(at), s.skip(at + part.len()))),
{
    let chosen = choose|i: int| first_at(s, part, i);
    assert(first_at(s, part, chosen));
    assert(stands_at(s, part, at));
    assert(!(chosen < at) && !(at < chosen));
}

/// What stands before and after the first `part`.
pub fn split_once<'a>(s: &'a str, part: &str) -> (halves: Option<(&'a str, &'a str)>)
    ensures
        match halves {
            Some((before, after)) => split_at_first(s@, part@) == Some((before@, after@)),
            None => split_at_first(s@, part@) is None,
        },
{
    match find_text(s, part) {
        Some(at) => {
            proof {
                lemma_first_at(s@, part@, at as int);
            }
            let len: usize = s.unicode_len();
            let width: usize = part.unicode_len();
            assert(at + width <= len);
            Some((take_chars(s, at), skip_chars(s, at + width)))
        },
        None => None,
    }
}

/// What stands before and after the last `c`.
pub fn rsplit_once<'a>(s: &'a str, c: char) -> (halves: Option<(&'a str, &'a str)>)
    ensures
        match halves {
            Some((before, after)) => split_at_last(s@, c) == Some((before@, after@)),
            None => split_at_last(s@, c) is None,
        },
{
    let chars = chars_of(s);
    let ghost class = one_of(seq![c]);
    let mut end: usize = chars.len();
    while end > 0 && chars[end - 1] != c
        invariant
            end <= chars.len(),
            class == one_of(seq![c]),
            forall|i: int| end <= i < chars.len() ==> !class(#[trigger] chars@[i]),
        decreases end,
    {
        end = end - 1;
    }
    proof {
        if end > 0 {
            assert(seq![c][0] == c);
            assert(class(chars@[end - 1]));
        }
        lemma_last_of_is(s@, class, end - 1);
    }
    if end == 0 {
        None
    } else {
        Some((take_chars(s, end - 1), skip_chars(s, end)))
    }
}

/// What follows the `part` that `s` begins with.
pub fn strip_prefix<'a>(s: &'a str, part: &str) -> (rest: Option<&'a str>)
    ensures
        match rest {
            Some(rest) => begins_with(s@, part@) && rest@ == s@.skip(part@.len() as int),
            None => !begins_with(s@, part@),
        },
{
    if starts_with(s, part) {
        let width: usize = part.unicode_len();
        Some(skip_chars(s, width))
    } else {
        None
    }
}

/// What precedes the `part` that `s` ends with.
pub fn strip_suffix<'a>(s: &'a str, part: &str) -> (rest: Option<&'a str>)
    ensures
        match rest {
            Some(rest) => finishes_with(s@, part@) && rest@ == s@.take(s@.len() - part@.len()),
            None => !finishes_with(s@, part@),
        },
{
    if ends_with(s, part) {
        let len: usize = s.unicode_len();
        let width: usize = part.unicode_len();
        Some(take_chars(s, len - width))
    } else {
        None
    }
}

/// The text with its ASCII letters in lower case.
pub fn to_lower(s: &str) -> (lowered: String)
    ensures
        lowered@ == lower(s@),
{
    let chars = chars_of(s);
    let mut lowered = String::new();
    let mut i: usize = 0;
    while i < chars.len()
        invariant
            i <= chars.len(),
            lowered@ == lower(chars@.take(i as int)),
        decreases chars.len() - i,
    {
        let c: char = chars[i];
        let next: char = if 'A' <= c && c <= 'Z' {
            (c as u8 + 32) as char
        } else {
            c
        };
        lowered.push(next);
        i = i + 1;
        proof {
            assert(lowered@ =~= lower(chars@.take(i as int)));
        }
    }
    proof {
        assert(chars@.take(i as int) =~= s@);
    }
    lowered
}

/// The text with its ASCII letters in upper case.
pub fn to_upper(s: &str) -> (raised: String)
    ensures
        raised@ == upper(s@),
{
    let chars = chars_of(s);
    let mut raised = String::new();
    let mut i: usize = 0;
    while i < chars.len()
        invariant
            i <= chars.len(),
            raised@ == upper(chars@.take(i as int)),
        decreases chars.len() - i,
    {
        let c: char = chars[i];
        let next: char = if 'a' <= c && c <= 'z' {
            (c as u8 - 32) as char
        } else {
            c
        };
        raised.push(next);
        i = i + 1;
        proof {
            assert(raised@ =~= upper(chars@.take(i as int)));
        }
    }
    proof {
        assert(chars@.take(i as int) =~= s@);
    }
    raised
}

/// Whether two texts are equal but for the case of their ASCII letters.
pub fn same_ignoring_case(a: &str, b: &str) -> (same: bool)
    ensures
        same == (lower(a@) == lower(b@)),
{
    to_lower(a) == to_lower(b)
}

/// The texts one after the other, with `separator` between them.
pub fn join(list: &Vec<String>, separator: &str) -> (whole: String)
    ensures
        whole@ == joined(texts(list@), separator@),
{
    let mut whole = String::new();
    let mut i: usize = 0;
    while i < list.len()
        invariant
            i <= list.len(),
            whole@ == joined(texts(list@).take(i as int), separator@),
        decreases list.len() - i,
    {
        let ghost sofar = texts(list@).take(i as int);
        let ghost next = texts(list@).take(i + 1);
        proof {
            assert(next.drop_last() =~= sofar);
            assert(next.last() == list@[i as int]@);
        }
        if i > 0 {
            whole.append(separator);
        }
        whole.append(list[i].as_str());
        proof {
            if i == 0 {
                assert(whole@ =~= next[0]);
            }
        }
        i = i + 1;
    }
    proof {
        assert(texts(list@).take(i as int) =~= texts(list@));
    }
    whole
}

/// The decimal numeral of a number.
pub fn to_decimal(n: u64) -> (shown: String)
    ensures
        shown@ == decimal(n as nat),
    decreases n,
{
    let last: u8 = (n % 10) as u8;
    let c: char = (48 + last) as char;
    if n < 10 {
        let mut shown = String::new();
        shown.push(c);
        proof {
            assert(shown@ =~= decimal(n as nat));
        }
        shown
    } else {
        let mut shown = to_decimal(n / 10);
        shown.push(c);
        shown
    }
}

/// The decimal numeral of a signed number.
pub fn to_signed_decimal(n: i32) -> (shown: String)
    ensures
        shown@ == signed_decimal(n as int),
{
    if n < 0 {
        let size: u64 = (-(n as i64)) as u64;
        let mut shown = String::new();
        shown.push('-');
        let digits = to_decimal(size);
        shown.append(digits.as_str());
        proof {
            assert(shown@ =~= seq!['-'] + decimal(size as nat));
        }
        shown
    } else {
        to_decimal(n as u64)
    }
}

/// A prefix of a run of digits denotes no larger number.
proof fn lemma_numeral_grows(s: Seq<char>, i: int)
    requires
        0 <= i <= s.len(),
        all_digits(s),
    ensures
        numeral(s.take(i)) <= numeral(s),
    decreases s.len(),
{
    if i < s.len() {
        lemma_numeral_grows(s.drop_last(), i);
        assert(s.drop_last().take(i) =~= s.take(i));
    } else {
        assert(s.take(i) =~= s);
    }
}

/// The number below `2^16` that a text denotes.
pub fn parse_u16(s: &str) -> (number: Option<u16>)
    ensures
        number == parsed_u16(s@),
{
    let chars = chars_of(s);
    let start: usize = if chars.len() > 0 && chars[0] == '+' {
        1
    } else {
        0
    };
    let ghost digits = s@.skip(start as int);
    proof {
        if start == 0 {
            assert(digits =~= s@);
        }
    }
    if start == chars.len() {
        return None;
    }
    let mut i: usize = start;
    let mut sum: u64 = 0;
    while i < chars.len()
        invariant
            chars@ == s@,
            start <= i <= chars.len(),
            digits == s@.skip(start as int),
            sum <= u16::MAX,
            sum == numeral(digits.take(i - start)),
            forall|j: int| 0 <= j < i - start ==> digit_char(#[trigger] digits[j]),
            digits == without_plus(s@),
        decreases chars.len() - i,
    {
        let c: char = chars[i];
        assert(digits[i - start] == c);
        if c < '0' || c > '9' {
            assert(!digit_char(digits[i - start]));
            return None;
        }
        let value: u64 = (c as u32 - 48) as u64;
        proof {
            let next = digits.take(i + 1 - start);
            assert(next.drop_last() =~= digits.take(i - start));
        }
        sum = sum * 10 + value;
        i = i + 1;
        if sum > u16::MAX as u64 {
            proof {
                if all_digits(digits) {
                    lemma_numeral_grows(digits, i - start);
                }
            }
            return None;
        }
    }
    proof {
        assert(digits.take(i - start) =~= digits);
    }
    Some(sum as u16)
}

/// A text followed by another.
pub fn concat(a: &str, b: &str) -> (whole: String)
    ensures
        whole@ == a@ + b@,
{
    let mut whole = a.to_owned();
    whole.append(b);
    whole
}

/// The numeral of a number is made of digits, and denotes that number.
pub proof fn law_numerals_read_back(n: nat)
    ensures
        decimal(n).len() > 0,
        all_digits(decimal(n)),
        numeral(decimal(n)) == n,
    decreases n,
{
    let d = decimal(n);
    if n < 10 {
        assert(d[0] == digit(n as int));
        assert(numeral(d.drop_last()) == 0);
    } else {
        law_numerals_read_back(n / 10);
        assert(d.drop_last() =~= decimal(n / 10));
        assert(d.last() == digit((n % 10) as int));
    }
}

/// The numeral of a number below `2^16` has no white space around it, and is read as that
/// number.
pub proof fn law_parsed_numerals(n: u16)
    ensures
        trimmed(decimal(n as nat)) == decimal(n as nat),
        parsed_u16(decimal(n as nat)) == Some(n),
{
    let d = decimal(n as nat);
    law_numerals_read_back(n as nat);
    assert(digit_char(d[0]));
    assert(digit_char(d[d.len() - 1]));
    lemma_without_leading_is(d, white(), 0);
    lemma_without_trailing_is(d, white(), d.len() as int);
    assert(d.skip(0) =~= d);
    assert(d.take(d.len() as int) =~= d);
}

/// A text is parted at the last of a character where what follows does not hold it.
pub proof fn law_parts_at_the_last(before: Seq<char>, c: char, after: Seq<char>)
    requires
        !after.contains(c),
    ensures
        split_at_last(before + seq![c] + after, c) == Some((before, after)),
{
    let whole = before + seq![c] + after;
    let at = before.len() as int;
    let class = one_of(seq![c]);
    assert(seq![c][0] == c);
    assert(class(whole[at]));
    assert forall|i: int| at < i < whole.len() implies !class(#[trigger] whole[i]) by {
        assert(whole[i] == after[i - at - 1]);
    }
    lemma_last_of_is(whole, class, at);
    assert(whole.take(at) =~= before);
    assert(whole.skip(at + 1) =~= after);
}

/// No white space.
pub open spec fn solid(s: Seq<char>) -> bool {
    forall|i: int| 0 <= i < s.len() ==> !white_char(#[trigger] s[i])
}

/// Two runs without white space, with a blank between them, are two words.
pub proof fn law_words_read_back(first: Seq<char>, second: Seq<char>)
    requires
        first.len() > 0,
        second.len() > 0,
        solid(first),
        solid(second),
    ensures
        words(first + seq![' '] + second) == seq![first, second],
{
    let class = white();
    let whole = first + seq![' '] + second;
    let n = first.len() as int;
    assert(whole[0] == first[0]);
    assert(without_leading(whole, class) == whole);
    assert forall|i: int| 0 <= i < n implies !class(#[trigger] whole[i]) by {
        assert(whole[i] == first[i]);
    }
    assert(whole[n] == ' ');
    lemma_first_of_is(whole, class, n);
    assert(whole.take(n) =~= first);
    let rest = whole.skip(n);
    assert(rest[0] == ' ');
    assert(rest.skip(1) =~= second);
    assert(without_leading(second, class) == second);
    assert(without_leading(rest, class) == second);
    lemma_first_of_is(second, class, second.len() as int);
    assert(second.take(second.len() as int) =~= second);
    assert(second.skip(second.len() as int) =~= seq![]);
    assert(without_leading(Seq::<char>::empty(), class).len() == 0);
    assert(words(Seq::<char>::empty()) =~= seq![]);
    assert(words(second) =~= seq![second]);
    assert(words(rest) =~= seq![second]);
    assert(words(whole) =~= seq![first, second]);
}

/// A blank, a control that moves the cursor, or one of the wide blanks of other scripts.
pub open spec fn blank(c: char) -> bool {
    ||| '\t' <= c <= '\r'
    ||| ' ' <= c <= ' '
    ||| '\u{85}' <= c <= '\u{85}'
    ||| '\u{a0}' <= c <= '\u{a0}'
    ||| '\u{1680}' <= c <= '\u{1680}'
    ||| '\u{2000}' <= c <= '\u{200a}'
    ||| '\u{2028}' <= c <= '\u{2029}'
    ||| '\u{202f}' <= c <= '\u{202f}'
    ||| '\u{205f}' <= c <= '\u{205f}'
    ||| '\u{3000}' <= c <= '\u{3000}'
}

/// Blanks are white space, and there is no other white space.
proof fn lemma_blank(c: char)
    ensures
        blank(c) <==> white_char(c),
{
}

/// Blanks around a text go, and nothing else does: what is left begins and ends with something
/// other than a blank, or is empty.
pub proof fn law_trimming_takes_the_blanks_around(
    before: Seq<char>,
    core: Seq<char>,
    after: Seq<char>,
)
    requires
        forall|i: int| 0 <= i < before.len() ==> blank(#[trigger] before[i]),
        forall|i: int| 0 <= i < after.len() ==> blank(#[trigger] after[i]),
        core.len() > 0 ==> !blank(core[0]) && !blank(core.last()),
    ensures
        trimmed(before + core + after) == core,
{
    let whole = before + core + after;
    let class = white();
    let n = before.len() as int;
    if core.len() > 0 {
        assert forall|i: int| 0 <= i < n implies class(#[trigger] whole[i]) by {
            assert(whole[i] == before[i]);
            lemma_blank(before[i]);
        }
        assert(whole[n] == core[0]);
        lemma_blank(core[0]);
        lemma_blank(core.last());
        lemma_without_leading_is(whole, class, n);
        let rest = whole.skip(n);
        let to = core.len() as int;
        assert forall|i: int| to <= i < rest.len() implies class(#[trigger] rest[i]) by {
            assert(rest[i] == after[i - to]);
            lemma_blank(after[i - to]);
        }
        assert(rest[to - 1] == core.last());
        lemma_without_trailing_is(rest, class, to);
        assert(rest.take(to) =~= core);
    } else {
        assert forall|i: int| 0 <= i < whole.len() implies class(#[trigger] whole[i]) by {
            if i < n {
                assert(whole[i] == before[i]);
            } else {
                assert(whole[i] == after[i - n]);
            }
            lemma_blank(whole[i]);
        }
        lemma_without_leading_is(whole, class, whole.len() as int);
        let rest = whole.skip(whole.len() as int);
        lemma_without_trailing_is(rest, class, 0);
        assert(rest.take(0) =~= core);
    }
}

/// Where a text ends.
pub proof fn law_endings(s: &str, part: &str, holds: bool)
    requires
        call_ensures(ends_with, (s, part), holds),
    ensures
        holds <==> exists|stem: Seq<char>| s@ == #[trigger] (stem + part@),
{
    lemma_ending(s@, part@);
}

/// A text ends with another where that is added to some text.
pub proof fn lemma_ending(s: Seq<char>, part: Seq<char>)
    ensures
        finishes_with(s, part) <==> exists|stem: Seq<char>| s == #[trigger] (stem + part),
{
    let at = s.len() - part.len();
    if finishes_with(s, part) {
        assert(s =~= s.take(at) + part);
    }
    if exists|stem: Seq<char>| s == #[trigger] (stem + part) {
        let stem = choose|stem: Seq<char>| s == #[trigger] (stem + part);
        assert(s.subrange(at, at + part.len()) =~= part);
    }
}

/// Where a text begins.
pub proof fn law_beginnings(s: &str, part: &str, holds: bool)
    requires
        call_ensures(starts_with, (s, part), holds),
    ensures
        holds <==> exists|rest: Seq<char>| s@ == #[trigger] (part@ + rest),
{
    if begins_with(s@, part@) {
        assert(s@ =~= part@ + s@.skip(part@.len() as int));
    }
    if exists|rest: Seq<char>| s@ == #[trigger] (part@ + rest) {
        let rest = choose|rest: Seq<char>| s@ == #[trigger] (part@ + rest);
        assert(s@.subrange(0, part@.len() as int) =~= part@);
    }
}

/// A text holds another where there is something before it and something after it.
pub proof fn law_contents(s: &str, part: &str, holds: bool)
    requires
        call_ensures(contains, (s, part), holds),
    ensures
        holds <==> exists|before: Seq<char>, after: Seq<char>|
            s@ == #[trigger] (before + part@ + after),
{
    lemma_held(s@, part@);
}

/// A text stands in another where there is something before it and something after it.
pub proof fn lemma_held(s: Seq<char>, part: Seq<char>)
    ensures
        holds_text(s, part) <==> exists|before: Seq<char>, after: Seq<char>|
            s == #[trigger] (before + part + after),
{
    if holds_text(s, part) {
        let at = choose|at: int| stands_at(s, part, at);
        assert(s =~= s.take(at) + part + s.skip(at + part.len()));
    }
    if exists|before: Seq<char>, after: Seq<char>| s == #[trigger] (before + part + after) {
        let (before, after) = choose|before: Seq<char>, after: Seq<char>|
            s == #[trigger] (before + part + after);
        let at = before.len() as int;
        assert(s.subrange(at, at + part.len()) =~= part);
        assert(stands_at(s, part, at));
    }
}

/// A text is parted at the first place where the mark stands: what is before, the mark, and what
/// is after make up the text, and the mark stands nowhere before.
pub proof fn law_parts_at_the_first(before: Seq<char>, mark: Seq<char>, after: Seq<char>)
    requires
        forall|at: int|
            0 <= at < before.len() ==> (#[trigger] (before + mark + after).subrange(
                at,
                at + mark.len(),
            )) != mark,
    ensures
        split_at_first(before + mark + after, mark) == Some((before, after)),
{
    let whole = before + mark + after;
    let at = before.len() as int;
    assert(whole.subrange(at, at + mark.len()) =~= mark);
    assert(stands_at(whole, mark, at));
    assert forall|i: int| i < at implies !stands_at(whole, mark, i) by {
        if 0 <= i {
            assert(whole.subrange(i, i + mark.len()) != mark);
        }
    }
    lemma_first_at(whole, mark, at);
    assert(whole.take(at) =~= before);
    assert(whole.skip(at + mark.len()) =~= after);
}

/// What a text is parted into at a mark makes up the text, and what is before the mark does not
/// reach past another one.
pub proof fn lemma_parts_at_the_first(s: Seq<char>, mark: Seq<char>)
    ensures
        split_at_first(s, mark) matches Some((before, after)) ==> s == before + mark + after
            && forall|at: int|
            0 <= at < before.len() ==> #[trigger] s.subrange(at, at + mark.len()) != mark,
        split_at_first(s, mark) is None ==> !holds_text(s, mark),
{
    if holds_text(s, mark) {
        lemma_some_first_at(s, mark, choose|at: int| stands_at(s, mark, at));
        let at = choose|at: int| first_at(s, mark, at);
        assert(stands_at(s, mark, at));
        assert(s =~= s.take(at) + mark + s.skip(at + mark.len()));
        assert forall|i: int| 0 <= i < at implies #[trigger] s.subrange(i, i + mark.len())
            != mark by {
            assert(!stands_at(s, mark, i));
        }
    }
}

/// Where a text stands in another, there is a first position of it.
proof fn lemma_some_first_at(s: Seq<char>, part: Seq<char>, at: int)
    requires
        stands_at(s, part, at),
    ensures
        exists|first: int| first_at(s, part, first),
    decreases at,
{
    if forall|i: int| i < at ==> !stands_at(s, part, i) {
        assert(first_at(s, part, at));
    } else {
        let i = choose|i: int| i < at && stands_at(s, part, i);
        lemma_some_first_at(s, part, i);
    }
}

/// Two texts are the same but for the case of their letters where each pair of their characters
/// is: the same character, or the two forms of one letter of the alphabet.
pub proof fn law_case_is_that_of_letters(a: &str, b: &str, same: bool)
    requires
        call_ensures(same_ignoring_case, (a, b), same),
    ensures
        same <==> a@.len() == b@.len() && forall|i: int|
            0 <= i < a@.len() ==> {
                let (x, y) = ((#[trigger] a@[i]) as int, b@[i] as int);
                x == y || (65 <= x <= 90 && y == x + 32) || (65 <= y <= 90 && x == y + 32)
            },
{
    if same {
        assert(lower(a@).len() == lower(b@).len());
        assert forall|i: int| 0 <= i < a@.len() implies {
            let (x, y) = ((#[trigger] a@[i]) as int, b@[i] as int);
            x == y || (65 <= x <= 90 && y == x + 32) || (65 <= y <= 90 && x == y + 32)
        } by {
            assert(lower(a@)[i] == lower(b@)[i]);
        }
    } else if a@.len() == b@.len() && forall|i: int|
        0 <= i < a@.len() ==> {
            let (x, y) = ((#[trigger] a@[i]) as int, b@[i] as int);
            x == y || (65 <= x <= 90 && y == x + 32) || (65 <= y <= 90 && x == y + 32)
        } {
        assert forall|i: int| 0 <= i < a@.len() implies lower(a@)[i] == lower(b@)[i] by {
            let (x, y) = (a@[i] as int, b@[i] as int);
            assert(x == y || (65 <= x <= 90 && y == x + 32) || (65 <= y <= 90 && x == y + 32));
        }
        assert(lower(a@) =~= lower(b@));
    }
}

/// Raising and lowering change the letters of the alphabet, and no other character.
pub proof fn law_case_is_changed_letter_by_letter(s: &str, lowered: String, raised: String)
    requires
        call_ensures(to_lower, (s,), lowered),
        call_ensures(to_upper, (s,), raised),
    ensures
        lowered@.len() == s@.len() && raised@.len() == s@.len(),
        forall|i: int|
            0 <= i < s@.len() ==> (lowered@[i] as int) == {
                let x = (#[trigger] s@[i]) as int;
                if 65 <= x <= 90 {
                    x + 32
                } else {
                    x
                }
            },
        forall|i: int|
            0 <= i < s@.len() ==> (raised@[i] as int) == {
                let x = (#[trigger] s@[i]) as int;
                if 97 <= x <= 122 {
                    x - 32
                } else {
                    x
                }
            },
{
}

/// How a text is parted into lines: what stands before a line feed is one, without a carriage
/// return at its end, and what follows is parted likewise. What follows the last line feed is a
/// line of its own unless nothing does.
pub proof fn law_lines_end_with_line_feeds(first: Seq<char>, rest: Seq<char>)
    requires
        !first.contains('\n'),
    ensures
        first.len() > 0 ==> lines(first) == seq![first],
        first.len() == 0 ==> lines(first) == Seq::<Seq<char>>::empty(),
        first.len() > 0 && first.last() == '\r' ==> lines(first + seq!['\n'] + rest) == seq![
            first.drop_last(),
        ] + lines(rest),
        first.len() == 0 || first.last() != '\r' ==> lines(first + seq!['\n'] + rest) == seq![first]
            + lines(rest),
{
    let class = one_of(seq!['\n']);
    assert(seq!['\n'][0] == '\n');
    let whole = first + seq!['\n'] + rest;
    let n = first.len() as int;
    assert forall|i: int| 0 <= i < n implies !class(#[trigger] first[i]) by {
        assert(first.contains(first[i]));
    }
    lemma_first_of_is(first, class, n);
    assert forall|i: int| 0 <= i < n implies !class(#[trigger] whole[i]) by {
        assert(whole[i] == first[i]);
    }
    assert(whole[n] == '\n');
    assert(class(whole[n]));
    lemma_first_of_is(whole, class, n);
    assert(whole.take(n) =~= first);
    assert(whole.skip(n + 1) =~= rest);
}

/// How a text is parted into words: white space before, between and after them is left out.
pub proof fn law_words_are_parted_by_blanks(before: Seq<char>, word: Seq<char>, rest: Seq<char>)
    requires
        forall|i: int| 0 <= i < before.len() ==> blank(#[trigger] before[i]),
        word.len() > 0,
        forall|i: int| 0 <= i < word.len() ==> !blank(#[trigger] word[i]),
        rest.len() > 0 ==> blank(rest[0]),
    ensures
        words(before + word + rest) == seq![word] + words(rest),
        words(before) == Seq::<Seq<char>>::empty(),
{
    let class = white();
    let whole = before + word + rest;
    let n = before.len() as int;
    let m = word.len() as int;
    assert forall|i: int| 0 <= i < n implies class(#[trigger] whole[i]) by {
        assert(whole[i] == before[i]);
        lemma_blank(before[i]);
    }
    assert(whole[n] == word[0]);
    lemma_blank(word[0]);
    lemma_without_leading_is(whole, class, n);
    let tail = whole.skip(n);
    assert forall|i: int| 0 <= i < m implies !class(#[trigger] tail[i]) by {
        assert(tail[i] == word[i]);
        lemma_blank(word[i]);
    }
    if m < tail.len() {
        assert(tail[m] == rest[0]);
        lemma_blank(rest[0]);
    }
    lemma_first_of_is(tail, class, m);
    assert(tail.take(m) =~= word);
    assert(tail.skip(m) =~= rest);
    assert forall|i: int| 0 <= i < n implies class(#[trigger] before[i]) by {
        lemma_blank(before[i]);
    }
    lemma_without_leading_is(before, class, n);
    assert(before.skip(n).len() == 0);
    assert(words(before) =~= Seq::<Seq<char>>::empty());
}

/// Texts are joined with the separator between two of them, and nowhere else.
pub proof fn law_joining_puts_separators_between(
    list: Seq<Seq<char>>,
    separator: Seq<char>,
    last: Seq<char>,
)
    ensures
        joined(Seq::<Seq<char>>::empty(), separator) == Seq::<char>::empty(),
        joined(seq![last], separator) == last,
        list.len() > 0 ==> joined(list.push(last), separator) == joined(list, separator) + separator
            + last,
{
    let more = list.push(last);
    assert(more.drop_last() =~= list);
    assert(more.last() == last);
    assert(joined(Seq::<Seq<char>>::empty(), separator) =~= Seq::<char>::empty());
}

/// What is trimmed begins and ends with something other than white space, and stays as it is when
/// it is trimmed again.
pub proof fn lemma_trimmed_twice(s: Seq<char>)
    ensures
        trimmed(trimmed(s)) == trimmed(s),
        trimmed(s).len() > 0 ==> !white_char(trimmed(s)[0]) && !white_char(trimmed(s).last()),
{
    let class = white();
    let lead = without_leading(s, class);
    let inner = trimmed(s);
    lemma_without_leading(s, class);
    lemma_without_trailing(lead, class);
    if inner.len() > 0 {
        assert(inner[0] == lead[0]);
        lemma_without_leading_is(inner, class, 0);
        assert(inner.skip(0) =~= inner);
        lemma_without_trailing_is(inner, class, inner.len() as int);
        assert(inner.take(inner.len() as int) =~= inner);
    } else {
        lemma_without_leading_is(inner, class, 0);
        assert(inner.skip(0) =~= inner);
        lemma_without_trailing_is(inner, class, 0);
        assert(inner.take(0) =~= inner);
    }
}

/// Numerals are written digit by digit, the last one for what is below ten; a minus sign stands
/// before what is below zero.
pub proof fn law_numerals_are_written_digit_by_digit(n: nat, d: nat)
    requires
        d < 10,
    ensures
        decimal(d).len() == 1 && decimal(d)[0] as int == 48 + d,
        n > 0 ==> decimal(10 * n + d) == decimal(n) + decimal(d),
        signed_decimal(n as int) == decimal(n),
        n > 0 ==> signed_decimal(-(n as int)) == seq!['-'] + decimal(n),
{
    let whole = 10 * n + d;
    assert(whole / 10 == n && whole % 10 == d) by (nonlinear_arith)
        requires
            whole == 10 * n + d,
            d < 10,
    ;
    if n > 0 {
        assert(decimal(whole) =~= decimal(n) + decimal(d));
    }
}

/// Which texts are read as a number below `2^16`: one or more digits, after a plus sign or not.
/// Zeros before the digits do not change the number, and a numeral of a larger one is refused.
pub proof fn law_digits_are_read_as_numbers(s: &str, number: Option<u16>)
    requires
        call_ensures(parse_u16, (s,), number),
    ensures
        number is Some ==> s@.len() > 0 && (forall|i: int|
            1 <= i < s@.len() ==> '0' <= #[trigger] s@[i] <= '9') && ('0' <= s@[0] <= '9' || (s@[0]
            == '+' && s@.len() > 1)),
        forall|n: nat| s@ == #[trigger] decimal(n) ==> (n < 65536 ==> number == Some(n as u16)) && (n
            >= 65536 ==> number is None),
        forall|n: nat| s@ == seq!['+'] + #[trigger] decimal(n) ==> (n < 65536 ==> number == Some(
            n as u16,
        )) && (n >= 65536 ==> number is None),
        forall|n: nat| s@ == seq!['0'] + #[trigger] decimal(n) ==> (n < 65536 ==> number == Some(
            n as u16,
        )) && (n >= 65536 ==> number is None),
{
    let digits = without_plus(s@);
    if number is Some {
        assert(digit_char(digits[0]));
        assert forall|i: int| 1 <= i < s@.len() implies '0' <= #[trigger] s@[i] <= '9' by {
            if s@[0] == '+' {
                assert(digit_char(digits[i - 1]));
                assert(digits[i - 1] == s@[i]);
            } else {
                assert(digit_char(digits[i]));
            }
        }
    }
    assert forall|n: nat| s@ == #[trigger] decimal(n) implies (n < 65536 ==> number == Some(
        n as u16,
    )) && (n >= 65536 ==> number is None) by {
        law_numerals_read_back(n);
        assert(digit_char(decimal(n)[0]));
    }
    assert forall|n: nat| s@ == seq!['+'] + #[trigger] decimal(n) implies (n < 65536 ==> number
        == Some(n as u16)) && (n >= 65536 ==> number is None) by {
        law_numerals_read_back(n);
        assert(s@.skip(1) =~= decimal(n));
    }
    assert forall|n: nat| s@ == seq!['0'] + #[trigger] decimal(n) implies (n < 65536 ==> number
        == Some(n as u16)) && (n >= 65536 ==> number is None) by {
        law_numerals_read_back(n);
        lemma_leading_zero(decimal(n));
        assert forall|i: int| 0 <= i < s@.len() implies digit_char(#[trigger] s@[i]) by {
            if i > 0 {
                assert(s@[i] == decimal(n)[i - 1]);
            }
        }
    }
}

/// A zero before digits does not change what they denote.
proof fn lemma_leading_zero(digits: Seq<char>)
    ensures
        numeral(seq!['0'] + digits) == numeral(digits),
    decreases digits.len(),
{
    let more = seq!['0'] + digits;
    if digits.len() == 0 {
        assert(more.drop_last() =~= Seq::<char>::empty());
        assert(more.last() == '0');
        assert(numeral(more.drop_last()) == 0);
    } else {
        assert(more.drop_last() =~= seq!['0'] + digits.drop_last());
        assert(more.last() == digits.last());
        lemma_leading_zero(digits.drop_last());
    }
}

/// What is joined holds each of the texts.
pub proof fn lemma_joined_holds(list: Seq<Seq<char>>, separator: Seq<char>, k: int) -> (parts: (
    Seq<char>,
    Seq<char>,
))
    requires
        0 <= k < list.len(),
    ensures
        joined(list, separator) == parts.0 + list[k] + parts.1,
    decreases list.len(),
{
    if list.len() == 1 {
        assert(list[0] =~= Seq::<char>::empty() + list[0] + Seq::<char>::empty());
        (Seq::empty(), Seq::empty())
    } else if k == list.len() - 1 {
        let before = joined(list.drop_last(), separator) + separator;
        assert(joined(list, separator) =~= before + list[k] + Seq::<char>::empty());
        (before, Seq::empty())
    } else {
        let (before, after) = lemma_joined_holds(list.drop_last(), separator, k);
        let more = after + separator + list.last();
        assert(joined(list, separator) =~= before + list[k] + more);
        (before, more)
    }
}

} // verus!
