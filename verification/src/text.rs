//! Texts as sequences of characters: searching, trimming, splitting, and
//! reading and writing numbers.

use vstd::prelude::*;

verus! {

/// `String::push` appends the given character to the end of the text.
pub assume_specification[ String::push ](s: &mut String, c: char)
    ensures
        final(s)@ == old(s)@.push(c),
;

/// What each of a list of texts holds.
pub open spec fn texts(list: Seq<String>) -> Seq<Seq<char>> {
    Seq::new(list.len(), |i: int| list[i]@)
}

/// What a text that may be absent holds.
pub open spec fn opt_text(value: Option<String>) -> Option<Seq<char>> {
    match value {
        Some(s) => Some(s@),
        None => None,
    }
}

/// The characters that Unicode calls white space.
pub open spec fn is_space(c: char) -> bool {
    ||| '\u{9}' <= c <= '\u{d}'
    ||| c == ' '
    ||| c == '\u{85}'
    ||| c == '\u{a0}'
    ||| c == '\u{1680}'
    ||| '\u{2000}' <= c <= '\u{200a}'
    ||| c == '\u{2028}'
    ||| c == '\u{2029}'
    ||| c == '\u{202f}'
    ||| c == '\u{205f}'
    ||| c == '\u{3000}'
}

/// The text from its first character that is not white space.
pub open spec fn trim_start(s: Seq<char>) -> Seq<char>
    decreases s.len(),
{
    if s.len() > 0 && is_space(s[0]) {
        trim_start(s.skip(1))
    } else {
        s
    }
}

/// The text up to its last character that is not white space.
pub open spec fn trim_end(s: Seq<char>) -> Seq<char>
    decreases s.len(),
{
    if s.len() > 0 && is_space(s.last()) {
        trim_end(s.drop_last())
    } else {
        s
    }
}

/// The text without the white space at its two ends.
pub open spec fn trimmed(s: Seq<char>) -> Seq<char> {
    trim_end(trim_start(s))
}

/// The text from its first character other than `c`.
pub open spec fn strip_start(s: Seq<char>, c: char) -> Seq<char>
    decreases s.len(),
{
    if s.len() > 0 && s[0] == c {
        strip_start(s.skip(1), c)
    } else {
        s
    }
}

/// The text up to its last character other than `c`.
pub open spec fn strip_end(s: Seq<char>, c: char) -> Seq<char>
    decreases s.len(),
{
    if s.len() > 0 && s.last() == c {
        strip_end(s.drop_last(), c)
    } else {
        s
    }
}

/// `part` stands in `s` from position `i` on.
pub open spec fn occurs_at(s: Seq<char>, part: Seq<char>, i: int) -> bool {
    0 <= i && i + part.len() <= s.len() && s.subrange(i, i + part.len()) == part
}

/// The first position at or after `from` where `part` stands in `s`.
pub open spec fn find_from(s: Seq<char>, part: Seq<char>, from: int) -> Option<int>
    decreases s.len() + 1 - from,
{
    if from < 0 || from + part.len() > s.len() {
        None
    } else if occurs_at(s, part, from) {
        Some(from)
    } else {
        find_from(s, part, from + 1)
    }
}

/// The first position where `part` stands in `s`.
pub open spec fn find_text(s: Seq<char>, part: Seq<char>) -> Option<int> {
    find_from(s, part, 0)
}

/// What follows the first place where `part` stands in `s`.
pub open spec fn after_text(s: Seq<char>, part: Seq<char>) -> Option<Seq<char>> {
    match find_text(s, part) {
        Some(i) => Some(s.skip(i + part.len())),
        None => None,
    }
}

/// `part` stands somewhere in `s`.
pub open spec fn has_text(s: Seq<char>, part: Seq<char>) -> bool {
    exists|i: int| occurs_at(s, part, i)
}

/// The pieces of `s` between the separators `sep`; never empty.
pub open spec fn pieces(s: Seq<char>, sep: char) -> Seq<Seq<char>>
    decreases s.len(),
{
    if s.contains(sep) {
        let i = s.index_of_first(sep)->0;
        if 0 <= i < s.len() {
            seq![s.take(i)] + pieces(s.skip(i + 1), sep)
        } else {
            seq![s]
        }
    } else {
        seq![s]
    }
}

/// A line without the carriage return in front of its line feed.
pub open spec fn without_cr(line: Seq<char>) -> Seq<char> {
    if line.len() > 0 && line.last() == '\r' {
        line.drop_last()
    } else {
        line
    }
}

/// The lines of `s`: each ends at a line feed, which a carriage return may
/// precede; what follows the last line feed is a line unless it is empty.
pub open spec fn lines_of(s: Seq<char>) -> Seq<Seq<char>>
    decreases s.len(),
{
    if s.contains('\n') {
        let i = s.index_of_first('\n')->0;
        if 0 <= i < s.len() {
            seq![without_cr(s.take(i))] + lines_of(s.skip(i + 1))
        } else {
            seq![s]
        }
    } else if s.len() == 0 {
        seq![]
    } else {
        seq![s]
    }
}

/// The characters of `s` in front of its first white space.
pub open spec fn until_space(s: Seq<char>) -> Seq<char>
    decreases s.len(),
{
    if s.len() == 0 || is_space(s[0]) {
        seq![]
    } else {
        seq![s[0]] + until_space(s.skip(1))
    }
}

/// The first word of `s`; empty where `s` holds white space only.
pub open spec fn first_word(s: Seq<char>) -> Seq<char> {
    until_space(trim_start(s))
}

/// A letter from `A` to `Z` in lower case; any other character itself.
pub open spec fn ascii_lower_char(c: char) -> char {
    if 'A' <= c <= 'Z' {
        ((c as u32 + 32) as u32) as char
    } else {
        c
    }
}

/// The text with its letters from `A` to `Z` in lower case.
pub open spec fn ascii_lower(s: Seq<char>) -> Seq<char> {
    Seq::new(s.len(), |i: int| ascii_lower_char(s[i]))
}

/// The character of a digit below ten.
pub open spec fn digit_char(d: nat) -> char {
    (48 + d) as char
}

/// The decimal digits of `n`, without leading zeros.
pub open spec fn decimal(n: nat) -> Seq<char>
    decreases n,
{
    if n < 10 {
        seq![digit_char(n)]
    } else {
        decimal(n / 10).push(digit_char(n % 10))
    }
}

pub open spec fn is_digit(c: char) -> bool {
    '0' <= c <= '9'
}

pub open spec fn all_digits(s: Seq<char>) -> bool {
    forall|i: int| 0 <= i < s.len() ==> is_digit(#[trigger] s[i])
}

/// The number that a sequence of decimal digits denotes.
pub open spec fn digits_value(s: Seq<char>) -> nat
    decreases s.len(),
{
    if s.len() == 0 {
        0
    } else {
        digits_value(s.drop_last()) * 10 + (s.last() as nat - 48) as nat
    }
}

/// `s` without one leading plus sign.
pub open spec fn without_plus(s: Seq<char>) -> Seq<char> {
    if s.len() > 0 && s[0] == '+' {
        s.skip(1)
    } else {
        s
    }
}

/// The number that `s` writes: decimal digits, at least one, which a plus sign
/// may precede.
pub open spec fn unsigned(s: Seq<char>) -> Option<nat> {
    let digits = without_plus(s);
    if digits.len() > 0 && all_digits(digits) {
        Some(digits_value(digits))
    } else {
        None
    }
}

/// The number that `s` writes, where it is no larger than `max`.
pub open spec fn unsigned_upto(s: Seq<char>, max: nat) -> Option<nat> {
    match unsigned(s) {
        Some(n) => if n <= max { Some(n) } else { None },
        None => None,
    }
}

/// The texts of a list with `sep` between each and the next.
pub open spec fn joined(list: Seq<Seq<char>>, sep: Seq<char>) -> Seq<char>
    decreases list.len(),
{
    if list.len() == 0 {
        seq![]
    } else if list.len() == 1 {
        list[0]
    } else {
        joined(list.drop_last(), sep) + sep + list.last()
    }
}

// ---------------------------------------------------------------------------

pub fn text_eq(a: &str, b: &str) -> (r: bool)
    ensures
        r == (a@ == b@),
{
    a.to_owned() == b.to_owned()
}

/// The characters of a text.
pub fn chars_of(s: &str) -> (r: Vec<char>)
    ensures
        r@ == s@,
{
    let mut r: Vec<char> = Vec::new();
    for c in it: s.chars()
        invariant
            it.seq() == s@,
            r@ == s@.take(it.index() as int),
    {
        r.push(c);
        assert(s@.take(it.index() + 1) == s@.take(it.index() as int).push(c));
    }
    assert(s@.take(s@.len() as int) == s@);
    r
}

/// The text that the characters `chars[from..to]` make up.
pub fn text_of(chars: &Vec<char>, from: usize, to: usize) -> (r: String)
    requires
        from <= to <= chars@.len(),
    ensures
        r@ == chars@.subrange(from as int, to as int),
{
    let mut r: String = String::new();
    let mut i: usize = from;
    while i < to
        invariant
            from <= i <= to <= chars@.len(),
            r@ == chars@.subrange(from as int, i as int),
        decreases to - i,
    {
        r.push(chars[i]);
        i = i + 1;
        assert(chars@.subrange(from as int, i as int) == chars@.subrange(
            from as int,
            i - 1,
        ).push(chars@[i - 1]));
    }
    r
}

pub fn exec_is_space(c: char) -> (r: bool)
    ensures
        r == is_space(c),
{
    ('\u{9}' <= c && c <= '\u{d}') || c == ' ' || c == '\u{85}' || c == '\u{a0}' || c == '\u{1680}'
        || ('\u{2000}' <= c && c <= '\u{200a}') || c == '\u{2028}' || c == '\u{2029}' || c
        == '\u{202f}' || c == '\u{205f}' || c == '\u{3000}'
}

pub fn trim(s: &str) -> (r: String)
    ensures
        r@ == trimmed(s@),
{
    let chars: Vec<char> = chars_of(s);
    let mut from: usize = 0;
    assert(s@.skip(0) == s@);
    while from < chars.len() && exec_is_space(chars[from])
        invariant
            chars@ == s@,
            from <= chars@.len(),
            trim_start(s@) == trim_start(s@.skip(from as int)),
        decreases chars@.len() - from,
    {
        assert(s@.skip(from as int).skip(1) == s@.skip(from + 1));
        from = from + 1;
    }
    let ghost rest = s@.skip(from as int);
    assert(trim_start(s@) == rest);
    let mut to: usize = chars.len();
    assert(s@.subrange(from as int, to as int) == rest);
    while from < to && exec_is_space(chars[to - 1])
        invariant
            chars@ == s@,
            from <= to <= chars@.len(),
            trim_end(rest) == trim_end(s@.subrange(from as int, to as int)),
        decreases to,
    {
        assert(s@.subrange(from as int, to as int).drop_last() == s@.subrange(
            from as int,
            to - 1,
        ));
        to = to - 1;
    }
    text_of(&chars, from, to)
}

/// `s` without the characters `c` at its two ends.
pub fn trim_matches(s: &str, c: char) -> (r: String)
    ensures
        r@ == strip_end(strip_start(s@, c), c),
{
    let chars: Vec<char> = chars_of(s);
    let mut from: usize = 0;
    assert(s@.skip(0) == s@);
    while from < chars.len() && chars[from] == c
        invariant
            chars@ == s@,
            from <= chars@.len(),
            strip_start(s@, c) == strip_start(s@.skip(from as int), c),
        decreases chars@.len() - from,
    {
        assert(s@.skip(from as int).skip(1) == s@.skip(from + 1));
        from = from + 1;
    }
    let ghost rest = s@.skip(from as int);
    assert(strip_start(s@, c) == rest);
    let mut to: usize = chars.len();
    assert(s@.subrange(from as int, to as int) == rest);
    while from < to && chars[to - 1] == c
        invariant
            chars@ == s@,
            from <= to <= chars@.len(),
            strip_end(rest, c) == strip_end(s@.subrange(from as int, to as int), c),
        decreases to,
    {
        assert(s@.subrange(from as int, to as int).drop_last() == s@.subrange(
            from as int,
            to - 1,
        ));
        to = to - 1;
    }
    text_of(&chars, from, to)
}

/// `s` without the characters `c` at its start.
pub fn trim_start_matches(s: &str, c: char) -> (r: String)
    ensures
        r@ == strip_start(s@, c),
{
    let chars: Vec<char> = chars_of(s);
    let mut from: usize = 0;
    assert(s@.skip(0) == s@);
    while from < chars.len() && chars[from] == c
        invariant
            chars@ == s@,
            from <= chars@.len(),
            strip_start(s@, c) == strip_start(s@.skip(from as int), c),
        decreases chars@.len() - from,
    {
        assert(s@.skip(from as int).skip(1) == s@.skip(from + 1));
        from = from + 1;
    }
    let r = text_of(&chars, from, chars.len());
    assert(r@ == s@.skip(from as int));
    r
}

/// Whether `part` stands in the characters `s` from position `i` on.
fn matches_at(s: &Vec<char>, part: &Vec<char>, i: usize) -> (r: bool)
    requires
        i + part@.len() <= s@.len(),
    ensures
        r == occurs_at(s@, part@, i as int),
{
    let total: usize = s.len();
    let mut j: usize = 0;
    while j < part.len()
        invariant
            j <= part@.len(),
            i + part@.len() <= s@.len() == total,
            forall|k: int| 0 <= k < j ==> s@[i + k] == #[trigger] part@[k],
        decreases part@.len() - j,
    {
        if s[i + j] != part[j] {
            assert(s@.subrange(i as int, i + part@.len())[j as int] != part@[j as int]);
            return false;
        }
        j = j + 1;
    }
    assert(s@.subrange(i as int, i + part@.len()) =~= part@);
    true
}

/// The first position, counted in characters, where `part` stands in `s`.
pub fn find(s: &str, part: &str) -> (r: Option<usize>)
    ensures
        match r {
            Some(i) => find_text(s@, part@) == Some(i as int),
            None => find_text(s@, part@) is None,
        },
{
    let text: Vec<char> = chars_of(s);
    let wanted: Vec<char> = chars_of(part);
    if wanted.len() > text.len() {
        return None;
    }
    let last: usize = text.len() - wanted.len();
    let mut i: usize = 0;
    while i <= last
        invariant
            text@ == s@,
            wanted@ == part@,
            last + wanted@.len() == text@.len(),
            i <= last + 1,
            find_text(s@, part@) == find_from(s@, part@, i as int),
        decreases last + 1 - i,
    {
        if matches_at(&text, &wanted, i) {
            return Some(i);
        }
        if i == last {
            assert(find_from(s@, part@, i + 1) is None);
            return None;
        }
        i = i + 1;
    }
    None
}

/// What `find_from` returns: the first occurrence, if there is one.
pub proof fn lemma_find_from(s: Seq<char>, part: Seq<char>, from: int)
    requires
        0 <= from,
    ensures
        match find_from(s, part, from) {
            Some(i) => from <= i && occurs_at(s, part, i) && forall|j: int|
                from <= j < i ==> !occurs_at(s, part, j),
            None => forall|j: int| from <= j ==> !occurs_at(s, part, j),
        },
    decreases s.len() + 1 - from,
{
    if from + part.len() <= s.len() && !occurs_at(s, part, from) {
        lemma_find_from(s, part, from + 1);
    }
}

/// What follows the first place where `part` stands in `s`.
pub fn after(s: &str, part: &str) -> (r: Option<String>)
    ensures
        opt_text(r) == after_text(s@, part@),
{
    proof {
        lemma_find_from(s@, part@, 0);
    }
    match find(s, part) {
        Some(i) => {
            let text: Vec<char> = chars_of(s);
            let wanted: Vec<char> = chars_of(part);
            let len: usize = text.len();
            let r = text_of(&text, i + wanted.len(), len);
            assert(r@ =~= s@.skip(i + part@.len()));
            Some(r)
        },
        None => None,
    }
}

/// Whether `part` stands somewhere in `s`.
pub fn contains(s: &str, part: &str) -> (r: bool)
    ensures
        r == has_text(s@, part@),
{
    proof {
        lemma_find_from(s@, part@, 0);
    }
    match find(s, part) {
        Some(i) => {
            assert(occurs_at(s@, part@, i as int));
            true
        },
        None => false,
    }
}

/// Whether `s` begins with `prefix`.
pub fn starts_with(s: &str, prefix: &str) -> (r: bool)
    ensures
        r == prefix@.is_prefix_of(s@),
{
    let text: Vec<char> = chars_of(s);
    let wanted: Vec<char> = chars_of(prefix);
    if wanted.len() > text.len() {
        return false;
    }
    matches_at(&text, &wanted, 0)
}

/// Whether `s` ends with `suffix`.
pub fn ends_with(s: &str, suffix: &str) -> (r: bool)
    ensures
        r == suffix@.is_suffix_of(s@),
{
    let text: Vec<char> = chars_of(s);
    let wanted: Vec<char> = chars_of(suffix);
    if wanted.len() > text.len() {
        return false;
    }
    matches_at(&text, &wanted, text.len() - wanted.len())
}

/// Whether the character `c` stands somewhere in `s`.
pub fn contains_char(s: &str, c: char) -> (r: bool)
    ensures
        r == s@.contains(c),
{
    let text: Vec<char> = chars_of(s);
    let mut i: usize = 0;
    while i < text.len()
        invariant
            text@ == s@,
            i <= text@.len(),
            forall|k: int| 0 <= k < i ==> s@[k] != c,
        decreases text@.len() - i,
    {
        if text[i] == c {
            return true;
        }
        i = i + 1;
    }
    false
}

/// `s` without its first `n` characters.
pub fn skip_chars(s: &str, n: usize) -> (r: String)
    requires
        n <= s@.len(),
    ensures
        r@ == s@.skip(n as int),
{
    let text: Vec<char> = chars_of(s);
    let r = text_of(&text, n, text.len());
    assert(r@ == s@.skip(n as int));
    r
}

/// The first position of `c` at or after `from`, or the end of the text.
fn position_from(text: &Vec<char>, c: char, from: usize) -> (r: usize)
    requires
        from <= text@.len(),
    ensures
        from <= r <= text@.len(),
        forall|k: int| from <= k < r ==> text@[k] != c,
        r < text@.len() ==> text@[r as int] == c,
{
    let mut i: usize = from;
    while i < text.len() && text[i] != c
        invariant
            from <= i <= text@.len(),
            forall|k: int| from <= k < i ==> text@[k] != c,
        decreases text@.len() - i,
    {
        i = i + 1;
    }
    i
}

/// A separator that is first found at `i` divides the text there.
proof fn lemma_first_at(s: Seq<char>, c: char, i: int)
    requires
        0 <= i < s.len(),
        s[i] == c,
        forall|k: int| 0 <= k < i ==> s[k] != c,
    ensures
        s.contains(c),
        s.index_of_first(c) == Some(i),
{
    assert(s.contains(c));
    s.index_of_first_ensures(c);
}

/// The pieces of `s` between the separators `sep`.
pub fn split(s: &str, sep: char) -> (r: Vec<String>)
    ensures
        texts(r@) == pieces(s@, sep),
{
    let text: Vec<char> = chars_of(s);
    let mut r: Vec<String> = Vec::new();
    let mut from: usize = 0;
    assert(s@.skip(0) == s@);
    assert(texts(r@) + pieces(s@, sep) == pieces(s@, sep));
    loop
        invariant
            text@ == s@,
            from <= text@.len(),
            texts(r@) + pieces(s@.skip(from as int), sep) == pieces(s@, sep),
        decreases text@.len() - from,
    {
        let at: usize = position_from(&text, sep, from);
        let ghost rest = s@.skip(from as int);
        let ghost before = texts(r@);
        r.push(text_of(&text, from, at));
        assert(s@.subrange(from as int, at as int) == rest.take(at - from));
        assert(texts(r@) == before.push(rest.take(at - from)));
        if at >= text.len() {
            assert(rest.take(at - from) == rest);
            assert(!rest.contains(sep));
            assert(pieces(rest, sep) == seq![rest]);
            assert(before.push(rest) == before + seq![rest]);
            return r;
        }
        proof {
            assert forall|k: int| 0 <= k < at - from implies rest[k] != sep by {
                assert(rest[k] == s@[from + k]);
            }
            lemma_first_at(rest, sep, at - from);
            assert(rest.skip(at - from + 1) == s@.skip(at + 1));
            assert(before.push(rest.take(at - from)) + pieces(s@.skip(at + 1), sep) == before + (
            seq![rest.take(at - from)] + pieces(s@.skip(at + 1), sep)));
        }
        from = at + 1;
    }
}

/// The lines of `s`.
pub fn lines(s: &str) -> (r: Vec<String>)
    ensures
        texts(r@) == lines_of(s@),
{
    let text: Vec<char> = chars_of(s);
    let mut r: Vec<String> = Vec::new();
    let mut from: usize = 0;
    assert(s@.skip(0) == s@);
    assert(texts(r@) + lines_of(s@) == lines_of(s@));
    loop
        invariant
            text@ == s@,
            from <= text@.len(),
            texts(r@) + lines_of(s@.skip(from as int)) == lines_of(s@),
        decreases text@.len() - from,
    {
        let at: usize = position_from(&text, '\n', from);
        let ghost rest = s@.skip(from as int);
        let ghost before = texts(r@);
        if at >= text.len() {
            assert(!rest.contains('\n'));
            if from < at {
                r.push(text_of(&text, from, at));
                assert(s@.subrange(from as int, at as int) == rest);
                assert(texts(r@) == before.push(rest));
                assert(before.push(rest) == before + seq![rest]);
            } else {
                assert(rest.len() == 0);
                assert(before + seq![] == before);
            }
            return r;
        }
        let end: usize = if from < at && text[at - 1] == '\r' {
            at - 1
        } else {
            at
        };
        r.push(text_of(&text, from, end));
        proof {
            let line = rest.take(at - from);
            assert(s@.subrange(from as int, end as int) == without_cr(line));
            assert(texts(r@) == before.push(without_cr(line)));
            assert forall|k: int| 0 <= k < at - from implies rest[k] != '\n' by {
                assert(rest[k] == s@[from + k]);
            }
            lemma_first_at(rest, '\n', at - from);
            assert(rest.skip(at - from + 1) == s@.skip(at + 1));
            assert(before.push(without_cr(line)) + lines_of(s@.skip(at + 1)) == before + (seq![
                without_cr(line),
            ] + lines_of(s@.skip(at + 1))));
        }
        from = at + 1;
    }
}

/// The first word of `s`, empty where there is none.
pub fn word(s: &str) -> (r: String)
    ensures
        r@ == first_word(s@),
{
    let text: Vec<char> = chars_of(s);
    let mut from: usize = 0;
    assert(s@.skip(0) == s@);
    while from < text.len() && exec_is_space(text[from])
        invariant
            text@ == s@,
            from <= text@.len(),
            trim_start(s@) == trim_start(s@.skip(from as int)),
        decreases text@.len() - from,
    {
        assert(s@.skip(from as int).skip(1) == s@.skip(from + 1));
        from = from + 1;
    }
    let ghost rest = s@.skip(from as int);
    assert(trim_start(s@) == rest);
    let mut to: usize = from;
    assert(s@.subrange(from as int, to as int) + until_space(s@.skip(to as int)) == until_space(
        rest,
    ));
    while to < text.len() && !exec_is_space(text[to])
        invariant
            text@ == s@,
            from <= to <= text@.len(),
            s@.subrange(from as int, to as int) + until_space(s@.skip(to as int)) == until_space(
                rest,
            ),
        decreases text@.len() - to,
    {
        assert(s@.skip(to as int).skip(1) == s@.skip(to + 1));
        assert(s@.subrange(from as int, to + 1) + until_space(s@.skip(to + 1)) == s@.subrange(
            from as int,
            to as int,
        ) + (seq![s@[to as int]] + until_space(s@.skip(to + 1))));
        to = to + 1;
    }
    let r = text_of(&text, from, to);
    assert(until_space(s@.skip(to as int)) == Seq::<char>::empty());
    assert(r@ + Seq::<char>::empty() == r@);
    r
}

/// The letter in lower case, for the letters `A` to `Z`.
pub fn lower_char(c: char) -> (r: char)
    ensures
        r == ascii_lower_char(c),
{
    if 'A' <= c && c <= 'Z' {
        (c as u8 + 32) as char
    } else {
        c
    }
}

/// `s` with its letters `A` to `Z` in lower case.
pub fn to_ascii_lowercase(s: &str) -> (r: String)
    ensures
        r@ == ascii_lower(s@),
{
    let text: Vec<char> = chars_of(s);
    let mut r: String = String::new();
    let mut i: usize = 0;
    while i < text.len()
        invariant
            text@ == s@,
            i <= text@.len(),
            r@ == ascii_lower(s@.take(i as int)),
        decreases text@.len() - i,
    {
        r.push(lower_char(text[i]));
        i = i + 1;
        assert(ascii_lower(s@.take(i as int)) == ascii_lower(s@.take(i - 1)).push(
            ascii_lower_char(s@[i - 1]),
        ));
    }
    assert(s@.take(i as int) == s@);
    r
}

/// The decimal digits of `n`.
pub fn decimal_text(n: u64) -> (r: String)
    ensures
        r@ == decimal(n as nat),
    decreases n,
{
    if n < 10 {
        let mut r: String = String::new();
        r.push((48 + n as u8) as char);
        assert(r@ == seq![digit_char(n as nat)]);
        r
    } else {
        let mut r: String = decimal_text(n / 10);
        r.push((48 + (n % 10) as u8) as char);
        r
    }
}

/// The number below or at `max` that `s` writes.
pub fn parse_upto(s: &str, max: u64) -> (r: Option<u64>)
    ensures
        match r {
            Some(n) => unsigned_upto(s@, max as nat) == Some(n as nat),
            None => unsigned_upto(s@, max as nat) is None,
        },
{
    let text: Vec<char> = chars_of(s);
    let from: usize = if text.len() > 0 && text[0] == '+' {
        1
    } else {
        0
    };
    let ghost digits = without_plus(s@);
    assert(digits == s@.skip(from as int));
    if from >= text.len() {
        return None;
    }
    let mut n: u64 = 0;
    let mut over: bool = false;
    let mut i: usize = from;
    while i < text.len()
        invariant
            text@ == s@,
            from <= i <= text@.len(),
            digits == s@.skip(from as int),
            digits == without_plus(s@),
            all_digits(digits.take(i - from)),
            !over ==> n == digits_value(digits.take(i - from)) && n <= max,
            over ==> digits_value(digits.take(i - from)) > max,
        decreases text@.len() - i,
    {
        let c: char = text[i];
        let ghost done = digits.take(i - from);
        let ghost next = digits.take(i - from + 1);
        assert(c == digits[i - from]);
        assert(next.drop_last() == done);
        assert(next.last() == c);
        if c < '0' || c > '9' {
            assert(!is_digit(digits[i - from]));
            return None;
        }
        let d: u64 = c as u64 - 48;
        if over {
        } else if n > max / 10 || d > max || n * 10 > max - d {
            over = true;
            assert(digits_value(next) == digits_value(done) * 10 + d);
        } else {
            n = n * 10 + d;
        }
        i = i + 1;
    }
    assert(digits.take(i - from) == digits);
    if over {
        None
    } else {
        Some(n)
    }
}

pub fn parse_u64(s: &str) -> (r: Option<u64>)
    ensures
        match r {
            Some(n) => unsigned_upto(s@, u64::MAX as nat) == Some(n as nat),
            None => unsigned_upto(s@, u64::MAX as nat) is None,
        },
{
    parse_upto(s, u64::MAX)
}

pub fn parse_u32(s: &str) -> (r: Option<u32>)
    ensures
        match r {
            Some(n) => unsigned_upto(s@, u32::MAX as nat) == Some(n as nat),
            None => unsigned_upto(s@, u32::MAX as nat) is None,
        },
{
    match parse_upto(s, u32::MAX as u64) {
        Some(n) => Some(n as u32),
        None => None,
    }
}

/// The texts of a list with `sep` between each and the next.
pub fn join(list: &Vec<String>, sep: &str) -> (r: String)
    ensures
        r@ == joined(texts(list@), sep@),
{
    let mut r: String = String::new();
    let mut i: usize = 0;
    while i < list.len()
        invariant
            i <= list@.len(),
            r@ == joined(texts(list@).take(i as int), sep@),
        decreases list@.len() - i,
    {
        let ghost next = texts(list@).take(i + 1);
        assert(next.drop_last() == texts(list@).take(i as int));
        if i > 0 {
            r.append(sep);
        }
        r.append(list[i].as_str());
        i = i + 1;
    }
    assert(texts(list@).take(i as int) == texts(list@));
    r
}

/// A copy of a list of texts.
pub fn clone_texts(list: &Vec<String>) -> (r: Vec<String>)
    ensures
        texts(r@) == texts(list@),
{
    let mut r: Vec<String> = Vec::new();
    let mut i: usize = 0;
    while i < list.len()
        invariant
            i <= list@.len(),
            r@.len() == i,
            forall|k: int| 0 <= k < i ==> (#[trigger] r@[k])@ == list@[k]@,
        decreases list@.len() - i,
    {
        r.push(list[i].clone());
        i = i + 1;
    }
    assert(texts(r@) =~= texts(list@));
    r
}

/// A copy of a text that may be absent.
pub fn clone_opt_text(value: &Option<String>) -> (r: Option<String>)
    ensures
        opt_text(r) == opt_text(*value),
{
    match value {
        Some(s) => Some(s.clone()),
        None => None,
    }
}

// Numbers, written and read --------------------------------------------------

/// A number is written with its last digit last, behind what its tenth writes;
/// nothing but digits stands there, and no zero leads a longer number.
pub proof fn numbers_are_written_in_tens(n: nat)
    ensures
        decimal(n).len() > 0,
        decimal(n).last() as int == '0' as int + n % 10,
        n < 10 ==> decimal(n).len() == 1,
        n >= 10 ==> decimal(n).drop_last() == decimal(n / 10),
        all_digits(decimal(n)),
        n > 0 ==> decimal(n)[0] != '0',
    decreases n,
{
    if n >= 10 {
        numbers_are_written_in_tens(n / 10);
        assert(decimal(n).drop_last() =~= decimal(n / 10));
        assert(decimal(n)[0] == decimal(n / 10)[0]);
    }
}

/// A number that is written is read back as the same number, with a sign in
/// front of it or without; another number is written otherwise.
pub proof fn a_written_number_reads_back(n: nat, max: nat)
    ensures
        unsigned_upto(decimal(n), max) == (if n <= max {
            Some(n)
        } else {
            None
        }),
        unsigned_upto(seq!['+'] + decimal(n), max) == (if n <= max {
            Some(n)
        } else {
            None
        }),
        forall|m: nat| #[trigger] decimal(m) == decimal(n) ==> m == n,
{
    lemma_digits_of_decimal(n);
    numbers_are_written_in_tens(n);
    assert((seq!['+'] + decimal(n)).skip(1) =~= decimal(n));
    assert forall|m: nat| #[trigger] decimal(m) == decimal(n) implies m == n by {
        lemma_digits_of_decimal(m);
    }
}

proof fn lemma_digits_of_decimal(n: nat)
    ensures
        digits_value(decimal(n)) == n,
        all_digits(decimal(n)),
    decreases n,
{
    numbers_are_written_in_tens(n);
    if n >= 10 {
        lemma_digits_of_decimal(n / 10);
    } else {
        assert(decimal(n).drop_last() =~= seq![]);
        assert(digits_value(seq![]) == 0);
    }
}

/// A text of digits with one more digit behind it is ten times the number, and
/// that digit; what holds anything but digits is no number.
pub proof fn digits_are_read_in_tens(s: Seq<char>, c: char, max: nat)
    ensures
        s.len() > 0 && all_digits(s) && is_digit(c) && digits_value(s) * 10 + (c as int - '0' as int)
            <= max ==> unsigned_upto(s.push(c), max) == Some(
            (digits_value(s) * 10 + (c as int - '0' as int)) as nat,
        ),
        c != '+' && !('0' <= c <= '9') ==> unsigned_upto(s.push(c), max) is None,
{
    let t = s.push(c);
    assert(t.drop_last() =~= s);
    if s.len() > 0 && all_digits(s) && is_digit(c) {
        assert(without_plus(t) == t);
        assert(all_digits(t)) by {
            assert forall|i: int| 0 <= i < t.len() implies is_digit(#[trigger] t[i]) by {
                if i < s.len() {
                    assert(t[i] == s[i]);
                }
            }
        }
    }
    if c != '+' && !is_digit(c) {
        let digits = without_plus(t);
        assert(digits.last() == c);
        assert(!all_digits(digits)) by {
            assert(digits[digits.len() - 1] == c);
        }
    }
}

// Blanks, lines and pieces ---------------------------------------------------

/// A text without blanks at its ends is left as it is; a blank in front of a text
/// or behind it is removed; and what is left has no blanks at its ends.
pub proof fn blanks_at_the_ends_are_removed(s: Seq<char>, c: char)
    ensures
        s.len() > 0 && !is_space(s[0]) && !is_space(s.last()) ==> trimmed(s) == s,
        is_space(c) ==> trimmed(seq![c] + s) == trimmed(s),
        is_space(c) ==> trimmed(s.push(c)) == trimmed(s),
        trimmed(s).len() > 0 ==> !is_space(trimmed(s)[0]) && !is_space(trimmed(s).last()),
        is_space(' ') && is_space('\t') && is_space('\n') && is_space('\r'),
        !is_space('a') && !is_space('0') && !is_space('-') && !is_space('.'),
{
    assert((seq![c] + s).skip(1) =~= s);
    if is_space(c) {
        lemma_trim_behind(s, c);
    }
    lemma_trim_start(s);
    lemma_trim_end(trim_start(s));
}

proof fn lemma_trim_start(s: Seq<char>)
    ensures
        trim_start(s).len() > 0 ==> !is_space(trim_start(s)[0]),
    decreases s.len(),
{
    if s.len() > 0 && is_space(s[0]) {
        lemma_trim_start(s.skip(1));
    }
}

proof fn lemma_trim_end(s: Seq<char>)
    ensures
        trim_end(s).len() > 0 ==> !is_space(trim_end(s).last()) && trim_end(s)[0] == s[0],
    decreases s.len(),
{
    if s.len() > 0 && is_space(s.last()) {
        lemma_trim_end(s.drop_last());
    }
}

proof fn lemma_trim_behind(s: Seq<char>, c: char)
    requires
        is_space(c),
    ensures
        trimmed(s.push(c)) == trimmed(s),
    decreases s.len(),
{
    if s.len() > 0 && is_space(s[0]) {
        assert(s.push(c).skip(1) =~= s.skip(1).push(c));
        lemma_trim_behind(s.skip(1), c);
    } else if s.len() > 0 {
        assert(s.push(c).drop_last() =~= s);
    } else {
        assert(s.push(c).skip(1) =~= s);
    }
}

/// A line ends at a line feed, and the carriage return in front of that does not
/// belong to it; what follows are the lines of the rest. A text without a line feed
/// is one line, and an empty text none.
pub proof fn lines_end_at_line_feeds(line: Seq<char>, rest: Seq<char>)
    requires
        !line.contains('\n'),
    ensures
        lines_of(line.push('\n') + rest) == seq![without_cr(line)] + lines_of(rest),
        line.len() > 0 ==> lines_of(line) == seq![line],
        lines_of(seq![]) == Seq::<Seq<char>>::empty(),
        without_cr(line.push('\r')) == line,
        line.len() > 0 && line.last() != '\r' ==> without_cr(line) == line,
{
    let s = line.push('\n') + rest;
    lemma_first_piece(line, rest, s, '\n');
    assert(line.push('\r').drop_last() =~= line);
    let none: Seq<char> = seq![];
    assert(!none.contains('\n'));
    assert(lines_of(none) =~= Seq::<Seq<char>>::empty());
}

proof fn lemma_first_piece(first: Seq<char>, rest: Seq<char>, s: Seq<char>, sep: char)
    requires
        !first.contains(sep),
        s == first.push(sep) + rest,
    ensures
        s.contains(sep),
        s.index_of_first(sep) == Some(first.len() as int),
        s.take(first.len() as int) == first,
        s.skip(first.len() as int + 1) == rest,
{
    let at = first.len() as int;
    assert(s[at] == sep);
    assert(s.contains(sep));
    s.index_of_first_ensures(sep);
    let i = s.index_of_first(sep)->0;
    if i < at {
        assert(first[i] == s[i]);
    }
    assert(s.take(at) =~= first);
    assert(s.skip(at + 1) =~= rest);
}

/// A text is parted at every separator, and nowhere else: the pieces, with the
/// separator between each and the next, are the text.
pub proof fn pieces_make_up_the_text(s: Seq<char>, first: Seq<char>, rest: Seq<char>, sep: char)
    ensures
        joined(pieces(s, sep), seq![sep]) == s,
        !first.contains(sep) ==> pieces(first, sep) == seq![first],
        !first.contains(sep) ==> pieces(first.push(sep) + rest, sep) == seq![first] + pieces(
            rest,
            sep,
        ),
    decreases s.len(),
{
    if !first.contains(sep) {
        lemma_first_piece(first, rest, first.push(sep) + rest, sep);
    }
    if s.contains(sep) {
        s.index_of_first_ensures(sep);
        let i = s.index_of_first(sep)->0;
        let after = s.skip(i + 1);
        pieces_make_up_the_text(after, after, after, sep);
        lemma_joined_behind(s.take(i), pieces(after, sep), seq![sep]);
        lemma_some_piece(after, sep);
        assert(s =~= s.take(i) + seq![sep] + after);
    } else {
        assert(joined(seq![s], seq![sep]) == s);
    }
}

proof fn lemma_some_piece(s: Seq<char>, sep: char)
    ensures
        pieces(s, sep).len() > 0,
{
}

proof fn lemma_joined_behind(first: Seq<char>, list: Seq<Seq<char>>, sep: Seq<char>)
    ensures
        list.len() > 0 ==> joined(seq![first] + list, sep) == first + sep + joined(list, sep),
    decreases list.len(),
{
    if list.len() == 1 {
        let both = seq![first] + list;
        assert(both.drop_last() =~= seq![first]);
        assert(joined(seq![first], sep) == first);
        assert(both.last() == list[0]);
        assert(joined(both, sep) =~= first + sep + joined(list, sep));
    } else if list.len() > 1 {
        let both = seq![first] + list;
        assert(both.drop_last() =~= seq![first] + list.drop_last());
        lemma_joined_behind(first, list.drop_last(), sep);
        assert(joined(both, sep) =~= first + sep + joined(list, sep));
    }
}

/// A part of a text is found where it first stands; what follows it is what stands
/// behind, and a text that does not hold it has nothing behind it.
pub proof fn a_part_is_found_where_it_first_stands(first: Seq<char>, part: Seq<char>, rest: Seq<char>)
    requires
        part.len() > 0,
    ensures
        has_text(first + part + rest, part),
        after_text(first + part + rest, part) is Some,
        after_text(part + rest, part) == Some(rest),
        !has_text(first, part) <==> after_text(first, part) is None,
{
    let s = first + part + rest;
    let i = first.len() as int;
    assert(s.subrange(i, i + part.len()) =~= part);
    assert(occurs_at(s, part, i));
    lemma_find_from(s, part, 0);
    lemma_find_from(first, part, 0);
    let t = part + rest;
    assert(t.subrange(0, part.len() as int) =~= part);
    assert(occurs_at(t, part, 0));
    assert(t.skip(part.len() as int) =~= rest);
}

/// Small letters stand for capital ones, and nothing else is changed.
pub proof fn only_capitals_become_small(s: Seq<char>, i: int)
    requires
        0 <= i < s.len(),
    ensures
        ascii_lower(s).len() == s.len(),
        !('A' <= s[i] <= 'Z') ==> ascii_lower(s)[i] == s[i],
        'A' <= s[i] <= 'Z' ==> 'a' <= ascii_lower(s)[i] <= 'z' && ascii_lower(s)[i] as int - 'a' as int
            == s[i] as int - 'A' as int,
{
}

/// The first word of a text is what stands in front of its first blank, whatever
/// blanks stand in front of all.
pub proof fn a_word_ends_at_a_blank(word: Seq<char>, c: char, rest: Seq<char>)
    requires
        word.len() > 0,
        forall|i: int| 0 <= i < word.len() ==> !is_space(#[trigger] word[i]),
        is_space(c),
    ensures
        first_word(word) == word,
        first_word(word.push(c) + rest) == word,
        first_word(seq![c] + word) == word,
{
    let none: Seq<char> = seq![];
    lemma_until_space(word, none);
    assert(word + none =~= word);
    lemma_until_space(word, seq![c] + rest);
    assert(word.push(c) + rest =~= word + (seq![c] + rest));
    assert(!is_space(word[0]));
    assert((seq![c] + word).skip(1) =~= word);
    assert(trim_start(seq![c] + word) == trim_start(word));
}

proof fn lemma_until_space(word: Seq<char>, rest: Seq<char>)
    requires
        forall|i: int| 0 <= i < word.len() ==> !is_space(#[trigger] word[i]),
        rest.len() > 0 ==> is_space(rest[0]),
    ensures
        until_space(word + rest) == word,
    decreases word.len(),
{
    let s = word + rest;
    if word.len() == 0 {
        assert(s =~= rest);
        assert(until_space(s) =~= word);
    } else {
        let later = word.skip(1);
        assert(!is_space(word[0]));
        assert forall|i: int| 0 <= i < later.len() implies !is_space(#[trigger] later[i]) by {
            assert(later[i] == word[i + 1]);
        }
        assert(s.skip(1) =~= later + rest);
        lemma_until_space(later, rest);
        assert(until_space(s) =~= word);
    }
}

} // verus!
