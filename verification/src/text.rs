//! Text as sequences of characters: comparison, splitting, case and decimal rendering.

use vstd::prelude::*;
use vstd::slice::slice_subrange;

verus! {

/// `String::push` of std: the character is appended at the end of the string.
pub assume_specification[ String::push ](text: &mut String, ch: char)
    ensures
        final(text)@ == old(text)@.push(ch),
;

/// The white space of Unicode (`White_Space`): tab to carriage return, space, next line, and the
/// spaces and separators beyond ASCII.
pub open spec fn is_white(ch: char) -> bool {
    ||| '\u{9}' <= ch && ch <= '\u{d}'
    ||| ch == ' '
    ||| ch == '\u{85}'
    ||| ch == '\u{a0}'
    ||| ch == '\u{1680}'
    ||| '\u{2000}' <= ch && ch <= '\u{200a}'
    ||| ch == '\u{2028}'
    ||| ch == '\u{2029}'
    ||| ch == '\u{202f}'
    ||| ch == '\u{205f}'
    ||| ch == '\u{3000}'
}

/// Whether a character is white space.
pub fn white_space(ch: char) -> (answer: bool)
    ensures
        answer == is_white(ch),
{
    ('\u{9}' <= ch && ch <= '\u{d}') || ch == ' ' || ch == '\u{85}' || ch == '\u{a0}' || ch
        == '\u{1680}' || ('\u{2000}' <= ch && ch <= '\u{200a}') || ch == '\u{2028}' || ch
        == '\u{2029}' || ch == '\u{202f}' || ch == '\u{205f}' || ch == '\u{3000}'
}

/// What std's `str::to_lowercase` returns for a text (Unicode lowercase mapping).
pub uninterp spec fn lowercase(text: Seq<char>) -> Seq<char>;

/// Calls std's `str::to_lowercase`; the result depends on the text alone and is named by
/// [`lowercase`].
#[verifier::external_body]
pub(crate) fn to_lower(text: &str) -> (folded: String)
    ensures
        folded@ == lowercase(text@),
{
    text.to_lowercase()
}

/// Whether two texts hold the same characters.
pub fn same_text(left: &str, right: &str) -> (same: bool)
    ensures
        same == (left@ == right@),
{
    left.to_owned() == right.to_owned()
}

/// The characters of a text.
pub fn chars_of(text: &str) -> (chars: Vec<char>)
    ensures
        chars@ == text@,
{
    let mut chars: Vec<char> = Vec::new();
    for ch in it: text.chars()
        invariant
            it.seq() == text@,
            chars@ == text@.take(it.index()),
    {
        chars.push(ch);
    }
    chars
}

/// The text that holds the given characters.
pub fn text_of(chars: &[char]) -> (text: String)
    ensures
        text@ == chars@,
{
    let mut text = String::new();
    for i in 0..chars.len()
        invariant
            text@ == chars@.take(i as int),
    {
        text.push(chars[i]);
    }
    text
}

/// Two texts in a row.
pub fn join2(a: &str, b: &str) -> (text: String)
    ensures
        text@ == a@ + b@,
{
    let mut text = a.to_owned();
    text.append(b);
    text
}

/// Three texts in a row.
pub fn join3(a: &str, b: &str, c: &str) -> (text: String)
    ensures
        text@ == a@ + b@ + c@,
{
    let mut text = join2(a, b);
    text.append(c);
    text
}

/// Four texts in a row.
pub fn join4(a: &str, b: &str, c: &str, d: &str) -> (text: String)
    ensures
        text@ == a@ + b@ + c@ + d@,
{
    let mut text = join3(a, b, c);
    text.append(d);
    text
}

/// Five texts in a row.
pub fn join5(a: &str, b: &str, c: &str, d: &str, e: &str) -> (text: String)
    ensures
        text@ == a@ + b@ + c@ + d@ + e@,
{
    let mut text = join4(a, b, c, d);
    text.append(e);
    text
}

/// `0` to `9`.
pub open spec fn is_digit(ch: char) -> bool {
    '0' <= ch && ch <= '9'
}

/// `a` to `z`.
pub open spec fn is_lower(ch: char) -> bool {
    'a' <= ch && ch <= 'z'
}

/// `A` to `Z`.
pub open spec fn is_upper(ch: char) -> bool {
    'A' <= ch && ch <= 'Z'
}

/// An ASCII letter or digit.
pub open spec fn is_alphanumeric(ch: char) -> bool {
    is_digit(ch) || is_lower(ch) || is_upper(ch)
}

/// An ASCII control character.
pub open spec fn is_control(ch: char) -> bool {
    ch <= '\u{1f}' || ch == '\u{7f}'
}

/// Whether the character is `0` to `9`.
pub fn digit(ch: char) -> (answer: bool)
    ensures
        answer == is_digit(ch),
{
    '0' <= ch && ch <= '9'
}

/// Whether the character is `a` to `z`.
pub fn lower(ch: char) -> (answer: bool)
    ensures
        answer == is_lower(ch),
{
    'a' <= ch && ch <= 'z'
}

/// Whether the character is `A` to `Z`.
pub fn upper(ch: char) -> (answer: bool)
    ensures
        answer == is_upper(ch),
{
    'A' <= ch && ch <= 'Z'
}

/// Whether the character is an ASCII letter or digit.
pub fn alphanumeric(ch: char) -> (answer: bool)
    ensures
        answer == is_alphanumeric(ch),
{
    digit(ch) || lower(ch) || upper(ch)
}

/// Whether the character is an ASCII control character.
pub fn control(ch: char) -> (answer: bool)
    ensures
        answer == is_control(ch),
{
    ch <= '\u{1f}' || ch == '\u{7f}'
}

/// The ASCII uppercase letter of an ASCII lowercase one; every other character as it is.
pub open spec fn upper_char(ch: char) -> char {
    if is_lower(ch) {
        (ch as u8 - 32) as u8 as char
    } else {
        ch
    }
}

/// The ASCII lowercase letter of an ASCII uppercase one; every other character as it is.
pub open spec fn lower_char(ch: char) -> char {
    if is_upper(ch) {
        (ch as u8 + 32) as u8 as char
    } else {
        ch
    }
}

/// Every ASCII lowercase letter made uppercase.
pub open spec fn ascii_upper(text: Seq<char>) -> Seq<char> {
    text.map_values(|ch: char| upper_char(ch))
}

/// Every ASCII uppercase letter made lowercase.
pub open spec fn ascii_lower(text: Seq<char>) -> Seq<char> {
    text.map_values(|ch: char| lower_char(ch))
}

/// The text with every ASCII lowercase letter made uppercase.
pub fn to_ascii_upper(chars: &[char]) -> (out: Vec<char>)
    ensures
        out@ == ascii_upper(chars@),
{
    let mut out: Vec<char> = Vec::new();
    for i in 0..chars.len()
        invariant
            out@ == ascii_upper(chars@.take(i as int)),
    {
        let ch = chars[i];
        proof {
            assert(ascii_upper(chars@.take(i + 1)) =~= ascii_upper(chars@.take(i as int)).push(
                upper_char(ch),
            ));
        }
        if lower(ch) {
            out.push((ch as u8 - 32u8) as char);
        } else {
            out.push(ch);
        }
    }
    assert(chars@.take(chars@.len() as int) =~= chars@);
    out
}

/// The text with every ASCII uppercase letter made lowercase.
pub fn to_ascii_lower(chars: &[char]) -> (out: Vec<char>)
    ensures
        out@ == ascii_lower(chars@),
{
    let mut out: Vec<char> = Vec::new();
    for i in 0..chars.len()
        invariant
            out@ == ascii_lower(chars@.take(i as int)),
    {
        let ch = chars[i];
        proof {
            assert(ascii_lower(chars@.take(i + 1)) =~= ascii_lower(chars@.take(i as int)).push(
                lower_char(ch),
            ));
        }
        if upper(ch) {
            out.push((ch as u8 + 32u8) as char);
        } else {
            out.push(ch);
        }
    }
    assert(chars@.take(chars@.len() as int) =~= chars@);
    out
}

/// Whether two texts differ at most in the case of ASCII letters.
pub open spec fn same_but_ascii_case(left: Seq<char>, right: Seq<char>) -> bool {
    ascii_lower(left) == ascii_lower(right)
}

/// Whether two texts differ at most in the case of ASCII letters.
pub fn equal_ignoring_ascii_case(left: &str, right: &str) -> (same: bool)
    ensures
        same == same_but_ascii_case(left@, right@),
{
    let a = to_ascii_lower(chars_of(left).as_slice());
    let b = to_ascii_lower(chars_of(right).as_slice());
    same_chars(a.as_slice(), b.as_slice())
}

/// Whether two runs of characters are equal.
pub fn same_chars(left: &[char], right: &[char]) -> (same: bool)
    ensures
        same == (left@ == right@),
{
    if left.len() != right.len() {
        return false;
    }
    for i in 0..left.len()
        invariant
            left@.len() == right@.len(),
            left@.take(i as int) == right@.take(i as int),
    {
        if left[i] != right[i] {
            return false;
        }
        assert(left@.take(i + 1) =~= left@.take(i as int).push(left@[i as int]));
        assert(right@.take(i + 1) =~= right@.take(i as int).push(right@[i as int]));
    }
    assert(left@.take(left@.len() as int) =~= left@);
    assert(right@.take(right@.len() as int) =~= right@);
    true
}

/// The position of the first `sep`, or the length where there is none.
pub open spec fn first_at(text: Seq<char>, sep: char) -> int
    decreases text.len(),
{
    if text.len() == 0 {
        0
    } else if text[0] == sep {
        0
    } else {
        1 + first_at(text.skip(1), sep)
    }
}

/// The first `sep` stands at `first_at`, with none before it.
pub proof fn lemma_first_at(text: Seq<char>, sep: char)
    ensures
        0 <= first_at(text, sep) <= text.len(),
        first_at(text, sep) < text.len() ==> text[first_at(text, sep)] == sep,
        forall|i: int| 0 <= i < first_at(text, sep) ==> text[i] != sep,
        first_at(text, sep) < text.len() <==> text.contains(sep),
    decreases text.len(),
{
    if text.len() > 0 && text[0] != sep {
        let rest = text.skip(1);
        lemma_first_at(rest, sep);
        assert forall|i: int| 0 <= i < first_at(text, sep) implies text[i] != sep by {
            if i > 0 {
                assert(rest[i - 1] == text[i]);
            }
        }
        if rest.contains(sep) {
            let k = choose|k: int| 0 <= k < rest.len() && rest[k] == sep;
            assert(text[k + 1] == sep);
        }
        if text.contains(sep) {
            let k = choose|k: int| 0 <= k < text.len() && text[k] == sep;
            assert(rest[k - 1] == sep);
        }
    }
}

/// Only one position can be the first one.
pub proof fn lemma_first_at_unique(text: Seq<char>, sep: char, at: int)
    requires
        0 <= at <= text.len(),
        at < text.len() ==> text[at] == sep,
        forall|i: int| 0 <= i < at ==> text[i] != sep,
    ensures
        first_at(text, sep) == at,
{
    lemma_first_at(text, sep);
    let f = first_at(text, sep);
    if f < at {
        assert(text[f] != sep);
    }
    if at < f {
        assert(text[at] != sep);
    }
}

/// The position of the first `sep`, or the length where there is none.
pub fn find_char(chars: &[char], sep: char) -> (at: usize)
    ensures
        at == first_at(chars@, sep),
        at <= chars@.len(),
{
    for i in 0..chars.len()
        invariant
            forall|k: int| 0 <= k < i ==> chars@[k] != sep,
    {
        if chars[i] == sep {
            proof {
                lemma_first_at_unique(chars@, sep, i as int);
            }
            return i;
        }
    }
    proof {
        lemma_first_at_unique(chars@, sep, chars@.len() as int);
    }
    chars.len()
}

/// The position of the last `sep`, or -1 where there is none.
pub open spec fn last_at(text: Seq<char>, sep: char) -> int
    decreases text.len(),
{
    if text.len() == 0 {
        -1
    } else if text.last() == sep {
        text.len() - 1
    } else {
        last_at(text.drop_last(), sep)
    }
}

/// The position of the last `sep`.
pub fn find_last(chars: &[char], sep: char) -> (at: Option<usize>)
    ensures
        match at {
            Some(at) => at == last_at(chars@, sep) && at < chars@.len(),
            None => last_at(chars@, sep) == -1,
        },
{
    let mut end: usize = chars.len();
    assert(chars@.take(end as int) =~= chars@);
    while end > 0
        invariant
            end <= chars@.len(),
            last_at(chars@.take(end as int), sep) == last_at(chars@, sep),
        decreases end,
    {
        assert(chars@.take(end as int).last() == chars@[end - 1]);
        if chars[end - 1] == sep {
            return Some(end - 1);
        }
        assert(chars@.take(end as int).drop_last() =~= chars@.take(end - 1));
        end = end - 1;
    }
    None
}

/// Whether the character occurs.
pub fn has_char(chars: &[char], ch: char) -> (answer: bool)
    ensures
        answer == chars@.contains(ch),
{
    let at = find_char(chars, ch);
    proof {
        lemma_first_at(chars@, ch);
    }
    at < chars.len()
}

/// The pieces between the separators, empty ones included (one more than there are separators).
pub open spec fn split_on(text: Seq<char>, sep: char) -> Seq<Seq<char>>
    decreases text.len(),
    via split_on_shrinks
{
    let at = first_at(text, sep);
    if at >= text.len() {
        seq![text]
    } else {
        seq![text.take(at)] + split_on(text.skip(at + 1), sep)
    }
}

#[via_fn]
proof fn split_on_shrinks(text: Seq<char>, sep: char) {
    lemma_first_at(text, sep);
}

/// Where the last piece is not empty, the text does not end with a separator.
pub proof fn lemma_last_piece(text: Seq<char>, sep: char)
    requires
        split_on(text, sep).last().len() > 0,
    ensures
        text.len() > 0,
        text.last() != sep,
    decreases text.len(),
{
    let at = first_at(text, sep);
    lemma_first_at(text, sep);
    if at < text.len() {
        let rest = text.skip(at + 1);
        assert(split_on(text, sep).last() == split_on(rest, sep).last());
        lemma_last_piece(rest, sep);
        assert(rest.last() == text.last());
    }
}

/// The characters of each piece.
pub open spec fn pieces(parts: Seq<Vec<char>>) -> Seq<Seq<char>> {
    parts.map_values(|part: Vec<char>| part@)
}

/// The pieces between the separators.
pub fn split_chars(chars: &[char], sep: char) -> (parts: Vec<Vec<char>>)
    ensures
        pieces(parts@) == split_on(chars@, sep),
        parts@.len() > 0,
{
    let mut parts: Vec<Vec<char>> = Vec::new();
    let mut start: usize = 0;
    assert(chars@.skip(0) =~= chars@);
    assert(pieces(parts@) + split_on(chars@.skip(0), sep) =~= split_on(chars@, sep));
    loop
        invariant
            start <= chars@.len(),
            pieces(parts@) + split_on(chars@.skip(start as int), sep) == split_on(chars@, sep),
        decreases chars@.len() + 1 - start,
    {
        let rest = slice_subrange(chars, start, chars.len());
        assert(rest@ =~= chars@.skip(start as int));
        let at = find_char(rest, sep);
        let ghost before = parts@;
        if at >= rest.len() {
            let piece = slice_to_vec(rest);
            parts.push(piece);
            proof {
                assert(pieces(parts@) =~= pieces(before).push(rest@));
                assert(pieces(parts@) =~= pieces(before) + split_on(rest@, sep));
            }
            return parts;
        }
        let piece = slice_to_vec(slice_subrange(rest, 0, at));
        parts.push(piece);
        proof {
            assert(rest@.subrange(0, at as int) =~= rest@.take(at as int));
            assert(rest@.skip(at + 1) =~= chars@.skip(start + at + 1));
            assert(pieces(parts@) =~= pieces(before).push(rest@.take(at as int)));
            assert(pieces(parts@) + split_on(chars@.skip(start + at + 1), sep) =~= pieces(before) + split_on(
                rest@,
                sep,
            ));
        }
        start = start + at + 1;
    }
}

/// A copy of a run of characters.
pub fn slice_to_vec(chars: &[char]) -> (out: Vec<char>)
    ensures
        out@ == chars@,
{
    let mut out: Vec<char> = Vec::new();
    for i in 0..chars.len()
        invariant
            out@ == chars@.take(i as int),
    {
        out.push(chars[i]);
    }
    out
}

/// Whether `text` begins with `prefix`.
pub open spec fn begins_with(text: Seq<char>, prefix: Seq<char>) -> bool {
    prefix.len() <= text.len() && text.take(prefix.len() as int) == prefix
}

/// Whether `part` stands in `text` at `at`.
pub open spec fn stands_at(text: Seq<char>, part: Seq<char>, at: int) -> bool {
    0 <= at && at + part.len() <= text.len() && text.subrange(at, at + part.len()) == part
}

/// Whether `part` occurs in `text`.
pub open spec fn occurs(text: Seq<char>, part: Seq<char>) -> bool {
    exists|at: int| stands_at(text, part, at)
}

/// Whether `chars` begins with `prefix`.
pub fn starts_with(chars: &[char], prefix: &[char]) -> (answer: bool)
    ensures
        answer == begins_with(chars@, prefix@),
{
    if prefix.len() > chars.len() {
        return false;
    }
    let head = slice_subrange(chars, 0, prefix.len());
    assert(head@ =~= chars@.take(prefix@.len() as int));
    same_chars(head, prefix)
}

/// Whether a text begins with another.
pub fn text_starts_with(text: &str, prefix: &str) -> (answer: bool)
    ensures
        answer == begins_with(text@, prefix@),
{
    starts_with(chars_of(text).as_slice(), chars_of(prefix).as_slice())
}

/// The first position from `from` on at which `part` stands, or the length where there is none.
pub open spec fn first_standing(text: Seq<char>, part: Seq<char>, from: int) -> int
    decreases text.len() - from,
{
    if from >= text.len() {
        text.len() as int
    } else if stands_at(text, part, from) {
        from
    } else {
        first_standing(text, part, from + 1)
    }
}

/// The first position at which a part that is not empty stands, or the length.
pub proof fn lemma_first_standing(text: Seq<char>, part: Seq<char>, from: int)
    requires
        0 <= from <= text.len(),
        part.len() > 0,
    ensures
        ({
            let at = first_standing(text, part, from);
            &&& from <= at <= text.len()
            &&& at < text.len() ==> stands_at(text, part, at)
            &&& forall|k: int| from <= k < at ==> !stands_at(text, part, k)
            &&& at == text.len() ==> forall|k: int| from <= k ==> !stands_at(text, part, k)
        }),
    decreases text.len() - from,
{
    if from < text.len() && !stands_at(text, part, from) {
        lemma_first_standing(text, part, from + 1);
    }
}

/// The first position at which `part` stands, or the length where there is none.
pub fn find_text(chars: &[char], part: &[char]) -> (at: usize)
    requires
        part@.len() > 0,
    ensures
        at == first_standing(chars@, part@, 0),
        at <= chars@.len(),
        at < chars@.len() <==> occurs(chars@, part@),
        at < chars@.len() ==> stands_at(chars@, part@, at as int),
{
    proof {
        lemma_first_standing(chars@, part@, 0);
    }
    for i in 0..chars.len()
        invariant
            part@.len() > 0,
            first_standing(chars@, part@, 0) == first_standing(chars@, part@, i as int),
            first_standing(chars@, part@, 0) <= chars@.len(),
    {
        let rest = slice_subrange(chars, i, chars.len());
        if starts_with(rest, part) {
            proof {
                assert(rest@.take(part@.len() as int) =~= chars@.subrange(
                    i as int,
                    i + part@.len(),
                ));
                assert(stands_at(chars@, part@, i as int));
            }
            return i;
        }
        proof {
            if stands_at(chars@, part@, i as int) {
                assert(rest@.take(part@.len() as int) =~= chars@.subrange(
                    i as int,
                    i + part@.len(),
                ));
            }
        }
    }
    chars.len()
}

/// Whether `part` occurs in `chars`.
pub fn has_text(chars: &[char], part: &[char]) -> (answer: bool)
    requires
        part@.len() > 0,
    ensures
        answer == occurs(chars@, part@),
{
    find_text(chars, part) < chars.len()
}

/// The text without the white space at its beginning.
pub open spec fn trim_start(text: Seq<char>) -> Seq<char>
    decreases text.len(),
{
    if text.len() > 0 && is_white(text[0]) {
        trim_start(text.skip(1))
    } else {
        text
    }
}

/// The text without the white space at its end.
pub open spec fn trim_end(text: Seq<char>) -> Seq<char>
    decreases text.len(),
{
    if text.len() > 0 && is_white(text.last()) {
        trim_end(text.drop_last())
    } else {
        text
    }
}

/// The text without the white space at either end.
pub open spec fn trimmed(text: Seq<char>) -> Seq<char> {
    trim_end(trim_start(text))
}

/// The characters without the white space at either end.
pub fn trim(chars: &[char]) -> (out: Vec<char>)
    ensures
        out@ == trimmed(chars@),
{
    let mut start: usize = 0;
    assert(chars@.skip(0) =~= chars@);
    while start < chars.len() && white_space(chars[start])
        invariant
            start <= chars@.len(),
            trim_start(chars@.skip(start as int)) == trim_start(chars@),
        decreases chars@.len() - start,
    {
        assert(chars@.skip(start as int).skip(1) =~= chars@.skip(start + 1));
        start = start + 1;
    }
    let mut end: usize = chars.len();
    assert(chars@.subrange(start as int, end as int) =~= chars@.skip(start as int));
    while end > start && white_space(chars[end - 1])
        invariant
            start <= end <= chars@.len(),
            trim_end(chars@.subrange(start as int, end as int)) == trim_end(
                chars@.skip(start as int),
            ),
        decreases end,
    {
        assert(chars@.subrange(start as int, end as int).drop_last() =~= chars@.subrange(
            start as int,
            end - 1,
        ));
        end = end - 1;
    }
    slice_to_vec(slice_subrange(chars, start, end))
}

/// The decimal digits of a number, without leading zeros.
pub open spec fn decimal(number: nat) -> Seq<char>
    decreases number,
{
    if number < 10 {
        seq![digit_char(number)]
    } else {
        decimal(number / 10).push(digit_char(number % 10))
    }
}

/// The character of one decimal digit.
pub open spec fn digit_char(number: nat) -> char {
    (48 + number) as u8 as char
}

/// The decimal digits of a number, without leading zeros.
pub fn decimal_chars(number: u64) -> (chars: Vec<char>)
    ensures
        chars@ == decimal(number as nat),
    decreases number,
{
    let last: char = (48u8 + (number % 10) as u8) as char;
    if number < 10 {
        let mut chars: Vec<char> = Vec::new();
        chars.push(last);
        chars
    } else {
        let mut chars = decimal_chars(number / 10);
        chars.push(last);
        chars
    }
}

/// A number in decimal.
pub fn decimal_text(number: u64) -> (text: String)
    ensures
        text@ == decimal(number as nat),
{
    text_of(decimal_chars(number).as_slice())
}

/// A number of up to 128 bits in decimal.
pub fn wide_decimal_text(number: u128) -> (text: String)
    ensures
        text@ == decimal(number as nat),
    decreases number,
{
    let last: char = (48u8 + (number % 10) as u8) as char;
    let mut text = if number < 10 {
        String::new()
    } else {
        wide_decimal_text(number / 10)
    };
    text.push(last);
    assert(number < 10 ==> text@ =~= seq![last]);
    text
}

/// Whether every character is a decimal digit.
pub open spec fn all_digits(text: Seq<char>) -> bool {
    forall|i: int| 0 <= i < text.len() ==> is_digit(#[trigger] text[i])
}

/// The number that decimal digits spell.
pub open spec fn number_value(digits: Seq<char>) -> nat
    decreases digits.len(),
{
    if digits.len() == 0 {
        0
    } else {
        number_value(digits.drop_last()) * 10 + (digits.last() as nat - 48) as nat
    }
}

/// A text without one plus sign at its front.
pub open spec fn without_plus(text: Seq<char>) -> Seq<char> {
    if text.len() > 0 && text[0] == '+' {
        text.skip(1)
    } else {
        text
    }
}

/// The number that a text spells: one or more decimal digits, with a plus sign before them or not,
/// that fit into 64 bits.
pub open spec fn parsed_number(text: Seq<char>) -> Option<u64> {
    let digits = without_plus(text);
    if digits.len() > 0 && all_digits(digits) && number_value(digits) <= u64::MAX {
        Some(number_value(digits) as u64)
    } else {
        None
    }
}

proof fn lemma_number_grows(digits: Seq<char>, few: int, many: int)
    requires
        0 <= few <= many <= digits.len(),
        all_digits(digits),
    ensures
        number_value(digits.take(few)) <= number_value(digits.take(many)),
    decreases many,
{
    if few < many {
        lemma_number_grows(digits, few, many - 1);
        assert(digits.take(many).drop_last() =~= digits.take(many - 1));
        assert(is_digit(digits[many - 1]));
    }
}

/// The number that a text spells.
pub fn parse_number(text: &str) -> (number: Option<u64>)
    ensures
        number == parsed_number(text@),
{
    let chars = chars_of(text);
    let start: usize = if chars.len() > 0 && chars[0] == '+' {
        1
    } else {
        0
    };
    let ghost digits = without_plus(text@);
    assert(digits =~= text@.skip(start as int));
    if chars.len() == start {
        return None;
    }
    for i in start..chars.len()
        invariant
            start <= chars@.len(),
            chars@ == text@,
            digits == text@.skip(start as int),
            digits == without_plus(text@),
            forall|k: int| 0 <= k < i - start ==> is_digit(#[trigger] digits[k]),
    {
        assert(digits[i - start] == chars@[i as int]);
        if !digit(chars[i]) {
            return None;
        }
    }
    let mut value: u64 = 0;
    assert(digits.take(0).len() == 0);
    for i in start..chars.len()
        invariant
            start <= chars@.len(),
            chars@ == text@,
            digits == text@.skip(start as int),
            digits == without_plus(text@),
            all_digits(digits),
            value == number_value(digits.take(i - start)),
    {
        let ch = chars[i];
        proof {
            assert(digits[i - start] == ch);
            let longer = digits.take(i - start + 1);
            assert(longer.drop_last() =~= digits.take(i - start));
            assert(longer.last() == ch);
            lemma_number_grows(digits, i - start + 1, digits.len() as int);
            assert(digits.take(digits.len() as int) =~= digits);
        }
        let digit: u64 = (ch as u32 - 48) as u64;
        match value.checked_mul(10) {
            None => {
                return None;
            },
            Some(tens) => match tens.checked_add(digit) {
                None => {
                    return None;
                },
                Some(next) => {
                    value = next;
                },
            },
        }
    }
    assert(digits.take(digits.len() as int) =~= digits);
    Some(value)
}

/// Reading a number that was written in decimal gives it back.
pub proof fn decimal_numbers_read_back(number: u64)
    ensures
        parsed_number(decimal(number as nat)) == Some(number),
{
    lemma_decimal_value(number as nat);
    let text = decimal(number as nat);
    assert(is_digit(text[0]));
}

proof fn lemma_decimal_value(number: nat)
    ensures
        decimal(number).len() > 0,
        all_digits(decimal(number)),
        number_value(decimal(number)) == number,
    decreases number,
{
    if number < 10 {
        let text = decimal(number);
        assert(text.drop_last().len() == 0);
        assert(number_value(text.drop_last()) == 0);
        assert(text.last() as nat == 48 + number);
    } else {
        lemma_decimal_value(number / 10);
        let text = decimal(number);
        assert(text.drop_last() =~= decimal(number / 10));
        assert(text.last() as nat == 48 + number % 10);
    }
}

/// Characters are told apart by their code points alone.
pub proof fn characters_are_told_apart_by_code_points(ch: char)
    ensures
        is_digit(ch) <==> 48 <= ch as u32 <= 57,
        is_upper(ch) <==> 65 <= ch as u32 <= 90,
        is_lower(ch) <==> 97 <= ch as u32 <= 122,
        is_alphanumeric(ch) <==> 48 <= ch as u32 <= 57 || 65 <= ch as u32 <= 90 || 97 <= ch as u32
            <= 122,
        is_control(ch) <==> ch as u32 <= 31 || ch as u32 == 127,
        is_white(ch) <==> 9 <= ch as u32 <= 13 || ch as u32 == 32 || ch as u32 == 0x85 || ch as u32
            == 0xa0 || ch as u32 == 0x1680 || 0x2000 <= ch as u32 <= 0x200a || ch as u32 == 0x2028
            || ch as u32 == 0x2029 || ch as u32 == 0x202f || ch as u32 == 0x205f || ch as u32
            == 0x3000,
{
}

/// Changing the case of a text keeps its length, moves the 26 letters of ASCII by 32 code points,
/// and leaves every other character as it is.
pub proof fn case_moves_letters_by_32(text: Seq<char>, i: int)
    requires
        0 <= i < text.len(),
    ensures
        ascii_upper(text).len() == text.len(),
        ascii_lower(text).len() == text.len(),
        97 <= text[i] as u32 <= 122 ==> ascii_upper(text)[i] as u32 + 32 == text[i] as u32,
        !(97 <= text[i] as u32 <= 122) ==> ascii_upper(text)[i] == text[i],
        65 <= text[i] as u32 <= 90 ==> ascii_lower(text)[i] as u32 == text[i] as u32 + 32,
        !(65 <= text[i] as u32 <= 90) ==> ascii_lower(text)[i] == text[i],
{
}

/// Texts with a separator between them.
pub open spec fn joined_with(parts: Seq<Seq<char>>, sep: char) -> Seq<char>
    decreases parts.len(),
{
    if parts.len() == 0 {
        Seq::empty()
    } else if parts.len() == 1 {
        parts[0]
    } else {
        parts[0].push(sep) + joined_with(parts.skip(1), sep)
    }
}

/// The pieces of a text, joined again, are the text, and none of them holds a separator.
pub proof fn pieces_make_the_text(text: Seq<char>, sep: char)
    ensures
        split_on(text, sep).len() > 0,
        joined_with(split_on(text, sep), sep) == text,
        forall|i: int|
            0 <= i < split_on(text, sep).len() ==> !(#[trigger] split_on(text, sep)[i]).contains(
                sep,
            ),
    decreases text.len(),
{
    let at = first_at(text, sep);
    lemma_first_at(text, sep);
    if at < text.len() {
        let rest = text.skip(at + 1);
        pieces_make_the_text(rest, sep);
        let all = split_on(text, sep);
        assert(all.skip(1) =~= split_on(rest, sep));
        assert(text =~= text.take(at).push(sep) + rest);
        assert forall|i: int| 0 <= i < all.len() implies !(#[trigger] all[i]).contains(sep) by {
            if i == 0 {
                assert(all[0] == text.take(at));
            } else {
                assert(all[i] == split_on(rest, sep)[i - 1]);
            }
        }
    }
}

/// Texts without separators, joined, fall into the same texts again.
pub proof fn joined_texts_fall_apart_again(parts: Seq<Seq<char>>, sep: char)
    requires
        parts.len() > 0,
        forall|i: int| 0 <= i < parts.len() ==> !(#[trigger] parts[i]).contains(sep),
    ensures
        split_on(joined_with(parts, sep), sep) == parts,
    decreases parts.len(),
{
    let text = joined_with(parts, sep);
    let first = parts[0];
    lemma_first_at(first, sep);
    if parts.len() == 1 {
        assert(split_on(text, sep) =~= parts);
    } else {
        let rest = parts.skip(1);
        assert forall|i: int| 0 <= i < rest.len() implies !(#[trigger] rest[i]).contains(sep) by {
            assert(rest[i] == parts[i + 1]);
        }
        joined_texts_fall_apart_again(rest, sep);
        assert forall|i: int| 0 <= i < first.len() implies text[i] != sep by {
            assert(text[i] == first[i]);
            assert(first.contains(first[i]));
        }
        assert(text[first.len() as int] == sep);
        lemma_first_at_unique(text, sep, first.len() as int);
        assert(text.take(first.len() as int) =~= first);
        assert(text.skip(first.len() as int + 1) =~= joined_with(rest, sep));
        assert(split_on(text, sep) =~= parts);
    }
}

/// The last separator stands before what holds none; a text without one has no last one.
pub proof fn the_last_separator_is_found(front: Seq<char>, sep: char, end: Seq<char>)
    requires
        !end.contains(sep),
    ensures
        last_at(front.push(sep) + end, sep) == front.len(),
        last_at(end, sep) == -1,
    decreases end.len(),
{
    let text = front.push(sep) + end;
    if end.len() == 0 {
        assert(text.last() == sep);
    } else {
        let shorter = end.drop_last();
        assert forall|ch: char| shorter.contains(ch) implies end.contains(ch) by {
            let i = shorter.index_of(ch);
            assert(end[i] == ch);
        }
        the_last_separator_is_found(front, sep, shorter);
        assert(end.contains(end.last()));
        assert(text.last() == end.last());
        assert(text.drop_last() =~= front.push(sep) + shorter);
    }
}

/// A text begins with another if and only if it is that one and something behind it; and a part
/// occurs in a text if and only if the text is something, that part and something behind it.
pub proof fn parts_of_texts_are_found(text: Seq<char>, part: Seq<char>)
    ensures
        begins_with(text, part) <==> exists|rest: Seq<char>| text == #[trigger] (part + rest),
        occurs(text, part) <==> exists|front: Seq<char>, rest: Seq<char>|
            text == #[trigger] (front + part + rest),
{
    if begins_with(text, part) {
        assert(text =~= part + text.skip(part.len() as int));
    }
    if exists|rest: Seq<char>| text == #[trigger] (part + rest) {
        assert(text.take(part.len() as int) =~= part);
    }
    if occurs(text, part) {
        let at = choose|at: int| stands_at(text, part, at);
        assert(text =~= text.take(at) + part + text.skip(at + part.len()));
    }
    if exists|front: Seq<char>, rest: Seq<char>| text == #[trigger] (front + part + rest) {
        let (front, rest) = choose|front: Seq<char>, rest: Seq<char>|
            text == #[trigger] (front + part + rest);
        assert(text.subrange(front.len() as int, (front.len() + part.len()) as int) =~= part);
        assert(stands_at(text, part, front.len() as int));
    }
}

/// Trimming takes white space away at both ends and nothing else: what is left neither begins nor
/// ends with white space, and white space around it makes no difference.
pub proof fn trimming_takes_white_space_away(front: Seq<char>, text: Seq<char>, end: Seq<char>)
    requires
        forall|i: int| 0 <= i < front.len() ==> is_white(#[trigger] front[i]),
        forall|i: int| 0 <= i < end.len() ==> is_white(#[trigger] end[i]),
        text.len() > 0 ==> !is_white(text[0]) && !is_white(text.last()),
    ensures
        trimmed(front + text + end) == text,
    decreases front.len() + end.len(),
{
    let all = front + text + end;
    if front.len() > 0 {
        let shorter = front.skip(1);
        assert forall|i: int| 0 <= i < shorter.len() implies is_white(#[trigger] shorter[i]) by {
            assert(shorter[i] == front[i + 1]);
        }
        assert(all.skip(1) =~= shorter + text + end);
        assert(all[0] == front[0]);
        trimming_takes_white_space_away(shorter, text, end);
    } else if text.len() > 0 {
        assert(all[0] == text[0]);
        assert(trim_start(all) == all);
        lemma_trim_end(text, end);
        assert(all =~= text + end);
    } else if end.len() > 0 {
        let shorter = end.skip(1);
        assert forall|i: int| 0 <= i < shorter.len() implies is_white(#[trigger] shorter[i]) by {
            assert(shorter[i] == end[i + 1]);
        }
        assert(all[0] == end[0]);
        assert(all.skip(1) =~= front + text + shorter);
        trimming_takes_white_space_away(front, text, shorter);
    } else {
        assert(all =~= text);
    }
}

proof fn lemma_trim_end(text: Seq<char>, end: Seq<char>)
    requires
        text.len() > 0,
        !is_white(text.last()),
        forall|i: int| 0 <= i < end.len() ==> is_white(#[trigger] end[i]),
    ensures
        trim_end(text + end) == text,
    decreases end.len(),
{
    let all = text + end;
    if end.len() > 0 {
        let shorter = end.drop_last();
        assert(all.last() == end[end.len() - 1]);
        assert(all.drop_last() =~= text + shorter);
        lemma_trim_end(text, shorter);
    } else {
        assert(all =~= text);
    }
}

/// Decimal digits stand by their weight: a digit behind a number is worth itself, and what stands
/// before it ten times as much, both where numbers are written and where they are read.
pub proof fn decimal_digits_have_their_weight(number: nat, digit: nat, digits: Seq<char>, ch: char)
    requires
        digit < 10,
        48 <= ch as u32 <= 57,
    ensures
        decimal(digit).len() == 1,
        decimal(digit)[0] as u32 == 48 + digit,
        number > 0 ==> decimal(10 * number + digit) == decimal(number) + decimal(digit),
        number_value(digits.push(ch)) == 10 * number_value(digits) + (ch as u32 - 48),
        number_value(Seq::empty()) == 0,
{
    if number > 0 {
        let whole = 10 * number + digit;
        assert(whole / 10 == number && whole % 10 == digit);
        assert(decimal(whole) =~= decimal(number) + decimal(digit));
    }
    assert(digits.push(ch).drop_last() =~= digits);
}

/// A text spells a number if and only if it is digits that fit into 64 bits, with a plus sign
/// before them or not.
pub proof fn plus_signs_make_no_difference(digits: Seq<char>)
    requires
        digits.len() > 0,
        forall|i: int| 0 <= i < digits.len() ==> 48 <= (#[trigger] digits[i]) as int <= 57,
    ensures
        parsed_number(digits) == if number_value(digits) <= u64::MAX {
            Some(number_value(digits) as u64)
        } else {
            None
        },
        parsed_number(seq!['+'] + digits) == parsed_number(digits),
{
    assert(is_digit(digits[0]));
    assert((seq!['+'] + digits).skip(1) =~= digits);
    assert forall|i: int| 0 <= i < digits.len() implies is_digit(#[trigger] digits[i]) by {}
}

/// A text with anything but digits behind the first character spells no number, nor does one that
/// begins with anything but a digit or a plus sign.
pub proof fn other_texts_spell_no_number(text: Seq<char>, i: int)
    requires
        0 <= i < text.len(),
        !(48 <= text[i] as int <= 57),
        i > 0 || text[i] != '+' || text.len() == 1,
    ensures
        parsed_number(text) is None,
{
    let digits = without_plus(text);
    if text[0] == '+' {
        if i > 0 {
            assert(digits[i - 1] == text[i]);
        }
    } else {
        assert(!is_digit(digits[i]));
    }
}

} // verus!
