//! The field of the launcher that says what the rest of its package must be.

use vstd::prelude::*;
use vstd::slice::slice_subrange;
use vstd::utf8::{
    decode_utf8, encode_utf8, encode_utf8_decode_utf8, encode_utf8_valid_utf8,
    is_ascii_chars_encode_utf8, valid_utf8,
};
use crate::archive::{digits_value, is_digit_byte};
use crate::error::{Error, ErrorView};
use crate::package::{same_snapshot, PackageSnapshot, SnapshotView};
use crate::rules::{is_digest, is_lower_hex};
use crate::text::{decimal, decimal_text, join2, join3};

verus! {

/// The bytes that mark the field.
pub const PAYLOAD_REVIEW_MARKER_LEN: usize = 32;

/// The bytes of the digest in the field.
pub const PAYLOAD_REVIEW_DIGEST_LEN: usize = 64;

/// The bytes of each number in the field.
pub const PAYLOAD_REVIEW_COUNT_LEN: usize = 20;

/// The bytes of the whole field.
pub const PAYLOAD_REVIEW_LEN: usize = 136;

/// `UCI-GRABBER-MAIA-PAYLOAD-REVIEW:` in ASCII.
pub open spec fn marker() -> Seq<u8> {
    seq![
        0x55u8, 0x43, 0x49, 0x2d, 0x47, 0x52, 0x41, 0x42, 0x42, 0x45, 0x52, 0x2d, 0x4d, 0x41, 0x49,
        0x41, 0x2d, 0x50, 0x41, 0x59, 0x4c, 0x4f, 0x41, 0x44, 0x2d, 0x52, 0x45, 0x56, 0x49, 0x45,
        0x57, 0x3a,
    ]
}

/// The field of a launcher that was not personalized: the marker, and question marks.
pub open spec fn placeholder() -> Seq<u8> {
    marker() + Seq::new(104, |i: int| 0x3fu8)
}

/// The field of a launcher that was not personalized.
pub fn payload_review_placeholder() -> (field: Vec<u8>)
    ensures
        field@ == placeholder(),
        field@.len() == PAYLOAD_REVIEW_LEN,
{
    let mut field: Vec<u8> = vec![
        0x55u8, 0x43, 0x49, 0x2d, 0x47, 0x52, 0x41, 0x42, 0x42, 0x45, 0x52, 0x2d, 0x4d, 0x41, 0x49,
        0x41, 0x2d, 0x50, 0x41, 0x59, 0x4c, 0x4f, 0x41, 0x44, 0x2d, 0x52, 0x45, 0x56, 0x49, 0x45,
        0x57, 0x3a,
    ];
    assert(field@ =~= marker());
    let ghost start = field@;
    assert(Seq::new(0, |i: int| 0x3fu8) =~= Seq::<u8>::empty());
    for i in 0..104usize
        invariant
            field@ == marker() + Seq::new(i as nat, |i: int| 0x3fu8),
    {
        field.push(0x3f);
        assert(field@ =~= marker() + Seq::new((i + 1) as nat, |i: int| 0x3fu8));
    }
    field
}

/// The digits of a number in a field of a width, with zeros before it.
pub open spec fn padded(number: nat, width: nat) -> Seq<u8>
    decreases width,
{
    if width == 0 {
        Seq::empty()
    } else {
        padded(number / 10, (width - 1) as nat).push((0x30 + number % 10) as u8)
    }
}

/// The field of a launcher that is bound to a package.
pub open spec fn review_bytes(payload: SnapshotView) -> Seq<u8> {
    marker() + encode_utf8(payload.sha256) + padded(payload.file_count as nat, 20) + padded(
        payload.byte_count as nat,
        20,
    )
}

fn padded_bytes(number: u64, width: usize) -> (digits: Vec<u8>)
    ensures
        digits@ == padded(number as nat, width as nat),
    decreases width,
{
    if width == 0 {
        Vec::new()
    } else {
        let mut digits = padded_bytes(number / 10, width - 1);
        digits.push((0x30 + number % 10) as u8);
        digits
    }
}

proof fn lemma_padded_len(number: nat, width: nat)
    ensures
        padded(number, width).len() == width,
        forall|i: int| 0 <= i < width ==> is_digit_byte(#[trigger] padded(number, width)[i]),
    decreases width,
{
    if width > 0 {
        lemma_padded_len(number / 10, (width - 1) as nat);
    }
}

spec fn ten_to(width: nat) -> nat
    decreases width,
{
    if width == 0 {
        1
    } else {
        10 * ten_to((width - 1) as nat)
    }
}

proof fn lemma_padded_value(number: nat, width: nat)
    requires
        number < ten_to(width),
    ensures
        digits_value(padded(number, width)) == number,
    decreases width,
{
    if width > 0 {
        lemma_padded_value(number / 10, (width - 1) as nat);
        let digits = padded(number, width);
        assert(digits.drop_last() =~= padded(number / 10, (width - 1) as nat));
    }
}

proof fn lemma_fits(number: u64)
    ensures
        number < ten_to(20),
{
    reveal_with_fuel(ten_to, 21);
}

/// Whether `part` stands in `bytes` at a position.
pub open spec fn stands(bytes: Seq<u8>, part: Seq<u8>, at: int) -> bool {
    0 <= at && at + part.len() <= bytes.len() && bytes.subrange(at, at + part.len()) == part
}

/// At how many of the first positions `part` stands in `bytes`.
pub open spec fn times_standing(bytes: Seq<u8>, part: Seq<u8>, positions: int) -> nat
    decreases positions,
{
    if positions <= 0 {
        0
    } else {
        times_standing(bytes, part, positions - 1) + if stands(bytes, part, positions - 1) {
            1nat
        } else {
            0nat
        }
    }
}

fn stands_in(bytes: &[u8], part: &[u8], at: usize) -> (answer: bool)
    requires
        at <= bytes@.len(),
    ensures
        answer == stands(bytes@, part@, at as int),
{
    let end = bytes.len();
    if part.len() > end - at {
        return false;
    }
    for i in 0..part.len()
        invariant
            end == bytes@.len(),
            at + part@.len() <= end,
            forall|k: int| 0 <= k < i ==> bytes@[at + k] == part@[k],
    {
        if bytes[at + i] != part[i] {
            assert(bytes@.subrange(at as int, at + part@.len())[i as int] != part@[i as int]);
            return false;
        }
    }
    assert(bytes@.subrange(at as int, at + part@.len()) =~= part@);
    true
}

/// What is to be written into a launcher, and where.
#[derive(Debug, PartialEq, Eq)]
pub struct Personalization {
    pub offset: usize,
    pub review: Vec<u8>,
}

/// A launcher with its field written.
pub open spec fn personalized(launcher: Seq<u8>, offset: int, review: Seq<u8>) -> Seq<u8> {
    launcher.take(offset) + review + launcher.skip(offset + review.len())
}

/// How often the launcher holds a field that was not personalized.
pub open spec fn open_fields(launcher: Seq<u8>) -> nat {
    times_standing(launcher, placeholder(), launcher.len() as int)
}

/// Binds a launcher to the rest of its package: the launcher must hold exactly one field that was
/// not personalized, and what is written there is what the package must be.
pub fn personalize_maia_launcher(launcher: &[u8], payload: &PackageSnapshot) -> (outcome: Result<
    Personalization,
    Error,
>)
    requires
        is_digest(payload.sha256@),
    ensures
        match outcome {
            Ok(change) => {
                &&& open_fields(launcher@) == 1
                &&& stands(launcher@, placeholder(), change.offset as int)
                &&& change.review@ == review_bytes(payload@)
            },
            Err(error) => open_fields(launcher@) != 1 && error@ == ErrorView::Other(
                "reviewed Maia3 launcher must contain exactly one unpersonalized payload field; found "@
                    + decimal(open_fields(launcher@)),
            ),
        },
{
    let field = payload_review_placeholder();
    let mut found: u64 = 0;
    let mut offset: usize = 0;
    for i in 0..launcher.len()
        invariant
            field@ == placeholder(),
            found <= i,
            found == times_standing(launcher@, placeholder(), i as int),
            found > 0 ==> stands(launcher@, placeholder(), offset as int),
    {
        if stands_in(launcher, field.as_slice(), i) {
            found = found + 1;
            offset = i;
        }
    }
    if found != 1 {
        return Err(
            Error::Other(
                join2(
                    "reviewed Maia3 launcher must contain exactly one unpersonalized payload field; found ",
                    decimal_text(found).as_str(),
                ),
            ),
        );
    }
    let mut review: Vec<u8> = Vec::new();
    review.extend_from_slice(slice_subrange(field.as_slice(), 0, PAYLOAD_REVIEW_MARKER_LEN));
    assert(review@ =~= marker());
    review.extend_from_slice(payload.sha256.as_str().as_bytes());
    let mut files = padded_bytes(payload.file_count, PAYLOAD_REVIEW_COUNT_LEN);
    review.append(&mut files);
    let mut bytes = padded_bytes(payload.byte_count, PAYLOAD_REVIEW_COUNT_LEN);
    review.append(&mut bytes);
    assert(review@ =~= review_bytes(payload@));
    Ok(Personalization { offset, review })
}

/// Calls std's `str::from_utf8`: bytes that are valid UTF-8 are the text that they spell, others are
/// none.
#[verifier::external_body]
pub(crate) fn utf8_text(bytes: &[u8]) -> (text: Option<String>)
    ensures
        match text {
            Some(text) => valid_utf8(bytes@) && text@ == decode_utf8(bytes@),
            None => !valid_utf8(bytes@),
        },
{
    std::str::from_utf8(bytes).ok().map(str::to_owned)
}

/// A lowercase hexadecimal digit.
pub open spec fn is_hex_byte(byte: u8) -> bool {
    is_digit_byte(byte) || 0x61 <= byte <= 0x66
}

/// The number in a field of a launcher, or why there is none.
pub open spec fn count_field(bytes: Seq<u8>, label: Seq<char>) -> Result<u64, Seq<char>> {
    if !valid_utf8(bytes) {
        Err("the embedded "@ + label + " is not UTF-8"@)
    } else if exists|i: int| 0 <= i < bytes.len() && !is_digit_byte(#[trigger] bytes[i]) {
        Err("the embedded "@ + label + " is invalid"@)
    } else if digits_value(bytes) > u64::MAX {
        Err("the embedded "@ + label + " is invalid: number too large to fit in target type"@)
    } else {
        Ok(digits_value(bytes) as u64)
    }
}

/// What the field of a launcher says that its package must be, or why it says nothing.
pub open spec fn embedded_review(field: Seq<u8>) -> Result<SnapshotView, Seq<char>> {
    let digest = field.subrange(32, 96);
    if field.take(32) != marker() {
        Err("the embedded package-review marker is invalid"@)
    } else if !valid_utf8(digest) {
        Err("the embedded package digest is not UTF-8"@)
    } else if exists|i: int| 0 <= i < 64 && !is_hex_byte(#[trigger] digest[i]) {
        Err("the launcher has not been personalized by UCI Grabber"@)
    } else {
        match count_field(field.subrange(96, 116), "file count"@) {
            Err(message) => Err(message),
            Ok(file_count) => match count_field(field.subrange(116, 136), "byte count"@) {
                Err(message) => Err(message),
                Ok(byte_count) => Ok(
                    SnapshotView { sha256: decode_utf8(digest), file_count, byte_count },
                ),
            },
        }
    }
}

proof fn lemma_value_grows(digits: Seq<u8>, few: int, many: int)
    requires
        0 <= few <= many <= digits.len(),
        forall|i: int| 0 <= i < digits.len() ==> is_digit_byte(#[trigger] digits[i]),
    ensures
        0 <= digits_value(digits.take(few)) <= digits_value(digits.take(many)),
    decreases many,
{
    if few < many {
        lemma_value_grows(digits, few, many - 1);
        assert(digits.take(many).drop_last() =~= digits.take(many - 1));
        assert(is_digit_byte(digits[many - 1]));
    } else if many > 0 {
        lemma_value_grows(digits, few - 1, many - 1);
        assert(digits.take(many).drop_last() =~= digits.take(many - 1));
        assert(is_digit_byte(digits[many - 1]));
    }
}

/// Reads the number in a field of a launcher.
fn parse_count(bytes: &[u8], label: &str) -> (outcome: Result<u64, String>)
    ensures
        match count_field(bytes@, label@) {
            Ok(number) => outcome == Ok::<u64, String>(number),
            Err(message) => outcome matches Err(found) && found@ == message,
        },
{
    if utf8_text(bytes).is_none() {
        return Err(join3("the embedded ", label, " is not UTF-8"));
    }
    for i in 0..bytes.len()
        invariant
            valid_utf8(bytes@),
            forall|k: int| 0 <= k < i ==> is_digit_byte(#[trigger] bytes@[k]),
    {
        if bytes[i] < 0x30 || bytes[i] > 0x39 {
            assert(!is_digit_byte(bytes@[i as int]));
            return Err(join3("the embedded ", label, " is invalid"));
        }
    }
    let mut value: u64 = 0;
    assert(bytes@.take(0).len() == 0);
    for i in 0..bytes.len()
        invariant
            valid_utf8(bytes@),
            forall|k: int| 0 <= k < bytes@.len() ==> is_digit_byte(#[trigger] bytes@[k]),
            value == digits_value(bytes@.take(i as int)),
    {
        let digit = bytes[i] - 0x30;
        proof {
            assert(bytes@.take(i + 1).drop_last() =~= bytes@.take(i as int));
            assert(bytes@.take(i + 1).last() == bytes@[i as int]);
            lemma_value_grows(bytes@, i + 1, bytes@.len() as int);
            assert(bytes@.take(bytes@.len() as int) =~= bytes@);
        }
        let next = match value.checked_mul(10) {
            Some(tens) => tens.checked_add(digit as u64),
            None => None,
        };
        match next {
            Some(next) => {
                value = next;
            },
            None => {
                return Err(
                    join3(
                        "the embedded ",
                        label,
                        " is invalid: number too large to fit in target type",
                    ),
                );
            },
        }
    }
    assert(bytes@.take(bytes@.len() as int) =~= bytes@);
    Ok(value)
}

/// Reads the field of a launcher.
pub fn embedded_payload_review(field: &[u8]) -> (outcome: Result<PackageSnapshot, String>)
    requires
        field@.len() == PAYLOAD_REVIEW_LEN,
    ensures
        match embedded_review(field@) {
            Ok(snapshot) => outcome matches Ok(found) && found@ == snapshot,
            Err(message) => outcome matches Err(found) && found@ == message,
        },
{
    let template = payload_review_placeholder();
    let marked = stands_in(
        field,
        slice_subrange(template.as_slice(), 0, PAYLOAD_REVIEW_MARKER_LEN),
        0,
    );
    proof {
        assert(template@.subrange(0, 32) =~= marker());
        assert(field@.subrange(0, 32) =~= field@.take(32));
    }
    if !marked {
        return Err("the embedded package-review marker is invalid".to_owned());
    }
    let digits = slice_subrange(field, 32, 96);
    let sha256 = match utf8_text(digits) {
        Some(text) => text,
        None => {
            return Err("the embedded package digest is not UTF-8".to_owned());
        },
    };
    for i in 0..digits.len()
        invariant
            field@.len() == PAYLOAD_REVIEW_LEN,
            field@.take(32) == marker(),
            digits@ == field@.subrange(32, 96),
            valid_utf8(digits@),
            forall|k: int| 0 <= k < i ==> is_hex_byte(#[trigger] digits@[k]),
    {
        let byte = digits[i];
        if !((0x30 <= byte && byte <= 0x39) || (0x61 <= byte && byte <= 0x66)) {
            assert(!is_hex_byte(digits@[i as int]));
            return Err("the launcher has not been personalized by UCI Grabber".to_owned());
        }
    }
    match parse_count(slice_subrange(field, 96, 116), "file count") {
        Err(message) => Err(message),
        Ok(file_count) => match parse_count(slice_subrange(field, 116, 136), "byte count") {
            Err(message) => Err(message),
            Ok(byte_count) => Ok(PackageSnapshot { sha256, file_count, byte_count }),
        },
    }
}

/// The complaint about a package that is not what its launcher says.
pub open spec fn payload_complaint(field: Seq<u8>, actual: SnapshotView) -> Option<Seq<char>> {
    match embedded_review(field) {
        Err(message) => Some(message),
        Ok(expected) => if actual == expected {
            None
        } else {
            Some("the locally assembled Maia3 package has changed since installation"@)
        },
    }
}

/// Checks that the package of a launcher is what its field says.
pub fn verify_payload(field: &[u8], actual: &PackageSnapshot) -> (outcome: Result<(), String>)
    requires
        field@.len() == PAYLOAD_REVIEW_LEN,
    ensures
        match payload_complaint(field@, actual@) {
            None => outcome is Ok,
            Some(message) => outcome matches Err(found) && found@ == message,
        },
{
    match embedded_payload_review(field) {
        Err(message) => Err(message),
        Ok(expected) => if same_snapshot(actual, &expected) {
            Ok(())
        } else {
            Err("the locally assembled Maia3 package has changed since installation".to_owned())
        },
    }
}

proof fn lemma_digest_bytes(digest: Seq<char>)
    requires
        is_digest(digest),
    ensures
        encode_utf8(digest).len() == 64,
        forall|i: int| 0 <= i < 64 ==> is_hex_byte(#[trigger] encode_utf8(digest)[i]),
{
    assert forall|i: int| 0 <= i < digest.len() implies '\0' <= #[trigger] digest[i] <= '\u{7f}' by {
        assert(is_lower_hex(digest[i]));
    }
    is_ascii_chars_encode_utf8(digest);
    assert forall|i: int| 0 <= i < 64 implies is_hex_byte(#[trigger] encode_utf8(digest)[i]) by {
        assert(is_lower_hex(digest[i]));
        assert(digest[i] as u8 == encode_utf8(digest)[i]);
    }
}

proof fn lemma_digits_are_utf8(bytes: Seq<u8>)
    requires
        forall|i: int| 0 <= i < bytes.len() ==> is_digit_byte(#[trigger] bytes[i]),
    ensures
        valid_utf8(bytes),
{
    let chars = Seq::new(bytes.len(), |i: int| bytes[i] as char);
    assert forall|i: int| 0 <= i < chars.len() implies '\0' <= #[trigger] chars[i] <= '\u{7f}' by {
        assert(is_digit_byte(bytes[i]));
    }
    is_ascii_chars_encode_utf8(chars);
    assert forall|i: int| 0 <= i < bytes.len() implies encode_utf8(chars)[i] == bytes[i] by {
        assert(is_digit_byte(bytes[i]));
        assert(chars[i] as u8 == encode_utf8(chars)[i]);
    }
    assert(encode_utf8(chars) =~= bytes);
    encode_utf8_valid_utf8(chars);
}

proof fn lemma_count_reads_back(number: u64, label: Seq<char>)
    ensures
        count_field(padded(number as nat, 20), label) == Ok::<u64, Seq<char>>(number),
{
    lemma_padded_len(number as nat, 20);
    lemma_fits(number);
    lemma_padded_value(number as nat, 20);
    lemma_digits_are_utf8(padded(number as nat, 20));
}

/// What is written into a launcher is what the launcher reads.
pub proof fn reviews_read_back(payload: SnapshotView)
    requires
        is_digest(payload.sha256),
    ensures
        review_bytes(payload).len() == PAYLOAD_REVIEW_LEN,
        embedded_review(review_bytes(payload)) == Ok::<SnapshotView, Seq<char>>(payload),
{
    let field = review_bytes(payload);
    lemma_digest_bytes(payload.sha256);
    encode_utf8_decode_utf8(payload.sha256);
    encode_utf8_valid_utf8(payload.sha256);
    lemma_padded_len(payload.file_count as nat, 20);
    lemma_padded_len(payload.byte_count as nat, 20);
    lemma_count_reads_back(payload.file_count, "file count"@);
    lemma_count_reads_back(payload.byte_count, "byte count"@);
    assert(field.take(32) =~= marker());
    assert(field.subrange(32, 96) =~= encode_utf8(payload.sha256));
    assert(field.subrange(96, 116) =~= padded(payload.file_count as nat, 20));
    assert(field.subrange(116, 136) =~= padded(payload.byte_count as nat, 20));
}

/// A launcher that is bound to a package accepts that package and no other.
pub proof fn launchers_accept_their_package_alone(payload: SnapshotView, actual: SnapshotView)
    requires
        is_digest(payload.sha256),
    ensures
        payload_complaint(review_bytes(payload), actual) is None <==> actual == payload,
{
    reviews_read_back(payload);
}

/// A launcher that was not personalized accepts no package.
pub proof fn unpersonalized_launchers_accept_nothing(actual: SnapshotView)
    ensures
        payload_complaint(placeholder(), actual) == Some(
            "the launcher has not been personalized by UCI Grabber"@,
        ),
{
    let field = placeholder();
    assert(field.take(32) =~= marker());
    let digest = field.subrange(32, 96);
    let chars = Seq::new(64, |i: int| '?');
    is_ascii_chars_encode_utf8(chars);
    assert forall|i: int| 0 <= i < 64 implies encode_utf8(chars)[i] == digest[i] by {
        assert(chars[i] as u8 == encode_utf8(chars)[i]);
    }
    assert(encode_utf8(chars) =~= digest);
    encode_utf8_valid_utf8(chars);
    assert(!is_hex_byte(digest[0]));
}

proof fn lemma_times_standing(bytes: Seq<u8>, part: Seq<u8>, positions: int, at: int)
    requires
        0 <= at < positions,
        stands(bytes, part, at),
    ensures
        times_standing(bytes, part, positions) >= 1,
        forall|other: int|
            0 <= other < positions && other != at && stands(bytes, part, other)
                ==> times_standing(bytes, part, positions) >= 2,
    decreases positions,
{
    if at < positions - 1 {
        lemma_times_standing(bytes, part, positions - 1, at);
    } else {
        assert forall|other: int|
            0 <= other < positions && other != at && stands(bytes, part, other) implies
            times_standing(bytes, part, positions) >= 2 by {
            lemma_times_standing(bytes, part, positions - 1, other);
        }
    }
}

/// Once a launcher is bound to a package, no field of it is left that was not personalized, and the
/// field that was written reads back as the package.
pub proof fn personalized_launchers_hold_no_open_field(
    launcher: Seq<u8>,
    offset: int,
    payload: SnapshotView,
    at: int,
)
    requires
        is_digest(payload.sha256),
        open_fields(launcher) == 1,
        stands(launcher, placeholder(), offset),
    ensures
        !stands(personalized(launcher, offset, review_bytes(payload)), placeholder(), at),
        personalized(launcher, offset, review_bytes(payload)).len() == launcher.len(),
        personalized(launcher, offset, review_bytes(payload)).subrange(offset, offset + 136)
            == review_bytes(payload),
{
    let review = review_bytes(payload);
    reviews_read_back(payload);
    let after = personalized(launcher, offset, review);
    let open = placeholder();
    assert(after.subrange(offset, offset + 136) =~= review);
    if stands(after, open, at) {
        let window = after.subrange(at, at + 136);
        assert(window == open);
        if at + 136 <= offset + 32 || offset + 136 <= at {
            assert(launcher.subrange(at, at + 136) =~= window) by {
                assert forall|i: int| 0 <= i < 136 implies launcher[at + i] == window[i] by {
                    assert(window[i] == after[at + i]);
                    if offset <= at + i < offset + 32 {
                        assert(review[at + i - offset] == marker()[at + i - offset]);
                        assert(launcher.subrange(offset, offset + 136)[at + i - offset]
                            == open[at + i - offset]);
                        assert(open[at + i - offset] == marker()[at + i - offset]);
                    }
                }
            }
            lemma_times_standing(launcher, open, launcher.len() as int, offset);
            assert(stands(launcher, open, at));
            assert(false);
        } else {
            let k = if at <= offset + 32 {
                offset + 32 - at
            } else {
                0
            };
            let r = at + k - offset;
            assert(32 <= r < 136);
            assert(window[k] == after[at + k]);
            assert(after[at + k] == review[r]);
            lemma_digest_bytes(payload.sha256);
            lemma_padded_len(payload.file_count as nat, 20);
            lemma_padded_len(payload.byte_count as nat, 20);
            assert(is_hex_byte(review[r])) by {
                if r < 96 {
                    assert(review[r] == encode_utf8(payload.sha256)[r - 32]);
                } else if r < 116 {
                    assert(review[r] == padded(payload.file_count as nat, 20)[r - 96]);
                } else {
                    assert(review[r] == padded(payload.byte_count as nat, 20)[r - 116]);
                }
            }
            lemma_open_is_not_hex(k);
            assert(false);
        }
    }
}

proof fn lemma_open_is_not_hex(k: int)
    requires
        0 <= k < 136,
    ensures
        !is_hex_byte(placeholder()[k]),
{
    if k < 32 {
        assert(placeholder()[k] == marker()[k]);
    } else {
        assert(placeholder()[k] == 0x3f);
    }
}

/// The field of a launcher is marked by `UCI-GRABBER-MAIA-PAYLOAD-REVIEW:`, and one that is still
/// open is question marks behind that.
pub proof fn fields_are_marked(i: int)
    requires
        0 <= i < 136,
    ensures
        "UCI-GRABBER-MAIA-PAYLOAD-REVIEW:"@.len() == 32,
        marker().len() == 32,
        placeholder().len() == 136,
        i < 32 ==> marker()[i] as int == "UCI-GRABBER-MAIA-PAYLOAD-REVIEW:"@[i] as int && placeholder()[i] == marker()[i],
        i >= 32 ==> placeholder()[i] as int == 63,
{
    reveal_strlit("UCI-GRABBER-MAIA-PAYLOAD-REVIEW:");
}

/// The field of a launcher is the mark, the digest of its package, and how many files and then how
/// many bytes the package has, each in twenty digits.
pub proof fn fields_hold_digest_files_and_bytes(payload: SnapshotView)
    requires
        is_digest(payload.sha256),
    ensures
        review_bytes(payload).len() == 136,
        review_bytes(payload).take(32) == marker(),
        review_bytes(payload).subrange(32, 96) == encode_utf8(payload.sha256),
        digits_value(review_bytes(payload).subrange(96, 116)) == payload.file_count,
        digits_value(review_bytes(payload).subrange(116, 136)) == payload.byte_count,
        forall|i: int| 96 <= i < 136 ==> 48 <= #[trigger] review_bytes(payload)[i] <= 57,
{
    reviews_read_back(payload);
    let field = review_bytes(payload);
    let files = padded(payload.file_count as nat, 20);
    let bytes = padded(payload.byte_count as nat, 20);
    lemma_digest_bytes(payload.sha256);
    lemma_padded_len(payload.file_count as nat, 20);
    lemma_padded_len(payload.byte_count as nat, 20);
    lemma_fits(payload.file_count);
    lemma_fits(payload.byte_count);
    lemma_padded_value(payload.file_count as nat, 20);
    lemma_padded_value(payload.byte_count as nat, 20);
    assert(field.take(32) =~= marker());
    assert(field.subrange(32, 96) =~= encode_utf8(payload.sha256));
    assert(field.subrange(96, 116) =~= files);
    assert(field.subrange(116, 136) =~= bytes);
    assert forall|i: int| 96 <= i < 136 implies 48 <= #[trigger] field[i] <= 57 by {
        if i < 116 {
            assert(field[i] == files[i - 96]);
            assert(is_digit_byte(files[i - 96]));
        } else {
            assert(field[i] == bytes[i - 116]);
            assert(is_digit_byte(bytes[i - 116]));
        }
    }
}

/// A field says what the package must be if and only if it is marked, its digest is hexadecimal
/// digits in lower case, and both numbers are digits that fit into 64 bits; it then says what
/// stands there.
pub proof fn fields_are_read_as_they_stand(field: Seq<u8>)
    requires
        field.len() == 136,
    ensures
        embedded_review(field) matches Ok(payload) ==> {
            &&& field.take(32) == marker()
            &&& payload.sha256 == decode_utf8(field.subrange(32, 96))
            &&& payload.file_count == digits_value(field.subrange(96, 116))
            &&& payload.byte_count == digits_value(field.subrange(116, 136))
            &&& forall|i: int|
                32 <= i < 96 ==> 48 <= #[trigger] field[i] <= 57 || 97 <= field[i] <= 102
            &&& forall|i: int| 96 <= i < 136 ==> 48 <= #[trigger] field[i] <= 57
        },
{
    match embedded_review(field) {
        Err(_) => {},
        Ok(payload) => {
            let digest = field.subrange(32, 96);
            let files = field.subrange(96, 116);
            let bytes = field.subrange(116, 136);
            assert forall|i: int| 32 <= i < 96 implies 48 <= #[trigger] field[i] <= 57 || 97
                <= field[i] <= 102 by {
                assert(digest[i - 32] == field[i]);
                assert(is_hex_byte(digest[i - 32]));
            }
            assert forall|i: int| 96 <= i < 136 implies 48 <= #[trigger] field[i] <= 57 by {
                if i < 116 {
                    assert(files[i - 96] == field[i]);
                    assert(is_digit_byte(files[i - 96]));
                } else {
                    assert(bytes[i - 116] == field[i]);
                    assert(is_digit_byte(bytes[i - 116]));
                }
            }
            lemma_value_is_positive(files);
            lemma_value_is_positive(bytes);
        },
    }
}

proof fn lemma_value_is_positive(digits: Seq<u8>)
    requires
        forall|i: int| 0 <= i < digits.len() ==> is_digit_byte(#[trigger] digits[i]),
    ensures
        digits_value(digits) >= 0,
{
    lemma_value_grows(digits, 0, digits.len() as int);
    assert(digits.take(digits.len() as int) =~= digits);
}

/// Binding a launcher changes the field alone.
pub proof fn binding_changes_the_field_alone(
    launcher: Seq<u8>,
    offset: int,
    review: Seq<u8>,
    i: int,
)
    requires
        0 <= offset,
        offset + review.len() <= launcher.len(),
        0 <= i < launcher.len(),
    ensures
        personalized(launcher, offset, review).len() == launcher.len(),
        personalized(launcher, offset, review)[i] == if offset <= i < offset + review.len() {
            review[i - offset]
        } else {
            launcher[i]
        },
{
}

} // verus!
