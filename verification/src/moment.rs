//! Canonical UTC timestamps such as `2026-07-21T00:00:00Z`.

use vstd::prelude::*;
use vstd::slice::slice_subrange;
use crate::error::{Error, ErrorView};
use crate::text::{chars_of, digit, is_digit, join2, join3, text_of};

verus! {

/// A date and a time of day of the Gregorian calendar.
#[derive(Clone, Copy, Debug, PartialEq, Eq, Structural)]
pub struct CivilMoment {
    pub year: i16,
    pub month: i8,
    pub day: i8,
    pub hour: i8,
    pub minute: i8,
    pub second: i8,
}

/// The character that stands at a position that is no digit.
pub open spec fn separator_at(i: int) -> Option<char> {
    if i == 4 || i == 7 {
        Some('-')
    } else if i == 10 {
        Some('T')
    } else if i == 13 || i == 16 {
        Some(':')
    } else if i == 19 {
        Some('Z')
    } else {
        None
    }
}

/// Whether the first `length` characters have the shape `YYYY-MM-DDTHH:MM:SSZ`.
pub open spec fn has_shape(text: Seq<char>, length: int) -> bool {
    &&& text.len() == length
    &&& forall|i: int|
        0 <= i < length ==> match separator_at(i) {
            Some(separator) => #[trigger] text[i] == separator,
            None => is_digit(text[i]),
        }
}

/// The number that two digits write.
pub open spec fn two_digits(text: Seq<char>, at: int) -> int {
    (text[at] as int - 48) * 10 + (text[at + 1] as int - 48)
}

/// The number of days of a month.
pub open spec fn days_in_month(year: int, month: int) -> int {
    if month == 2 {
        if year % 4 == 0 && (year % 100 != 0 || year % 400 == 0) {
            29
        } else {
            28
        }
    } else if month == 4 || month == 6 || month == 9 || month == 11 {
        30
    } else {
        31
    }
}

/// The year that four digits write.
pub open spec fn year_of(text: Seq<char>) -> int {
    two_digits(text, 0) * 100 + two_digits(text, 2)
}

/// Whether a text of the shape `YYYY-MM-DDTHH:MM:SS` names a day that exists and a time of day,
/// leap seconds included.
pub open spec fn is_real_moment(text: Seq<char>) -> bool {
    let month = two_digits(text, 5);
    let day = two_digits(text, 8);
    &&& 1 <= month <= 12
    &&& 1 <= day <= days_in_month(year_of(text), month)
    &&& two_digits(text, 11) <= 23
    &&& two_digits(text, 14) <= 59
    &&& two_digits(text, 17) <= 60
}

/// The moment that a text of the shape `YYYY-MM-DDTHH:MM:SS` names; a leap second counts as the
/// second before it.
pub open spec fn moment_of(text: Seq<char>) -> CivilMoment {
    let second = two_digits(text, 17);
    CivilMoment {
        year: year_of(text) as i16,
        month: two_digits(text, 5) as i8,
        day: two_digits(text, 8) as i8,
        hour: two_digits(text, 11) as i8,
        minute: two_digits(text, 14) as i8,
        second: if second == 60 {
            59
        } else {
            second as i8
        },
    }
}

/// The message of jiff's error for a text that its parser for `jiff::civil::DateTime` refuses.
pub uninterp spec fn moment_failure(text: Seq<char>) -> Seq<char>;

/// Calls jiff's parser for `jiff::civil::DateTime`. Of a text of the shape `YYYY-MM-DDTHH:MM:SS`
/// it accepts exactly the days that exist with a time of day, takes the second 60 for 59, and
/// answers every other one with an error whose message depends on the text alone.
#[verifier::external_body]
pub(crate) fn parse_moment(text: &str) -> (parsed: Result<CivilMoment, String>)
    requires
        has_shape(text@, 19),
    ensures
        match parsed {
            Ok(moment) => is_real_moment(text@) && moment == moment_of(text@),
            Err(message) => !is_real_moment(text@) && message@ == moment_failure(text@),
        },
{
    match text.parse::<jiff::civil::DateTime>() {
        Ok(value) => Ok(
            CivilMoment {
                year: value.year(),
                month: value.month(),
                day: value.day(),
                hour: value.hour(),
                minute: value.minute(),
                second: value.second(),
            },
        ),
        Err(error) => Err(error.to_string()),
    }
}

/// Calls `jiff::Timestamp::now` and writes it with `strftime` as `%Y-%m-%dT%H:%M:%SZ`. Nothing is
/// stated of the result: it is the time of the system's clock.
#[verifier::external_body]
pub(crate) fn current_time() -> String {
    jiff::Timestamp::now().strftime("%Y-%m-%dT%H:%M:%SZ").to_string()
}

/// Whether `left` is earlier than `right`.
pub open spec fn is_earlier(left: CivilMoment, right: CivilMoment) -> bool {
    if left.year != right.year {
        left.year < right.year
    } else if left.month != right.month {
        left.month < right.month
    } else if left.day != right.day {
        left.day < right.day
    } else if left.hour != right.hour {
        left.hour < right.hour
    } else if left.minute != right.minute {
        left.minute < right.minute
    } else {
        left.second < right.second
    }
}

/// Whether `left` is earlier than `right`.
pub fn earlier(left: CivilMoment, right: CivilMoment) -> (answer: bool)
    ensures
        answer == is_earlier(left, right),
{
    if left.year != right.year {
        left.year < right.year
    } else if left.month != right.month {
        left.month < right.month
    } else if left.day != right.day {
        left.day < right.day
    } else if left.hour != right.hour {
        left.hour < right.hour
    } else if left.minute != right.minute {
        left.minute < right.minute
    } else {
        left.second < right.second
    }
}

/// The date and time of a timestamp, without the letter for UTC.
pub open spec fn civil_part(text: Seq<char>) -> Seq<char> {
    text.take(19)
}

/// A canonical UTC timestamp of a day that exists.
pub open spec fn is_timestamp(text: Seq<char>) -> bool {
    has_shape(text, 20) && is_real_moment(civil_part(text))
}

/// The error for a text that is no canonical timestamp.
pub open spec fn timestamp_error(text: Seq<char>, label: Seq<char>) -> ErrorView {
    ErrorView::InvalidCatalog(
        if has_shape(text, 20) {
            label + " must be canonical UTC RFC 3339: "@ + moment_failure(civil_part(text))
        } else {
            label + " must be canonical UTC RFC 3339"@
        },
    )
}

fn shaped(chars: &[char]) -> (answer: bool)
    ensures
        answer == has_shape(chars@, 20),
{
    if chars.len() != 20 {
        return false;
    }
    for i in 0..20usize
        invariant
            chars@.len() == 20,
            forall|k: int|
                0 <= k < i ==> match separator_at(k) {
                    Some(separator) => #[trigger] chars@[k] == separator,
                    None => is_digit(chars@[k]),
                },
    {
        let ch = chars[i];
        let fits = if i == 4 || i == 7 {
            ch == '-'
        } else if i == 10 {
            ch == 'T'
        } else if i == 13 || i == 16 {
            ch == ':'
        } else if i == 19 {
            ch == 'Z'
        } else {
            digit(ch)
        };
        if !fits {
            assert(chars@[i as int] == ch);
            return false;
        }
    }
    true
}

/// Reads a canonical UTC timestamp.
pub fn canonical_timestamp(value: &str, label: &str) -> (outcome: Result<CivilMoment, Error>)
    ensures
        match outcome {
            Ok(moment) => is_timestamp(value@) && moment == moment_of(civil_part(value@)),
            Err(error) => !is_timestamp(value@) && error@ == timestamp_error(value@, label@),
        },
{
    let chars = chars_of(value);
    if !shaped(chars.as_slice()) {
        return Err(
            Error::InvalidCatalog(join2(label, " must be canonical UTC RFC 3339")),
        );
    }
    let civil = text_of(slice_subrange(chars.as_slice(), 0, 19));
    assert(civil@ =~= civil_part(value@));
    assert forall|i: int| 0 <= i < 19 implies match separator_at(i) {
        Some(separator) => #[trigger] civil@[i] == separator,
        None => is_digit(civil@[i]),
    } by {
        assert(civil@[i] == value@[i]);
    }
    match parse_moment(civil.as_str()) {
        Ok(moment) => Ok(moment),
        Err(message) => Err(
            Error::InvalidCatalog(
                join3(label, " must be canonical UTC RFC 3339: ", message.as_str()),
            ),
        ),
    }
}

/// Of two canonical timestamps without a leap second the earlier one is the one whose text comes
/// first.
pub proof fn timestamp_texts_sort_by_time(left: Seq<char>, right: Seq<char>)
    requires
        is_timestamp(left),
        is_timestamp(right),
        two_digits(left, 17) != 60,
        two_digits(right, 17) != 60,
    ensures
        crate::order::text_less(left, right) == is_earlier(
            moment_of(civil_part(left)),
            moment_of(civil_part(right)),
        ),
{
    let l = civil_part(left);
    let r = civil_part(right);
    assert forall|i: int| 0 <= i < 19 implies #[trigger] l[i] == left[i] && r[i] == right[i] by {}
    if exists|i: int| 0 <= i < 20 && left[i] != right[i] {
        let at = first_difference(left, right, 0);
        lemma_first_difference(left, right, 0);
        lemma_less_at(left, right, at);
        assert(separator_at(at) is None);
        assert forall|i: int| 0 <= i < at implies left[i] == right[i] by {}
        assert(is_digit(left[at]) && is_digit(right[at]));
        reveal_positions(left);
        reveal_positions(right);
    } else {
        assert(left =~= right);
        crate::order::lemma_less_irreflexive(left);
    }
}

spec fn first_difference(left: Seq<char>, right: Seq<char>, from: int) -> int
    decreases 20 - from,
{
    if from >= 20 || left[from] != right[from] {
        from
    } else {
        first_difference(left, right, from + 1)
    }
}

proof fn lemma_first_difference(left: Seq<char>, right: Seq<char>, from: int)
    requires
        0 <= from < 20,
        exists|i: int| from <= i < 20 && left[i] != right[i],
        forall|i: int| 0 <= i < from ==> left[i] == right[i],
    ensures
        from <= first_difference(left, right, from) < 20,
        left[first_difference(left, right, from)] != right[first_difference(left, right, from)],
        forall|i: int| 0 <= i < first_difference(left, right, from) ==> left[i] == right[i],
    decreases 20 - from,
{
    if left[from] == right[from] {
        lemma_first_difference(left, right, from + 1);
    }
}

proof fn lemma_less_at(left: Seq<char>, right: Seq<char>, at: int)
    requires
        0 <= at < left.len(),
        at < right.len(),
        left[at] != right[at],
        forall|i: int| 0 <= i < at ==> left[i] == right[i],
    ensures
        crate::order::text_less(left, right) == (left[at] < right[at]),
    decreases at,
{
    if at > 0 {
        assert(left[0] == right[0]);
        assert forall|i: int| 0 <= i < at - 1 implies left.skip(1)[i] == right.skip(1)[i] by {
            assert(left[i + 1] == right[i + 1]);
        }
        lemma_less_at(left.skip(1), right.skip(1), at - 1);
    }
}

proof fn reveal_positions(text: Seq<char>)
    requires
        has_shape(text, 20),
    ensures
        is_digit(text[0]) && is_digit(text[1]) && is_digit(text[2]) && is_digit(text[3]),
        text[4] == '-',
        is_digit(text[5]) && is_digit(text[6]),
        text[7] == '-',
        is_digit(text[8]) && is_digit(text[9]),
        text[10] == 'T',
        is_digit(text[11]) && is_digit(text[12]),
        text[13] == ':',
        is_digit(text[14]) && is_digit(text[15]),
        text[16] == ':',
        is_digit(text[17]) && is_digit(text[18]),
        text[19] == 'Z',
{
}

/// A timestamp is twenty characters, digits but for the hyphens, the colons, the `T` and the `Z`.
pub proof fn timestamps_have_twenty_characters(text: Seq<char>, i: int)
    requires
        is_timestamp(text),
        0 <= i < 20,
    ensures
        text.len() == 20,
        text[4] as int == 45 && text[7] as int == 45,
        text[10] as int == 84,
        text[13] as int == 58 && text[16] as int == 58,
        text[19] as int == 90,
        i != 4 && i != 7 && i != 10 && i != 13 && i != 16 && i != 19 ==> 48 <= text[i] as int <= 57,
{
    reveal_positions(text);
    assert(match separator_at(i) {
        Some(separator) => text[i] == separator,
        None => is_digit(text[i]),
    });
}

/// What is written as four digits for the year and two each for the month, the day, the hour, the
/// minute and the second is a timestamp if and only if there is such a day, with 24 hours of 60
/// minutes and a leap second, and names that moment, the leap second being that before it.
pub proof fn timestamps_name_their_moment(
    text: Seq<char>,
    year: int,
    month: int,
    day: int,
    hour: int,
    minute: int,
    second: int,
)
    requires
        0 <= year <= 9999,
        0 <= month <= 99,
        0 <= day <= 99,
        0 <= hour <= 99,
        0 <= minute <= 99,
        0 <= second <= 99,
        text.len() == 20,
        text[0] as int == 48 + year / 1000,
        text[1] as int == 48 + (year / 100) % 10,
        text[2] as int == 48 + (year / 10) % 10,
        text[3] as int == 48 + year % 10,
        text[4] == '-',
        text[5] as int == 48 + month / 10,
        text[6] as int == 48 + month % 10,
        text[7] == '-',
        text[8] as int == 48 + day / 10,
        text[9] as int == 48 + day % 10,
        text[10] == 'T',
        text[11] as int == 48 + hour / 10,
        text[12] as int == 48 + hour % 10,
        text[13] == ':',
        text[14] as int == 48 + minute / 10,
        text[15] as int == 48 + minute % 10,
        text[16] == ':',
        text[17] as int == 48 + second / 10,
        text[18] as int == 48 + second % 10,
        text[19] == 'Z',
    ensures
        is_timestamp(text) <==> {
            &&& 1 <= day && hour <= 23 && minute <= 59 && second <= 60
            &&& month == 1 || month == 3 || month == 5 || month == 7 || month == 8 || month == 10
                || month == 12 ==> day <= 31
            &&& month == 4 || month == 6 || month == 9 || month == 11 ==> day <= 30
            &&& month == 2 ==> day <= 29
            &&& month == 2 && (year % 4 != 0 || (year % 100 == 0 && year % 400 != 0)) ==> day <= 28
            &&& 1 <= month <= 12
        },
        is_timestamp(text) ==> {
            let moment = moment_of(civil_part(text));
            &&& moment.year == year
            &&& moment.month == month
            &&& moment.day == day
            &&& moment.hour == hour
            &&& moment.minute == minute
            &&& moment.second == if second == 60 {
                59
            } else {
                second
            }
        },
{
    let civil = civil_part(text);
    assert forall|i: int| 0 <= i < 19 implies #[trigger] civil[i] == text[i] by {}
    assert(two_digits(civil, 5) == month);
    assert(two_digits(civil, 8) == day);
    assert(two_digits(civil, 11) == hour);
    assert(two_digits(civil, 14) == minute);
    assert(two_digits(civil, 17) == second);
    assert(year_of(civil) == year);
    assert(has_shape(text, 20)) by {
        assert forall|i: int| 0 <= i < 20 implies match separator_at(i) {
            Some(separator) => #[trigger] text[i] == separator,
            None => is_digit(text[i]),
        } by {
            if i < 10 {
            } else {
            }
        }
    }
}

/// Of two moments the earlier is the one of the smaller year, month, day, hour, minute and second,
/// the greater of these deciding before the smaller.
pub proof fn moments_are_ordered_by_time(left: CivilMoment, right: CivilMoment)
    requires
        0 <= left.month < 100 && 0 <= left.day < 100 && 0 <= left.hour < 100 && 0 <= left.minute
            < 100 && 0 <= left.second < 100,
        0 <= right.month < 100 && 0 <= right.day < 100 && 0 <= right.hour < 100 && 0 <= right.minute
            < 100 && 0 <= right.second < 100,
    ensures
        is_earlier(left, right) <==> 10000000000 * left.year + 100000000 * left.month + 1000000
            * left.day + 10000 * left.hour + 100 * left.minute + left.second < 10000000000
            * right.year + 100000000 * right.month + 1000000 * right.day + 10000 * right.hour + 100
            * right.minute + right.second,
{
}

} // verus!
