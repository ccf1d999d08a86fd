//! The rules for the single fields of recipes and catalogs.

use vstd::prelude::*;
use vstd::slice::slice_subrange;
use crate::error::{settles, Error, ErrorView};
use crate::text::{
    alphanumeric, chars_of, control, decimal, decimal_digits_have_their_weight, digit, find_char,
    first_at, is_alphanumeric, is_control, is_digit, is_lower, is_white, join2,
    joined_texts_fall_apart_again, joined_with, lemma_first_at, lemma_first_at_unique, lower,
    pieces, pieces_make_the_text, same_text, split_chars, split_on, white_space,
};

verus! {

/// The error for a recipe that breaks a rule.
pub open spec fn rule_fault(holds: bool, message: Seq<char>) -> Option<ErrorView> {
    if holds {
        None
    } else {
        Some(ErrorView::InvalidRecipe(message))
    }
}

/// `Ok` where the rule holds, else the error with the message.
fn recipe_rule(holds: bool, message: String) -> (outcome: Result<(), Error>)
    ensures
        settles(outcome, rule_fault(holds, message@)),
{
    if holds {
        Ok(())
    } else {
        Err(Error::InvalidRecipe(message))
    }
}

/// The platforms that packages are made for.
pub open spec fn is_platform(name: Seq<char>) -> bool {
    ||| name == "linux-x86_64"@
    ||| name == "linux-aarch64"@
    ||| name == "macos-x86_64"@
    ||| name == "macos-aarch64"@
    ||| name == "windows-x86_64"@
    ||| name == "windows-aarch64"@
}

/// Whether packages are made for a platform of this name.
pub fn known_platform(name: &str) -> (answer: bool)
    ensures
        answer == is_platform(name@),
{
    same_text(name, "linux-x86_64") || same_text(name, "linux-aarch64") || same_text(
        name,
        "macos-x86_64",
    ) || same_text(name, "macos-aarch64") || same_text(name, "windows-x86_64") || same_text(
        name,
        "windows-aarch64",
    )
}

/// The error for an unknown platform.
pub open spec fn platform_fault(name: Seq<char>) -> Option<ErrorView> {
    rule_fault(is_platform(name), "unknown platform `"@ + name + "`"@)
}

/// Checks the platform of a package.
pub fn validate_platform(name: &str) -> (outcome: Result<(), Error>)
    ensures
        settles(outcome, platform_fault(name@)),
{
    let message = join2(join2("unknown platform `", name).as_str(), "`");
    recipe_rule(known_platform(name), message)
}

/// A lowercase letter, a digit or a hyphen.
pub open spec fn slug_char(ch: char) -> bool {
    is_lower(ch) || is_digit(ch) || ch == '-'
}

/// A stable lowercase identifier: 1 to 80 lowercase letters, digits and single inner hyphens.
pub open spec fn is_slug(text: Seq<char>) -> bool {
    &&& 0 < text.len() <= 80
    &&& forall|i: int| 0 <= i < text.len() ==> slug_char(#[trigger] text[i])
    &&& text[0] != '-'
    &&& text.last() != '-'
    &&& forall|i: int|
        0 < i < text.len() ==> !(#[trigger] text[i] == '-' && text[i - 1] == '-')
}

/// Whether the text is a stable lowercase identifier.
pub fn slug(text: &str) -> (answer: bool)
    ensures
        answer == is_slug(text@),
{
    let chars = chars_of(text);
    if chars.len() == 0 || chars.len() > 80 || chars[0] == '-' || chars[chars.len() - 1] == '-' {
        return false;
    }
    for i in 0..chars.len()
        invariant
            chars@ == text@,
            forall|k: int| 0 <= k < i ==> slug_char(#[trigger] text@[k]),
            forall|k: int|
                0 < k < i ==> !(#[trigger] text@[k] == '-' && text@[k - 1] == '-'),
    {
        let ch = chars[i];
        if !(lower(ch) || digit(ch) || ch == '-') {
            assert(!slug_char(text@[i as int]));
            return false;
        }
        if i > 0 && ch == '-' && chars[i - 1] == '-' {
            assert(text@[i as int] == '-' && text@[i - 1] == '-');
            return false;
        }
    }
    true
}

/// The error for a text that is no identifier.
pub open spec fn slug_fault(text: Seq<char>, label: Seq<char>) -> Option<ErrorView> {
    rule_fault(is_slug(text), label + " must be a lowercase ASCII slug"@)
}

/// Checks an identifier.
pub fn validate_slug(value: &str, label: &str) -> (outcome: Result<(), Error>)
    ensures
        settles(outcome, slug_fault(value@, label@)),
{
    recipe_rule(slug(value), join2(label, " must be a lowercase ASCII slug"))
}

/// At most `limit` characters, not only white space, and no control characters.
pub open spec fn is_plain_text(text: Seq<char>, limit: nat) -> bool {
    &&& text.len() <= limit
    &&& exists|i: int| 0 <= i < text.len() && !is_white(#[trigger] text[i])
    &&& forall|i: int| 0 <= i < text.len() ==> !is_control(#[trigger] text[i])
}

/// Whether the text is plain and within the limit.
pub fn plain_text(text: &str, limit: usize) -> (answer: bool)
    ensures
        answer == is_plain_text(text@, limit as nat),
{
    let chars = chars_of(text);
    if chars.len() > limit {
        return false;
    }
    let mut inked = false;
    for i in 0..chars.len()
        invariant
            chars@ == text@,
            inked == exists|k: int| 0 <= k < i && !is_white(#[trigger] text@[k]),
            forall|k: int| 0 <= k < i ==> !is_control(#[trigger] text@[k]),
    {
        let ch = chars[i];
        if control(ch) {
            assert(is_control(text@[i as int]));
            return false;
        }
        if !white_space(ch) {
            assert(!is_white(text@[i as int]));
            inked = true;
        }
    }
    inked
}

/// The error for a text that is empty or invalid.
pub open spec fn text_fault(text: Seq<char>, label: Seq<char>, limit: nat) -> Option<ErrorView> {
    rule_fault(is_plain_text(text, limit), label + " is empty or invalid"@)
}

/// Checks a text that is shown to people.
pub fn validate_text(value: &str, label: &str, limit: usize) -> (outcome: Result<(), Error>)
    ensures
        settles(outcome, text_fault(value@, label@, limit as nat)),
{
    recipe_rule(plain_text(value, limit), join2(label, " is empty or invalid"))
}

/// Exactly 64 lowercase hexadecimal digits.
pub open spec fn is_digest(text: Seq<char>) -> bool {
    &&& text.len() == 64
    &&& forall|i: int| 0 <= i < text.len() ==> is_lower_hex(#[trigger] text[i])
}

/// A digit or a letter from `a` to `f`.
pub open spec fn is_lower_hex(ch: char) -> bool {
    is_digit(ch) || ('a' <= ch && ch <= 'f')
}

/// Whether the text is a SHA-256 in lowercase hexadecimal.
pub fn digest_text(text: &str) -> (answer: bool)
    ensures
        answer == is_digest(text@),
{
    let chars = chars_of(text);
    if chars.len() != 64 {
        return false;
    }
    for i in 0..chars.len()
        invariant
            chars@ == text@,
            forall|k: int| 0 <= k < i ==> is_lower_hex(#[trigger] text@[k]),
    {
        let ch = chars[i];
        if !(digit(ch) || ('a' <= ch && ch <= 'f')) {
            assert(!is_lower_hex(text@[i as int]));
            return false;
        }
    }
    true
}

/// The error for a text that is no SHA-256.
pub open spec fn digest_fault(text: Seq<char>) -> Option<ErrorView> {
    rule_fault(is_digest(text), "sha256 must contain exactly 64 hexadecimal characters"@)
}

/// Checks a SHA-256.
pub fn validate_digest(value: &str) -> (outcome: Result<(), Error>)
    ensures
        settles(outcome, digest_fault(value@)),
{
    recipe_rule(
        digest_text(value),
        "sha256 must contain exactly 64 hexadecimal characters".to_owned(),
    )
}

/// A letter, a digit, a dot, a plus or a hyphen.
pub open spec fn spdx_char(ch: char) -> bool {
    is_alphanumeric(ch) || ch == '.' || ch == '+' || ch == '-'
}

/// 1 to 128 characters of an SPDX license identifier.
pub open spec fn is_spdx(text: Seq<char>) -> bool {
    &&& 0 < text.len() <= 128
    &&& forall|i: int| 0 <= i < text.len() ==> spdx_char(#[trigger] text[i])
}

/// Whether the text can be an SPDX license identifier.
pub fn spdx(text: &str) -> (answer: bool)
    ensures
        answer == is_spdx(text@),
{
    let chars = chars_of(text);
    if chars.len() == 0 || chars.len() > 128 {
        return false;
    }
    for i in 0..chars.len()
        invariant
            chars@ == text@,
            forall|k: int| 0 <= k < i ==> spdx_char(#[trigger] text@[k]),
    {
        let ch = chars[i];
        if !(alphanumeric(ch) || ch == '.' || ch == '+' || ch == '-') {
            assert(!spdx_char(text@[i as int]));
            return false;
        }
    }
    true
}

/// The error for a license identifier.
pub open spec fn spdx_fault(text: Seq<char>) -> Option<ErrorView> {
    rule_fault(is_spdx(text), "license spdx is invalid"@)
}

/// Checks a license identifier.
pub fn validate_spdx(value: &str) -> (outcome: Result<(), Error>)
    ensures
        settles(outcome, spdx_fault(value@)),
{
    recipe_rule(spdx(value), "license spdx is invalid".to_owned())
}

/// What stands before the first separator, and what stands behind it, if it occurs.
pub open spec fn split_once(text: Seq<char>, sep: char) -> (Seq<char>, Option<Seq<char>>) {
    let at = first_at(text, sep);
    if at < text.len() {
        (text.take(at), Some(text.skip(at + 1)))
    } else {
        (text, None)
    }
}

/// Whether every character is a digit, with no leading zero but in `0` itself.
pub open spec fn is_core_number(text: Seq<char>) -> bool {
    &&& text.len() > 0
    &&& forall|i: int| 0 <= i < text.len() ==> is_digit(#[trigger] text[i])
    &&& text[0] == '0' ==> text.len() == 1
}

/// Whether the text is one or more letters, digits and hyphens.
pub open spec fn is_identifier(text: Seq<char>) -> bool {
    &&& text.len() > 0
    &&& forall|i: int|
        0 <= i < text.len() ==> (is_alphanumeric(#[trigger] text[i]) || text[i] == '-')
}

/// Identifiers separated by dots.
pub open spec fn is_version_suffix(text: Seq<char>) -> bool {
    forall|i: int|
        0 <= i < split_on(text, '.').len() ==> is_identifier(#[trigger] split_on(text, '.')[i])
}

/// Three numbers separated by dots.
pub open spec fn is_core_version(text: Seq<char>) -> bool {
    let parts = split_on(text, '.');
    &&& parts.len() == 3
    &&& forall|i: int| 0 <= i < 3 ==> is_core_number(#[trigger] parts[i])
}

/// A semantic version; the parts behind `-` and `+` only where `suffixes` allows them.
pub open spec fn is_semver(text: Seq<char>, suffixes: bool) -> bool {
    let (head, build) = split_once(text, '+');
    let (core, prerelease) = split_once(head, '-');
    &&& is_core_version(core)
    &&& prerelease matches Some(suffix) ==> suffixes && is_version_suffix(suffix)
    &&& build matches Some(suffix) ==> suffixes && is_version_suffix(suffix)
}

fn core_number(chars: &[char]) -> (answer: bool)
    ensures
        answer == is_core_number(chars@),
{
    if chars.len() == 0 || (chars[0] == '0' && chars.len() != 1) {
        return false;
    }
    for i in 0..chars.len()
        invariant
            forall|k: int| 0 <= k < i ==> is_digit(#[trigger] chars@[k]),
    {
        if !digit(chars[i]) {
            assert(!is_digit(chars@[i as int]));
            return false;
        }
    }
    true
}

fn identifier(chars: &[char]) -> (answer: bool)
    ensures
        answer == is_identifier(chars@),
{
    if chars.len() == 0 {
        return false;
    }
    for i in 0..chars.len()
        invariant
            forall|k: int|
                0 <= k < i ==> (is_alphanumeric(#[trigger] chars@[k]) || chars@[k] == '-'),
    {
        if !(alphanumeric(chars[i]) || chars[i] == '-') {
            assert(!is_alphanumeric(chars@[i as int]));
            return false;
        }
    }
    true
}

/// Whether the characters are identifiers separated by dots.
pub fn valid_semver_suffix(chars: &[char]) -> (answer: bool)
    ensures
        answer == is_version_suffix(chars@),
{
    let parts = split_chars(chars, '.');
    for i in 0..parts.len()
        invariant
            pieces(parts@) == split_on(chars@, '.'),
            forall|k: int| 0 <= k < i ==> is_identifier(#[trigger] split_on(chars@, '.')[k]),
    {
        assert(pieces(parts@)[i as int] == parts@[i as int]@);
        if !identifier(parts[i].as_slice()) {
            assert(!is_identifier(split_on(chars@, '.')[i as int]));
            return false;
        }
    }
    assert(pieces(parts@).len() == parts@.len());
    true
}

fn core_version(chars: &[char]) -> (answer: bool)
    ensures
        answer == is_core_version(chars@),
{
    let parts = split_chars(chars, '.');
    assert(pieces(parts@).len() == parts@.len());
    if parts.len() != 3 {
        return false;
    }
    for i in 0..3usize
        invariant
            parts@.len() == 3,
            pieces(parts@) == split_on(chars@, '.'),
            forall|k: int| 0 <= k < i ==> is_core_number(#[trigger] split_on(chars@, '.')[k]),
    {
        assert(pieces(parts@)[i as int] == parts@[i as int]@);
        if !core_number(parts[i].as_slice()) {
            assert(!is_core_number(split_on(chars@, '.')[i as int]));
            return false;
        }
    }
    true
}

/// Whether the text is a semantic version.
pub fn valid_semver(value: &str, suffixes: bool) -> (answer: bool)
    ensures
        answer == is_semver(value@, suffixes),
{
    let all = chars_of(value);
    let chars = all.as_slice();
    let plus = find_char(chars, '+');
    let head = slice_subrange(chars, 0, plus);
    proof {
        lemma_first_at(chars@, '+');
        assert(head@ =~= split_once(value@, '+').0);
    }
    let hyphen = find_char(head, '-');
    let core = slice_subrange(head, 0, hyphen);
    proof {
        lemma_first_at(head@, '-');
        assert(core@ =~= split_once(head@, '-').0);
    }
    if !core_version(core) {
        return false;
    }
    if plus < chars.len() {
        let build = slice_subrange(chars, plus + 1, chars.len());
        assert(build@ =~= chars@.skip(plus + 1));
        if !suffixes || !valid_semver_suffix(build) {
            return false;
        }
    }
    if hyphen < head.len() {
        let prerelease = slice_subrange(head, hyphen + 1, head.len());
        assert(prerelease@ =~= head@.skip(hyphen + 1));
        if !suffixes || !valid_semver_suffix(prerelease) {
            return false;
        }
    }
    true
}

/// The error for a recipe version.
pub open spec fn version_fault(text: Seq<char>) -> Option<ErrorView> {
    rule_fault(
        text.len() <= 80 && is_semver(text, true),
        "version contains unsupported characters"@,
    )
}

/// Checks the version of a recipe.
pub fn validate_version(version: &str) -> (outcome: Result<(), Error>)
    ensures
        settles(outcome, version_fault(version@)),
{
    recipe_rule(
        chars_of(version).len() <= 80 && valid_semver(version, true),
        "version contains unsupported characters".to_owned(),
    )
}

/// The error for a version of three components.
pub open spec fn core_version_fault(text: Seq<char>, label: Seq<char>) -> Option<ErrorView> {
    rule_fault(
        text.len() <= 64 && is_semver(text, false),
        label + " must be a three-component version"@,
    )
}

/// Checks a version of three components.
pub fn validate_core_version(value: &str, label: &str) -> (outcome: Result<(), Error>)
    ensures
        settles(outcome, core_version_fault(value@, label@)),
{
    recipe_rule(
        chars_of(value).len() <= 64 && valid_semver(value, false),
        join2(label, " must be a three-component version"),
    )
}

/// A text is accepted if and only if it is within the limit, holds a character that is not white
/// space, and holds none of the control characters of ASCII; every other character may occur.
pub proof fn texts_may_hold_anything_but_control_characters(text: Seq<char>, limit: nat)
    ensures
        is_plain_text(text, limit) <==> {
            &&& text.len() <= limit
            &&& exists|i: int| 0 <= i < text.len() && !is_white(#[trigger] text[i])
            &&& forall|i: int|
                0 <= i < text.len() ==> (#[trigger] text[i]) as int > 31 && text[i] as int != 127
        },
        0 < text.len() <= limit && (forall|i: int|
            0 <= i < text.len() ==> 33 <= (#[trigger] text[i]) as int <= 126) ==> is_plain_text(
            text,
            limit,
        ),
        text_fault(text, Seq::empty(), limit) is None <==> is_plain_text(text, limit),
{
    if text.len() > 0 {
        let first = text[0];
    }
}

/// A word of lowercase letters and digits, of up to 80 characters, is an identifier, and nothing
/// else without hyphens is.
pub proof fn words_are_identifiers(word: Seq<char>)
    requires
        !word.contains('-'),
    ensures
        is_slug(word) <==> 1 <= word.len() <= 80 && forall|i: int|
            0 <= i < word.len() ==> 97 <= (#[trigger] word[i]) as int <= 122 || 48 <= word[i] as int
                <= 57,
        slug_fault(word, Seq::empty()) is None <==> is_slug(word),
{
    assert forall|i: int| 0 <= i < word.len() implies (#[trigger] word[i]) != '-' by {
        assert(word.contains(word[i]));
    }
    if is_slug(word) {
        assert forall|i: int| 0 <= i < word.len() implies 97 <= (#[trigger] word[i]) as int <= 122
            || 48 <= word[i] as int <= 57 by {
            assert(slug_char(word[i]));
        }
    }
}

/// Two texts with a hyphen between them are an identifier, within 80 characters, if and only if
/// each of them is one.
pub proof fn hyphens_join_identifiers(left: Seq<char>, right: Seq<char>)
    requires
        left.len() + 1 + right.len() <= 80,
    ensures
        is_slug(left.push('-') + right) <==> is_slug(left) && is_slug(right),
{
    let whole = left.push('-') + right;
    let at = left.len() as int;
    assert forall|i: int| 0 <= i < left.len() implies #[trigger] left[i] == whole[i] by {}
    assert forall|i: int| 0 <= i < right.len() implies #[trigger] right[i] == whole[at + 1 + i] by {}
    if is_slug(whole) {
        assert(whole[at] == '-');
        assert(left.len() > 0) by {
            assert(whole[0] != '-');
        }
        assert(right.len() > 0);
        assert(!(whole[at] == '-' && whole[at - 1] == '-'));
        assert(!(whole[at + 1] == '-' && whole[at] == '-'));
        assert(left.last() == whole[at - 1]);
        assert(right[0] == whole[at + 1]);
        assert(right.last() == whole.last());
        assert forall|i: int| 0 <= i < left.len() implies slug_char(#[trigger] left[i]) by {
            assert(slug_char(whole[i]));
        }
        assert forall|i: int| 0 <= i < right.len() implies slug_char(#[trigger] right[i]) by {
            assert(slug_char(whole[at + 1 + i]));
        }
        assert forall|i: int| 0 < i < left.len() implies !(#[trigger] left[i] == '-' && left[i - 1]
            == '-') by {
            assert(left[i - 1] == whole[i - 1]);
            assert(!(whole[i] == '-' && whole[i - 1] == '-'));
        }
        assert forall|i: int| 0 < i < right.len() implies !(#[trigger] right[i] == '-' && right[i
            - 1] == '-') by {
            assert(right[i - 1] == whole[at + i]);
            assert(!(whole[at + 1 + i] == '-' && whole[at + i] == '-'));
        }
    }
    if is_slug(left) && is_slug(right) {
        assert forall|i: int| 0 <= i < whole.len() implies slug_char(#[trigger] whole[i]) by {
            if i < at {
                assert(slug_char(left[i]));
            } else if i > at {
                assert(slug_char(right[i - at - 1]));
            }
        }
        assert forall|i: int| 0 < i < whole.len() implies !(#[trigger] whole[i] == '-' && whole[i
            - 1] == '-') by {
            if i < at {
                assert(!(left[i] == '-' && left[i - 1] == '-'));
            } else if i == at {
                assert(whole[i - 1] == left.last());
            } else if i == at + 1 {
                assert(whole[i] == right[0]);
            } else {
                assert(!(right[i - at - 1] == '-' && right[i - at - 2] == '-'));
            }
        }
        assert(whole[0] == left[0]);
        assert(whole.last() == right.last());
    }
}

/// A digest is 64 characters, each of them a digit or one of the letters `a` to `f`, and every such
/// text is one.
pub proof fn digests_are_64_hexadecimal_digits(text: Seq<char>)
    ensures
        is_digest(text) <==> text.len() == 64 && forall|i: int|
            0 <= i < 64 ==> 48 <= (#[trigger] text[i]) as int <= 57 || 97 <= text[i] as int <= 102,
        digest_fault(text) is None <==> is_digest(text),
{
    if is_digest(text) {
        assert forall|i: int| 0 <= i < 64 implies 48 <= (#[trigger] text[i]) as int <= 57 || 97
            <= text[i] as int <= 102 by {
            assert(is_lower_hex(text[i]));
        }
    }
}

/// A license identifier is 1 to 128 letters and digits of ASCII, dots, plus signs and hyphens, and
/// every such text is one.
pub proof fn license_identifiers_are_short_and_plain(text: Seq<char>)
    ensures
        is_spdx(text) <==> 1 <= text.len() <= 128 && forall|i: int|
            0 <= i < text.len() ==> {
                let code = (#[trigger] text[i]) as int;
                48 <= code <= 57 || 65 <= code <= 90 || 97 <= code <= 122 || code == 43 || code
                    == 45 || code == 46
            },
        spdx_fault(text) is None <==> is_spdx(text),
{
    if is_spdx(text) {
        assert forall|i: int| 0 <= i < text.len() implies {
            let code = (#[trigger] text[i]) as int;
            48 <= code <= 57 || 65 <= code <= 90 || 97 <= code <= 122 || code == 43 || code == 45
                || code == 46
        } by {
            assert(spdx_char(text[i]));
        }
    }
}

proof fn lemma_decimal_is_core(number: nat)
    ensures
        is_core_number(decimal(number)),
        number > 0 ==> decimal(number)[0] != '0',
    decreases number,
{
    if number >= 10 {
        lemma_decimal_is_core(number / 10);
        let text = decimal(number);
        assert forall|i: int| 0 <= i < text.len() implies is_digit(#[trigger] text[i]) by {
            if i < text.len() - 1 {
                assert(is_digit(decimal(number / 10)[i]));
            }
        }
        assert(text[0] == decimal(number / 10)[0]);
    }
}

proof fn lemma_core_is_decimal(text: Seq<char>) -> (number: nat)
    requires
        is_core_number(text),
    ensures
        text == decimal(number),
        number == 0 ==> text.len() == 1,
    decreases text.len(),
{
    let digit = (text.last() as int - 48) as nat;
    assert(is_digit(text.last()));
    if text.len() == 1 {
        assert(text =~= decimal(digit));
        digit
    } else {
        let front = text.drop_last();
        assert forall|i: int| 0 <= i < front.len() implies is_digit(#[trigger] front[i]) by {
            assert(is_digit(text[i]));
        }
        let before = lemma_core_is_decimal(front);
        if before == 0 {
            assert(front[0] == decimal(0)[0]);
            assert(text[0] == '0');
        }
        decimal_digits_have_their_weight(before, digit, Seq::empty(), '0');
        assert(decimal(digit)[0] == text.last());
        assert(text =~= decimal(before) + decimal(digit));
        10 * before + digit
    }
}

proof fn lemma_no_such_character(text: Seq<char>, ch: char)
    requires
        forall|i: int| 0 <= i < text.len() ==> is_digit(#[trigger] text[i]) || text[i] == '.',
        !is_digit(ch),
        ch != '.',
    ensures
        !text.contains(ch),
{
    if text.contains(ch) {
        let i = text.index_of(ch);
        assert(is_digit(text[i]) || text[i] == '.');
    }
}

/// What is three numbers in decimal, with dots between them.
pub open spec fn three_numbers(a: nat, b: nat, c: nat) -> Seq<char> {
    joined_with(seq![decimal(a), decimal(b), decimal(c)], '.')
}

proof fn lemma_three_numbers(a: nat, b: nat, c: nat)
    ensures
        split_on(three_numbers(a, b, c), '.') == seq![decimal(a), decimal(b), decimal(c)],
        is_core_version(three_numbers(a, b, c)),
        three_numbers(a, b, c) == decimal(a) + seq!['.'] + decimal(b) + seq!['.'] + decimal(c),
        !three_numbers(a, b, c).contains('-'),
        !three_numbers(a, b, c).contains('+'),
{
    let parts = seq![decimal(a), decimal(b), decimal(c)];
    lemma_decimal_is_core(a);
    lemma_decimal_is_core(b);
    lemma_decimal_is_core(c);
    assert forall|i: int| 0 <= i < parts.len() implies !(#[trigger] parts[i]).contains('.')
        && is_core_number(parts[i]) by {
        if parts[i].contains('.') {
            let k = parts[i].index_of('.');
            assert(is_digit(parts[i][k]));
        }
    }
    joined_texts_fall_apart_again(parts, '.');
    let text = three_numbers(a, b, c);
    reveal_with_fuel(joined_with, 4);
    assert(parts.skip(1) =~= seq![decimal(b), decimal(c)]);
    assert(parts.skip(1).skip(1) =~= seq![decimal(c)]);
    assert(text =~= decimal(a) + seq!['.'] + decimal(b) + seq!['.'] + decimal(c));
    assert forall|i: int| 0 <= i < text.len() implies is_digit(#[trigger] text[i]) || text[i]
        == '.' by {
        let first = decimal(a).len() as int;
        let second = first + 1 + decimal(b).len();
        if i < first {
            assert(is_digit(decimal(a)[i]));
        } else if first < i < second {
            assert(is_digit(decimal(b)[i - first - 1]));
        } else if i > second {
            assert(is_digit(decimal(c)[i - second - 1]));
        }
    }
    lemma_no_such_character(text, '-');
    lemma_no_such_character(text, '+');
}

proof fn lemma_core_parts(text: Seq<char>) -> (numbers: (nat, nat, nat))
    requires
        is_core_version(text),
    ensures
        text == three_numbers(numbers.0, numbers.1, numbers.2),
{
    let parts = split_on(text, '.');
    assert(is_core_number(parts[0]) && is_core_number(parts[1]) && is_core_number(parts[2]));
    let a = lemma_core_is_decimal(parts[0]);
    let b = lemma_core_is_decimal(parts[1]);
    let c = lemma_core_is_decimal(parts[2]);
    pieces_make_the_text(text, '.');
    assert(parts =~= seq![decimal(a), decimal(b), decimal(c)]);
    (a, b, c)
}

/// A version of three components is three numbers in decimal with dots between them, whatever the
/// numbers are, and nothing else is one.
pub proof fn core_versions_are_three_numbers(text: Seq<char>)
    ensures
        is_semver(text, false) <==> exists|a: nat, b: nat, c: nat|
            #[trigger] three_numbers(a, b, c) == text && text == decimal(a) + seq!['.'] + decimal(b)
                + seq!['.'] + decimal(c),
        core_version_fault(text, Seq::empty()) is None <==> text.len() <= 64 && is_semver(
            text,
            false,
        ),
        version_fault(text) is None <==> text.len() <= 80 && is_semver(text, true),
{
    lemma_first_at(text, '+');
    if is_semver(text, false) {
        let (head, build) = split_once(text, '+');
        assert(head == text);
        lemma_first_at(head, '-');
        let (a, b, c) = lemma_core_parts(text);
        lemma_three_numbers(a, b, c);
    }
    if exists|a: nat, b: nat, c: nat|
        #[trigger] three_numbers(a, b, c) == text && text == decimal(a) + seq!['.'] + decimal(b)
            + seq!['.'] + decimal(c) {
        let (a, b, c) = choose|a: nat, b: nat, c: nat|
            #[trigger] three_numbers(a, b, c) == text && text == decimal(a) + seq!['.'] + decimal(b)
                + seq!['.'] + decimal(c);
        lemma_three_numbers(a, b, c);
        lemma_first_at(text, '-');
    }
}

/// Identifiers of letters, digits and hyphens, none empty, with dots between them make a suffix of
/// a version, and nothing else does.
pub proof fn suffixes_are_identifiers_with_dots(identifiers: Seq<Seq<char>>)
    requires
        identifiers.len() > 0,
        forall|i: int| 0 <= i < identifiers.len() ==> !(#[trigger] identifiers[i]).contains('.'),
    ensures
        is_version_suffix(joined_with(identifiers, '.')) <==> forall|i: int|
            0 <= i < identifiers.len() ==> (#[trigger] identifiers[i]).len() > 0 && forall|k: int|
                0 <= k < identifiers[i].len() ==> {
                    let code = (#[trigger] identifiers[i][k]) as int;
                    48 <= code <= 57 || 65 <= code <= 90 || 97 <= code <= 122 || code == 45
                },
{
    let text = joined_with(identifiers, '.');
    joined_texts_fall_apart_again(identifiers, '.');
    assert(split_on(text, '.') == identifiers);
    if is_version_suffix(text) {
        assert forall|i: int| 0 <= i < identifiers.len() implies (#[trigger] identifiers[i]).len()
            > 0 && forall|k: int|
            0 <= k < identifiers[i].len() ==> {
                let code = (#[trigger] identifiers[i][k]) as int;
                48 <= code <= 57 || 65 <= code <= 90 || 97 <= code <= 122 || code == 45
            } by {
            assert(is_identifier(split_on(text, '.')[i]));
            assert forall|k: int| 0 <= k < identifiers[i].len() implies {
                let code = (#[trigger] identifiers[i][k]) as int;
                48 <= code <= 57 || 65 <= code <= 90 || 97 <= code <= 122 || code == 45
            } by {
                let ch = identifiers[i][k];
                assert(is_alphanumeric(ch) || ch == '-');
            }
        }
    }
}

/// Behind three numbers a version may have a suffix behind a hyphen, one behind a plus sign, or
/// both in this order, where suffixes are allowed, and none where they are not.
pub proof fn versions_may_have_suffixes(
    a: nat,
    b: nat,
    c: nat,
    prerelease: Seq<char>,
    build: Seq<char>,
)
    requires
        !prerelease.contains('+'),
    ensures
        is_semver(three_numbers(a, b, c), true),
        is_semver(three_numbers(a, b, c).push('-') + prerelease, true) <==> is_version_suffix(
            prerelease,
        ),
        is_semver(three_numbers(a, b, c).push('+') + build, true) <==> is_version_suffix(build),
        is_semver(three_numbers(a, b, c).push('-') + prerelease.push('+') + build, true)
            <==> is_version_suffix(prerelease) && is_version_suffix(build),
        !is_semver(three_numbers(a, b, c).push('-') + prerelease, false),
        !is_semver(three_numbers(a, b, c).push('+') + build, false),
        !is_semver(three_numbers(a, b, c).push('-') + prerelease.push('+') + build, false),
{
    let core = three_numbers(a, b, c);
    lemma_three_numbers(a, b, c);
    lemma_first_at(core, '+');
    lemma_first_at(core, '-');
    let at = core.len() as int;
    assert forall|i: int| 0 <= i < at implies core[i] != '-' && core[i] != '+' by {
        assert(core.contains(core[i]));
    }
    let first = core.push('-') + prerelease;
    assert forall|i: int| 0 <= i < first.len() implies first[i] != '+' by {
        if i > at {
            assert(first[i] == prerelease[i - at - 1]);
            assert(prerelease.contains(first[i]));
        } else if i < at {
            assert(first[i] == core[i]);
        }
    }
    lemma_first_at_unique(first, '+', first.len() as int);
    lemma_first_at_unique(first, '-', at);
    assert(first.take(at) =~= core);
    assert(first.skip(at + 1) =~= prerelease);
    let second = core.push('+') + build;
    assert forall|i: int| 0 <= i < at implies second[i] != '+' by {
        assert(second[i] == core[i]);
    }
    lemma_first_at_unique(second, '+', at);
    assert(second.take(at) =~= core);
    assert(second.skip(at + 1) =~= build);
    let both = core.push('-') + prerelease.push('+') + build;
    let plus = first.len() as int;
    assert forall|i: int| 0 <= i < plus implies both[i] != '+' by {
        assert(both[i] == first[i]);
    }
    assert(both[plus] == '+');
    lemma_first_at_unique(both, '+', plus);
    assert(both.take(plus) =~= first);
    assert(both.skip(plus + 1) =~= build);
}

/// A rule that is kept makes no fault, and one that is broken that of the recipe, in these words.
pub proof fn broken_rules_are_faults_of_the_recipe(message: Seq<char>, text: Seq<char>)
    ensures
        rule_fault(true, message) is None,
        rule_fault(false, message) == Some(ErrorView::InvalidRecipe(message)),
        platform_fault(text) is None <==> is_platform(text),
{
}

} // verus!
