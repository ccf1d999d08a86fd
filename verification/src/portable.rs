//! Relative paths that mean the same file on Windows, macOS and Unix.

use vstd::prelude::*;
use vstd::slice::slice_subrange;
use crate::error::{settles, Error, ErrorView};
use crate::rules::rule_fault;
use crate::text::{
    ascii_lower, ascii_upper, chars_of, control, find_char, first_at, is_control, join2,
    joined_texts_fall_apart_again, joined_with, lemma_first_at, lemma_first_at_unique, lower_char,
    pieces, same_but_ascii_case, same_chars, same_text, split_chars, split_on, to_ascii_upper,
    upper_char,
};

verus! {

/// A character that Windows does not take in a file name.
pub open spec fn is_forbidden(ch: char) -> bool {
    ||| is_control(ch)
    ||| ch == '<'
    ||| ch == '>'
    ||| ch == ':'
    ||| ch == '"'
    ||| ch == '/'
    ||| ch == '\\'
    ||| ch == '|'
    ||| ch == '?'
    ||| ch == '*'
}

fn forbidden(ch: char) -> (answer: bool)
    ensures
        answer == is_forbidden(ch),
{
    control(ch) || ch == '<' || ch == '>' || ch == ':' || ch == '"' || ch == '/' || ch == '\\' || ch
        == '|' || ch == '?' || ch == '*'
}

/// The number of a serial or parallel port: `1` to `9`, or a superscript `1` to `3`.
pub open spec fn is_port_number(ch: char) -> bool {
    ('1' <= ch && ch <= '9') || ch == '\u{b9}' || ch == '\u{b2}' || ch == '\u{b3}'
}

/// Whether the name is the prefix followed by a port number.
pub open spec fn is_numbered_device(stem: Seq<char>, prefix: Seq<char>) -> bool {
    exists|number: char| is_port_number(number) && stem == #[trigger] prefix.push(number)
}

/// Whether the name is the prefix followed by a port number.
pub fn is_numbered_windows_device(stem: &[char], prefix: &str) -> (answer: bool)
    ensures
        answer == is_numbered_device(stem@, prefix@),
{
    let head = chars_of(prefix);
    if stem.len() == 0 {
        assert forall|number: char| stem@ != #[trigger] prefix@.push(number) by {
            assert(prefix@.push(number).len() > 0);
        }
        return false;
    }
    let number = stem[stem.len() - 1];
    let body = slice_subrange(stem, 0, stem.len() - 1);
    proof {
        assert(stem@ =~= body@.push(number));
        assert forall|other: char| stem@ == #[trigger] prefix@.push(other) implies other == number
            && body@ == prefix@ by {
            assert(prefix@.push(other).last() == other);
            assert(prefix@.push(other).drop_last() =~= prefix@);
            assert(stem@.drop_last() =~= body@);
        }
    }
    (('1' <= number && number <= '9') || number == '\u{b9}' || number == '\u{b2}' || number
        == '\u{b3}') && same_chars(body, head.as_slice())
}

/// What stands before the first dot.
pub open spec fn stem_of(component: Seq<char>) -> Seq<char> {
    component.take(first_at(component, '.'))
}

/// A name that Windows keeps for a device, in uppercase.
pub open spec fn is_device(stem: Seq<char>) -> bool {
    ||| stem == "CON"@
    ||| stem == "PRN"@
    ||| stem == "AUX"@
    ||| stem == "NUL"@
    ||| stem == "CONIN$"@
    ||| stem == "CONOUT$"@
    ||| stem == "CLOCK$"@
    ||| is_numbered_device(stem, "COM"@)
    ||| is_numbered_device(stem, "LPT"@)
}

fn device(stem: &[char]) -> (answer: bool)
    ensures
        answer == is_device(stem@),
{
    same_chars(stem, chars_of("CON").as_slice()) || same_chars(stem, chars_of("PRN").as_slice())
        || same_chars(stem, chars_of("AUX").as_slice()) || same_chars(
        stem,
        chars_of("NUL").as_slice(),
    ) || same_chars(stem, chars_of("CONIN$").as_slice()) || same_chars(
        stem,
        chars_of("CONOUT$").as_slice(),
    ) || same_chars(stem, chars_of("CLOCK$").as_slice()) || is_numbered_windows_device(stem, "COM")
        || is_numbered_windows_device(stem, "LPT")
}

/// A file name that every supported system takes and none reads as another one.
pub open spec fn is_portable_component(component: Seq<char>) -> bool {
    &&& component.len() > 0
    &&& component.last() != '.'
    &&& component.last() != ' '
    &&& forall|i: int| 0 <= i < component.len() ==> !is_forbidden(#[trigger] component[i])
    &&& !is_device(ascii_upper(stem_of(component)))
}

/// Whether the name is taken by every supported system.
pub fn is_portable_path_component(component: &[char]) -> (answer: bool)
    ensures
        answer == is_portable_component(component@),
{
    if component.len() == 0 {
        return false;
    }
    let last = component[component.len() - 1];
    if last == '.' || last == ' ' {
        return false;
    }
    for i in 0..component.len()
        invariant
            forall|k: int| 0 <= k < i ==> !is_forbidden(#[trigger] component@[k]),
    {
        if forbidden(component[i]) {
            assert(is_forbidden(component@[i as int]));
            return false;
        }
    }
    let dot = find_char(component, '.');
    let stem = slice_subrange(component, 0, dot);
    assert(stem@ =~= stem_of(component@));
    let folded = to_ascii_upper(stem);
    !device(folded.as_slice())
}

/// A portable relative path: one or more portable names separated by single slashes.
pub open spec fn is_portable_path(path: Seq<char>) -> bool {
    forall|i: int|
        0 <= i < split_on(path, '/').len() ==> is_portable_component(
            #[trigger] split_on(path, '/')[i],
        )
}

/// A portable relative path, or the root itself, written `.`, where that is allowed.
pub open spec fn is_portable_relative(path: Seq<char>, allow_dot: bool) -> bool {
    if path == "."@ {
        allow_dot
    } else {
        is_portable_path(path)
    }
}

/// Whether the path is a portable relative path.
pub fn is_portable_relative_path(value: &str, allow_dot: bool) -> (answer: bool)
    ensures
        answer == is_portable_relative(value@, allow_dot),
{
    if same_text(value, ".") {
        return allow_dot;
    }
    let chars = chars_of(value);
    let parts = split_chars(chars.as_slice(), '/');
    for i in 0..parts.len()
        invariant
            value@ != "."@,
            pieces(parts@) == split_on(value@, '/'),
            forall|k: int|
                0 <= k < i ==> is_portable_component(#[trigger] split_on(value@, '/')[k]),
    {
        assert(pieces(parts@)[i as int] == parts@[i as int]@);
        if !is_portable_path_component(parts[i].as_slice()) {
            assert(!is_portable_component(split_on(value@, '/')[i as int]));
            return false;
        }
    }
    assert(pieces(parts@).len() == parts@.len());
    true
}

/// The error for a path that is not safe.
pub open spec fn relative_fault(path: Seq<char>, allow_dot: bool, label: Seq<char>) -> Option<
    ErrorView,
> {
    rule_fault(
        path.len() <= 512 && is_portable_relative(path, allow_dot),
        label + " is not a safe relative path"@,
    )
}

/// Checks a path of a recipe.
pub fn validate_relative(value: &str, allow_dot: bool, label: &str) -> (outcome: Result<(), Error>)
    ensures
        settles(outcome, relative_fault(value@, allow_dot, label@)),
{
    if chars_of(value).len() <= 512 && is_portable_relative_path(value, allow_dot) {
        Ok(())
    } else {
        Err(Error::InvalidRecipe(join2(label, " is not a safe relative path")))
    }
}

/// No component of a portable path is empty, `.` or `..`, so a portable path neither is absolute
/// nor leaves the directory that it is taken from.
pub proof fn portable_paths_stay_inside(path: Seq<char>, i: int)
    requires
        is_portable_path(path),
        0 <= i < split_on(path, '/').len(),
    ensures
        split_on(path, '/')[i].len() > 0,
        split_on(path, '/')[i] != "."@,
        split_on(path, '/')[i] != ".."@,
{
    assert(is_portable_component(split_on(path, '/')[i]));
    reveal_strlit(".");
    reveal_strlit("..");
}

/// A portable path holds no control character, no backslash and none of `< > : " | ? *`.
pub proof fn portable_paths_hold_no_special_characters(path: Seq<char>, k: int)
    requires
        is_portable_path(path),
        0 <= k < path.len(),
    ensures
        path[k] != '/' ==> !is_forbidden(path[k]),
    decreases path.len(),
{
    let at = first_at(path, '/');
    lemma_first_at(path, '/');
    let parts = split_on(path, '/');
    if at >= path.len() {
        assert(is_portable_component(parts[0]));
        assert(parts[0] == path);
    } else {
        let rest = path.skip(at + 1);
        assert(parts =~= seq![path.take(at)] + split_on(rest, '/'));
        if k < at {
            assert(is_portable_component(parts[0]));
            assert(path.take(at)[k] == path[k]);
        } else if k > at {
            assert forall|i: int| 0 <= i < split_on(rest, '/').len() implies is_portable_component(
                #[trigger] split_on(rest, '/')[i],
            ) by {
                assert(parts[i + 1] == split_on(rest, '/')[i]);
            }
            portable_paths_hold_no_special_characters(rest, k - at - 1);
            assert(rest[k - at - 1] == path[k]);
        }
    }
}

/// Names that differ in the case of ASCII letters alone are portable or not alike: no spelling of a
/// device's name passes.
pub proof fn portability_ignores_case(left: Seq<char>, right: Seq<char>)
    requires
        same_but_ascii_case(left, right),
    ensures
        is_portable_component(left) == is_portable_component(right),
{
    assert(ascii_lower(left).len() == left.len());
    assert(ascii_lower(right).len() == right.len());
    assert forall|i: int| 0 <= i < left.len() implies #[trigger] lower_char(left[i]) == lower_char(
        right[i],
    ) by {
        assert(ascii_lower(left)[i] == lower_char(left[i]));
        assert(ascii_lower(right)[i] == lower_char(right[i]));
    }
    assert forall|i: int| 0 <= i < left.len() implies is_forbidden(#[trigger] left[i])
        == is_forbidden(right[i]) && (left[i] == '.' <==> right[i] == '.') && (left[i] == ' '
        <==> right[i] == ' ') && upper_char(left[i]) == upper_char(right[i]) by {
        assert(lower_char(left[i]) == lower_char(right[i]));
    }
    let dot = first_at(left, '.');
    lemma_first_at(left, '.');
    assert forall|i: int| 0 <= i < dot implies right[i] != '.' by {
        assert(left[i] != '.');
    }
    assert(dot < left.len() ==> left[dot] == '.');
    lemma_first_at_unique(right, '.', dot);
    assert(ascii_upper(stem_of(left)) =~= ascii_upper(stem_of(right)));
    assert forall|i: int| 0 <= i < right.len() implies is_forbidden(#[trigger] right[i])
        == is_forbidden(left[i]) by {
        assert(is_forbidden(left[i]) == is_forbidden(right[i]));
    }
}

/// The characters that a portable name may not hold are the control characters of ASCII and
/// `" * / : < > ? \\ |`; every other character may occur in one.
pub proof fn forbidden_characters_are_these(ch: char)
    ensures
        is_forbidden(ch) <==> {
            let code = ch as int;
            code <= 31 || code == 127 || code == 34 || code == 42 || code == 47 || code == 58
                || code == 60 || code == 62 || code == 63 || code == 92 || code == 124
        },
{
}

/// The names of devices are `CON`, `PRN`, `AUX`, `NUL`, `CONIN$`, `CONOUT$`, `CLOCK$`, and `COM`
/// and `LPT` with one of the digits `1` to `9` or a superscript one, two or three.
pub proof fn devices_are_these(stem: Seq<char>)
    ensures
        is_device(stem) <==> {
            ||| stem == seq!['C', 'O', 'N']
            ||| stem == seq!['P', 'R', 'N']
            ||| stem == seq!['A', 'U', 'X']
            ||| stem == seq!['N', 'U', 'L']
            ||| stem == seq!['C', 'O', 'N', 'I', 'N', '$']
            ||| stem == seq!['C', 'O', 'N', 'O', 'U', 'T', '$']
            ||| stem == seq!['C', 'L', 'O', 'C', 'K', '$']
            ||| stem.len() == 4 && (stem.take(3) == seq!['C', 'O', 'M'] || stem.take(3)
                == seq!['L', 'P', 'T']) && (49 <= stem[3] as int <= 57 || stem[3] as int == 178
                || stem[3] as int == 179 || stem[3] as int == 185)
        },
{
    reveal_strlit("CON");
    reveal_strlit("PRN");
    reveal_strlit("AUX");
    reveal_strlit("NUL");
    reveal_strlit("CONIN$");
    reveal_strlit("CONOUT$");
    reveal_strlit("CLOCK$");
    reveal_strlit("COM");
    reveal_strlit("LPT");
    assert("CON"@ =~= seq!['C', 'O', 'N']);
    assert("PRN"@ =~= seq!['P', 'R', 'N']);
    assert("AUX"@ =~= seq!['A', 'U', 'X']);
    assert("NUL"@ =~= seq!['N', 'U', 'L']);
    assert("CONIN$"@ =~= seq!['C', 'O', 'N', 'I', 'N', '$']);
    assert("CONOUT$"@ =~= seq!['C', 'O', 'N', 'O', 'U', 'T', '$']);
    assert("CLOCK$"@ =~= seq!['C', 'L', 'O', 'C', 'K', '$']);
    assert("COM"@ =~= seq!['C', 'O', 'M']);
    assert("LPT"@ =~= seq!['L', 'P', 'T']);
    lemma_numbered_device(stem, "COM"@);
    lemma_numbered_device(stem, "LPT"@);
}

proof fn lemma_numbered_device(stem: Seq<char>, prefix: Seq<char>)
    requires
        prefix.len() == 3,
    ensures
        is_numbered_device(stem, prefix) <==> stem.len() == 4 && stem.take(3) == prefix
            && is_port_number(stem[3]),
{
    if is_numbered_device(stem, prefix) {
        let number = choose|number: char|
            is_port_number(number) && stem == #[trigger] prefix.push(number);
        assert(prefix.push(number).take(3) =~= prefix);
        assert(prefix.push(number)[3] == number);
    }
    if stem.len() == 4 && stem.take(3) == prefix && is_port_number(stem[3]) {
        assert(stem =~= prefix.push(stem[3]));
    }
}

/// A name, of which `stem` is what stands before the first dot, is portable if and only if it is
/// not empty, does not end in a dot or a space, holds no forbidden character, and `stem` is no
/// device in any spelling.
pub proof fn names_are_portable_unless_reserved(stem: Seq<char>, rest: Seq<char>, name: Seq<char>)
    requires
        !stem.contains('.'),
        name == stem || name == stem.push('.') + rest,
    ensures
        is_portable_component(name) <==> {
            &&& name.len() > 0
            &&& name.last() as int != 46
            &&& name.last() as int != 32
            &&& forall|i: int| 0 <= i < name.len() ==> !is_forbidden(#[trigger] name[i])
            &&& !is_device(ascii_upper(stem))
        },
{
    assert forall|i: int| 0 <= i < stem.len() implies name[i] != '.' by {
        assert(stem.contains(stem[i]));
        assert(name[i] == stem[i]);
    }
    lemma_first_at_unique(name, '.', stem.len() as int);
    assert(stem_of(name) =~= stem);
}

/// Names without slashes, joined by slashes, are a portable path if and only if each of them is a
/// portable name; a single dot is one only where that is allowed, and no path of a recipe has more
/// than 512 characters.
pub proof fn portable_paths_are_joined_names(names: Seq<Seq<char>>, allow_dot: bool)
    requires
        names.len() > 0,
        forall|i: int| 0 <= i < names.len() ==> !(#[trigger] names[i]).contains('/'),
    ensures
        joined_with(names, '/') != seq!['.'] ==> (is_portable_relative(
            joined_with(names, '/'),
            allow_dot,
        ) <==> forall|i: int|
            0 <= i < names.len() ==> is_portable_component(#[trigger] names[i])),
        is_portable_relative(seq!['.'], allow_dot) == allow_dot,
        relative_fault(joined_with(names, '/'), allow_dot, Seq::empty()) is None
            <==> joined_with(names, '/').len() <= 512 && is_portable_relative(
            joined_with(names, '/'),
            allow_dot,
        ),
{
    reveal_strlit(".");
    assert("."@ =~= seq!['.']);
    joined_texts_fall_apart_again(names, '/');
}

} // verus!
