//! HTTPS addresses.

use vstd::prelude::*;
use crate::error::{settles, Error, ErrorView};
use crate::rules::rule_fault;
use crate::text::{chars_of, control, is_control, join2, same_text};

verus! {

/// The parts of a parsed address that the rules look at.
#[derive(Clone, Debug, PartialEq, Eq)]
pub struct UrlParts {
    pub scheme: String,
    pub host: Option<String>,
    pub username: String,
    pub password: Option<String>,
}

/// Scheme, host, user name and password of an address.
pub type UrlView = (Seq<char>, Option<Seq<char>>, Seq<char>, Option<Seq<char>>);

/// The characters of an optional text.
pub open spec fn optional(text: Option<String>) -> Option<Seq<char>> {
    match text {
        Some(text) => Some(text@),
        None => None,
    }
}

impl View for UrlParts {
    type V = UrlView;

    open spec fn view(&self) -> UrlView {
        (self.scheme@, optional(self.host), self.username@, optional(self.password))
    }
}

/// The parts of an address, where there are any.
pub open spec fn url_view(parsed: Option<UrlParts>) -> Option<UrlView> {
    match parsed {
        Some(parts) => Some(parts@),
        None => None,
    }
}

/// What `url::Url::parse` makes of a text: scheme, host, user name and password, or `None` where
/// the text is no URL.
pub uninterp spec fn parsed_url(text: Seq<char>) -> Option<
    (Seq<char>, Option<Seq<char>>, Seq<char>, Option<Seq<char>>),
>;

/// Calls `url::Url::parse` and reads the parts of its result. The result depends on the text
/// alone and is named by [`parsed_url`].
#[verifier::external_body]
pub(crate) fn parse_url(text: &str) -> (parsed: Option<UrlParts>)
    ensures
        url_view(parsed) == parsed_url(text@),
{
    match url::Url::parse(text) {
        Ok(url) => Some(
            UrlParts {
                scheme: url.scheme().to_owned(),
                host: url.host_str().map(str::to_owned),
                username: url.username().to_owned(),
                password: url.password().map(str::to_owned),
            },
        ),
        Err(_) => None,
    }
}

/// An HTTPS address with a host and without credentials: at most 2048 characters, none of them a
/// control character.
pub open spec fn https_allows(text: Seq<char>, parsed: Option<UrlView>) -> bool {
    &&& text.len() <= 2048
    &&& forall|i: int| 0 <= i < text.len() ==> !is_control(#[trigger] text[i])
    &&& parsed matches Some(parts) && {
        &&& parts.0 == "https"@
        &&& parts.1 is Some
        &&& parts.2.len() == 0
        &&& parts.3 is None
    }
}

/// Whether the text, parsed as given, is an acceptable HTTPS address.
pub fn https_parsed(text: &str, parsed: &Option<UrlParts>) -> (answer: bool)
    ensures
        answer == https_allows(text@, url_view(*parsed)),
{
    let chars = chars_of(text);
    if chars.len() > 2048 {
        return false;
    }
    for i in 0..chars.len()
        invariant
            chars@ == text@,
            forall|k: int| 0 <= k < i ==> !is_control(#[trigger] text@[k]),
    {
        if control(chars[i]) {
            assert(is_control(text@[i as int]));
            return false;
        }
    }
    match parsed {
        Some(parts) => same_text(parts.scheme.as_str(), "https") && parts.host.is_some()
            && parts.username.as_str().is_empty() && parts.password.is_none(),
        None => false,
    }
}

/// Whether the text is an acceptable HTTPS address.
pub open spec fn is_https(text: Seq<char>) -> bool {
    https_allows(text, parsed_url(text))
}

/// Whether the text is an acceptable HTTPS address.
pub fn https(text: &str) -> (answer: bool)
    ensures
        answer == is_https(text@),
{
    let parsed = parse_url(text);
    https_parsed(text, &parsed)
}

/// The error for an address, given whether it is acceptable.
pub open spec fn https_fault(accepted: bool, label: Seq<char>) -> Option<ErrorView> {
    rule_fault(accepted, label + " must be an HTTPS URL"@)
}

/// Reports an address, given whether it is acceptable.
pub fn https_verdict(accepted: bool, label: &str) -> (outcome: Result<(), Error>)
    ensures
        settles(outcome, https_fault(accepted, label@)),
{
    if accepted {
        Ok(())
    } else {
        Err(Error::InvalidRecipe(join2(label, " must be an HTTPS URL")))
    }
}

/// Checks an address of a recipe.
pub fn validate_https(value: &str, label: &str) -> (outcome: Result<(), Error>)
    ensures
        settles(outcome, https_fault(is_https(value@), label@)),
{
    https_verdict(https(value), label)
}

/// An address is accepted if and only if it has at most 2048 characters, none of them a control
/// character of ASCII, and its scheme is `https`, it names a host, and it carries neither a user
/// name nor a password.
pub proof fn addresses_are_https_without_credentials(
    text: Seq<char>,
    scheme: Seq<char>,
    host: Option<Seq<char>>,
    username: Seq<char>,
    password: Option<Seq<char>>,
)
    ensures
        https_allows(text, Some((scheme, host, username, password))) <==> {
            &&& text.len() <= 2048
            &&& forall|i: int|
                0 <= i < text.len() ==> (#[trigger] text[i]) as int > 31 && text[i] as int != 127
            &&& scheme == seq!['h', 't', 't', 'p', 's']
            &&& host is Some
            &&& username == Seq::<char>::empty()
            &&& password is None
        },
        !https_allows(text, None),
        https_fault(true, Seq::empty()) is None,
        https_fault(false, Seq::empty()) is Some,
{
    reveal_strlit("https");
    assert("https"@ =~= seq!['h', 't', 't', 'p', 's']);
    if username.len() == 0 {
        assert(username =~= Seq::<char>::empty());
    }
}

} // verus!
