//! Catalogs: their signatures, their age, and the one that comes with the application.

use vstd::prelude::*;
use vstd::slice::slice_subrange;
use vstd::utf8::{encode_utf8, is_ascii_chars, is_ascii_chars_encode_utf8};
use crate::digest::hex;
use crate::error::{fails_with, settles, Error, ErrorView};
use crate::moment::current_time;
use crate::place::{Place, PlaceView};
use crate::schema::{
    catalog_fault, catalog_size_fault, check_catalog_size, expiry_fault, https_urls, Catalog,
    MAX_SIGNATURE_BYTES,
};
use crate::text::{begins_with, decimal, decimal_text, join4, text_starts_with};

verus! {

/// The longest time for which a catalog that was fetched is used again, in nanoseconds: 24 hours.
pub const VERIFIED_CACHE_MAX_AGE: u128 = 86_400_000_000_000;

pub const DEFAULT_CATALOG_URL: &'static str = "https://github.com/EnchiladaBoy/UCI-Grabber/releases/download/v0.2.0/catalog-v0.2.0.json";

pub const DEFAULT_SIGNATURE_URL: &'static str = "https://github.com/EnchiladaBoy/UCI-Grabber/releases/download/v0.2.0/catalog-v0.2.0.sig";

/// The empty catalog that comes with the application.
pub const BUNDLED_CATALOG: &'static str = "{\n  \"schema\": \"uci-grabber-catalog/v1\",\n  \"generated_at\": \"2026-07-21T00:00:00Z\",\n  \"expires_at\": \"9999-12-31T23:59:59Z\",\n  \"recipes\": []\n}\n";

/// The signature of [`BUNDLED_CATALOG`], in hexadecimal.
pub const BUNDLED_SIGNATURE: &'static str = "9d8e42b28ee4fd68508f2dad341e4f0381918058f75cadd3ca41c9ed6fb9969fbfbe47ebea69986e60e6a35a2d5161d4c5e672e81a85687e368bab9286bfd201";

/// The key that signed [`BUNDLED_CATALOG`], in hexadecimal; its private half was discarded.
pub const BUNDLED_PUBLIC_KEY: &'static str = "75a25e1d1fddb5d5e41faf4fc8bee64b5ed132bcd43e6978e9d76227cdd0226b";

/// What the base64 crate's standard engine decodes bytes to, where they are valid.
pub uninterp spec fn base64_decoded(bytes: Seq<u8>) -> Option<Seq<u8>>;

/// The bytes that may be there.
pub open spec fn optional_bytes(bytes: Option<Vec<u8>>) -> Option<Seq<u8>> {
    match bytes {
        Some(bytes) => Some(bytes@),
        None => None,
    }
}

/// Calls `decode` of `base64::engine::general_purpose::STANDARD`; the result depends on the bytes
/// alone and is named by [`base64_decoded`].
#[verifier::external_body]
pub(crate) fn decode_base64(bytes: &[u8]) -> (decoded: Option<Vec<u8>>)
    ensures
        optional_bytes(decoded) == base64_decoded(bytes@),
{
    base64::Engine::decode(&base64::engine::general_purpose::STANDARD, bytes).ok()
}

/// Whether ring accepts a signature as the Ed25519 signature of a message by a key.
pub uninterp spec fn ed25519_accepts(key: Seq<u8>, message: Seq<u8>, signature: Seq<u8>) -> bool;

/// Calls `verify` of ring's `UnparsedPublicKey` for `ED25519`; the answer depends on the key, the
/// message and the signature alone and is named by [`ed25519_accepts`]. It is never positive for a
/// key that is not 32 bytes long or a signature that is not 64 bytes long.
#[verifier::external_body]
pub(crate) fn verify_ed25519(key: &[u8], message: &[u8], signature: &[u8]) -> (accepted: bool)
    ensures
        accepted == ed25519_accepts(key@, message@, signature@),
        accepted ==> key@.len() == 32 && signature@.len() == 64,
{
    ring::signature::UnparsedPublicKey::new(&ring::signature::ED25519, key)
        .verify(message, signature)
        .is_ok()
}

/// ASCII white space: space, tab, line feed, form feed and carriage return.
pub open spec fn is_space_byte(byte: u8) -> bool {
    byte == 0x20 || byte == 0x09 || byte == 0x0a || byte == 0x0c || byte == 0x0d
}

/// Bytes without white space at the front.
pub open spec fn trim_front(bytes: Seq<u8>) -> Seq<u8>
    decreases bytes.len(),
{
    if bytes.len() > 0 && is_space_byte(bytes[0]) {
        trim_front(bytes.skip(1))
    } else {
        bytes
    }
}

/// Bytes without white space at the back.
pub open spec fn trim_back(bytes: Seq<u8>) -> Seq<u8>
    decreases bytes.len(),
{
    if bytes.len() > 0 && is_space_byte(bytes.last()) {
        trim_back(bytes.drop_last())
    } else {
        bytes
    }
}

/// Bytes without white space at either end.
pub open spec fn ascii_trimmed(bytes: Seq<u8>) -> Seq<u8> {
    trim_back(trim_front(bytes))
}

fn space_byte(byte: u8) -> (answer: bool)
    ensures
        answer == is_space_byte(byte),
{
    byte == 0x20 || byte == 0x09 || byte == 0x0a || byte == 0x0c || byte == 0x0d
}

/// Bytes without white space at either end.
pub fn trim_ascii(bytes: &[u8]) -> (trimmed: &[u8])
    ensures
        trimmed@ == ascii_trimmed(bytes@),
{
    let mut start: usize = 0;
    let mut end: usize = bytes.len();
    assert(bytes@.skip(0) =~= bytes@);
    while start < end && space_byte(bytes[start])
        invariant
            end == bytes@.len(),
            start <= end,
            trim_front(bytes@.skip(start as int)) == trim_front(bytes@),
        decreases end - start,
    {
        assert(bytes@.skip(start as int).skip(1) =~= bytes@.skip(start + 1));
        start = start + 1;
    }
    let ghost front = bytes@.skip(start as int);
    assert(trim_front(bytes@) == front);
    assert(bytes@.subrange(start as int, end as int) =~= front);
    while start < end && space_byte(bytes[end - 1])
        invariant
            start <= end <= bytes@.len(),
            trim_back(bytes@.subrange(start as int, end as int)) == trim_back(front),
        decreases end,
    {
        assert(bytes@.subrange(start as int, end as int).last() == bytes@[end - 1]);
        assert(bytes@.subrange(start as int, end as int).drop_last() =~= bytes@.subrange(
            start as int,
            end - 1,
        ));
        end = end - 1;
    }
    slice_subrange(bytes, start, end)
}

/// The value of a hexadecimal digit, in either case.
pub open spec fn hex_value(byte: u8) -> Option<int> {
    if 0x30 <= byte <= 0x39 {
        Some(byte - 0x30)
    } else if 0x61 <= byte <= 0x66 {
        Some(byte - 0x57)
    } else if 0x41 <= byte <= 0x46 {
        Some(byte - 0x37)
    } else {
        None
    }
}

/// Whether every byte is a hexadecimal digit.
pub open spec fn all_hex(bytes: Seq<u8>) -> bool {
    forall|i: int| 0 <= i < bytes.len() ==> hex_value(#[trigger] bytes[i]) is Some
}

/// The bytes that pairs of hexadecimal digits spell.
pub open spec fn unhexed(bytes: Seq<u8>) -> Seq<u8> {
    Seq::new(
        bytes.len() / 2,
        |i: int| (hex_value(bytes[2 * i])->0 * 16 + hex_value(bytes[2 * i + 1])->0) as u8,
    )
}

/// The bytes of a fixed number that are given as they are, in hexadecimal or in base64, given what
/// the base64 decoder makes of them.
pub open spec fn fixed_bytes(bytes: Seq<u8>, length: nat, base64: Option<Seq<u8>>) -> Option<
    Seq<u8>,
> {
    let trimmed = ascii_trimmed(bytes);
    if bytes.len() == length {
        Some(bytes)
    } else if trimmed.len() == 2 * length && all_hex(trimmed) {
        Some(unhexed(trimmed))
    } else {
        match base64 {
            Some(decoded) => if decoded.len() == length {
                Some(decoded)
            } else {
                None
            },
            None => None,
        }
    }
}

/// What the base64 decoder makes of bytes without white space at either end.
pub open spec fn trimmed_base64(bytes: Seq<u8>) -> Option<Seq<u8>> {
    base64_decoded(ascii_trimmed(bytes))
}

fn digit_value(byte: u8) -> (value: Option<u8>)
    ensures
        match value {
            Some(value) => hex_value(byte) == Some(value as int) && value < 16,
            None => hex_value(byte) is None,
        },
{
    if 0x30 <= byte && byte <= 0x39 {
        Some(byte - 0x30)
    } else if 0x61 <= byte && byte <= 0x66 {
        Some(byte - 0x57)
    } else if 0x41 <= byte && byte <= 0x46 {
        Some(byte - 0x37)
    } else {
        None
    }
}

/// The bytes that pairs of hexadecimal digits spell, where there are nothing but such digits.
fn decode_hex(bytes: &[u8]) -> (decoded: Option<Vec<u8>>)
    requires
        bytes@.len() % 2 == 0,
    ensures
        match decoded {
            Some(decoded) => all_hex(bytes@) && decoded@ == unhexed(bytes@),
            None => !all_hex(bytes@),
        },
{
    let end = bytes.len();
    let half = end / 2;
    let mut decoded: Vec<u8> = Vec::new();
    for i in 0..half
        invariant
            end == bytes@.len(),
            2 * half == end,
            decoded@.len() == i,
            forall|k: int| 0 <= k < 2 * i ==> hex_value(#[trigger] bytes@[k]) is Some,
            forall|k: int| 0 <= k < i ==> #[trigger] decoded@[k] == unhexed(bytes@)[k],
    {
        let high = match digit_value(bytes[2 * i]) {
            Some(value) => value,
            None => {
                assert(hex_value(bytes@[2 * i as int]) is None);
                return None;
            },
        };
        let low = match digit_value(bytes[2 * i + 1]) {
            Some(value) => value,
            None => {
                assert(hex_value(bytes@[2 * i + 1]) is None);
                return None;
            },
        };
        decoded.push(high * 16 + low);
        assert(unhexed(bytes@)[i as int] == high * 16 + low);
    }
    assert(decoded@ =~= unhexed(bytes@));
    Some(decoded)
}

/// Reads bytes of a fixed number, given what the base64 decoder makes of them.
pub fn decode_fixed_given(bytes: &[u8], length: usize, base64: Option<Vec<u8>>) -> (fixed: Option<
    Vec<u8>,
>)
    requires
        length <= 64,
    ensures
        optional_bytes(fixed) == fixed_bytes(bytes@, length as nat, optional_bytes(base64)),
{
    if bytes.len() == length {
        let mut raw: Vec<u8> = Vec::new();
        raw.extend_from_slice(bytes);
        assert(raw@ =~= bytes@);
        return Some(raw);
    }
    let trimmed = trim_ascii(bytes);
    if trimmed.len() == 2 * length {
        match decode_hex(trimmed) {
            Some(decoded) => {
                return Some(decoded);
            },
            None => {},
        }
    }
    match base64 {
        Some(decoded) => if decoded.len() == length {
            Some(decoded)
        } else {
            None
        },
        None => None,
    }
}

/// Reads bytes of a fixed number.
fn decode_fixed(bytes: &[u8], length: usize) -> (fixed: Option<Vec<u8>>)
    requires
        length <= 64,
    ensures
        optional_bytes(fixed) == fixed_bytes(bytes@, length as nat, trimmed_base64(bytes@)),
{
    decode_fixed_given(bytes, length, decode_base64(trim_ascii(bytes)))
}

/// The key that bytes spell, given what the base64 decoder makes of them.
pub open spec fn public_key_of(bytes: Seq<u8>, base64: Option<Seq<u8>>) -> Result<
    Seq<u8>,
    ErrorView,
> {
    match fixed_bytes(bytes, 32, base64) {
        Some(key) => Ok(key),
        None => Err(
            ErrorView::InvalidCatalog("public key must be raw, hex, or base64 Ed25519 bytes"@),
        ),
    }
}

/// Whether an outcome is the bytes or the error of another.
pub open spec fn yields(outcome: Result<Vec<u8>, Error>, wanted: Result<Seq<u8>, ErrorView>) -> bool {
    match wanted {
        Ok(bytes) => outcome matches Ok(found) && found@ == bytes,
        Err(error) => fails_with(outcome, error),
    }
}

/// Reads a public key: 32 bytes as they are, in hexadecimal or in base64.
pub fn decode_public_key(bytes: &[u8]) -> (outcome: Result<Vec<u8>, Error>)
    ensures
        yields(outcome, public_key_of(bytes@, trimmed_base64(bytes@))),
{
    match decode_fixed(bytes, 32) {
        Some(key) => Ok(key),
        None => Err(
            Error::InvalidCatalog(
                "public key must be raw, hex, or base64 Ed25519 bytes".to_owned(),
            ),
        ),
    }
}

/// The signature that bytes spell, given what the base64 decoder makes of them.
pub open spec fn signature_of(bytes: Seq<u8>, base64: Option<Seq<u8>>) -> Result<
    Seq<u8>,
    ErrorView,
> {
    match fixed_bytes(bytes, 64, base64) {
        Some(signature) => Ok(signature),
        None => Err(ErrorView::InvalidSignature),
    }
}

/// Reads a signature: 64 bytes as they are, in hexadecimal or in base64.
pub fn decode_signature(bytes: &[u8]) -> (outcome: Result<Vec<u8>, Error>)
    ensures
        yields(outcome, signature_of(bytes@, trimmed_base64(bytes@))),
{
    match decode_fixed(bytes, 64) {
        Some(signature) => Ok(signature),
        None => Err(Error::InvalidSignature),
    }
}

/// Why a document and its signature are refused before the signature is looked at.
pub open spec fn size_fault(catalog: Seq<u8>, signature: Seq<u8>, key: Seq<u8>) -> Option<
    ErrorView,
> {
    if catalog_size_fault(catalog.len()) is Some {
        catalog_size_fault(catalog.len())
    } else if signature.len() > MAX_SIGNATURE_BYTES {
        Some(ErrorView::InvalidSignature)
    } else if key.len() != 32 {
        Some(ErrorView::InvalidCatalog("Ed25519 public key must be 32 bytes"@))
    } else {
        None
    }
}

/// The signature of a document that is authentic, or why it is not: given what the base64 decoder
/// makes of the signature, and which signatures of the document are accepted.
pub open spec fn authentication(
    catalog: Seq<u8>,
    signature: Seq<u8>,
    key: Seq<u8>,
    base64: Option<Seq<u8>>,
    accepts: spec_fn(Seq<u8>) -> bool,
) -> Result<Seq<u8>, ErrorView> {
    if size_fault(catalog, signature, key) is Some {
        Err(size_fault(catalog, signature, key)->0)
    } else {
        match signature_of(signature, base64) {
            Err(error) => Err(error),
            Ok(decoded) => if accepts(decoded) {
                Ok(decoded)
            } else {
                Err(ErrorView::InvalidSignature)
            },
        }
    }
}

/// Which signatures of a document by a key ring accepts.
pub open spec fn accepted_by(key: Seq<u8>, message: Seq<u8>) -> spec_fn(Seq<u8>) -> bool {
    |signature: Seq<u8>| ed25519_accepts(key, message, signature)
}

/// The signature of a document that is authentic, or why it is not.
pub open spec fn authentic(catalog: Seq<u8>, signature: Seq<u8>, key: Seq<u8>) -> Result<
    Seq<u8>,
    ErrorView,
> {
    authentication(
        catalog,
        signature,
        key,
        trimmed_base64(signature),
        accepted_by(key, catalog),
    )
}

/// Checks the sizes of a document, its signature and the key.
pub fn check_sizes(catalog: &[u8], signature: &[u8], key: &[u8]) -> (outcome: Result<(), Error>)
    ensures
        settles(outcome, size_fault(catalog@, signature@, key@)),
{
    let check = check_catalog_size(catalog.len() as u64);
    if check.is_err() {
        return check;
    }
    if signature.len() > MAX_SIGNATURE_BYTES {
        return Err(Error::InvalidSignature);
    }
    if key.len() != 32 {
        return Err(Error::InvalidCatalog("Ed25519 public key must be 32 bytes".to_owned()));
    }
    Ok(())
}

/// Checks the signature of a document over its exact bytes; the signature, where it is accepted.
pub fn authenticate(catalog: &[u8], signature: &[u8], key: &[u8]) -> (outcome: Result<
    Vec<u8>,
    Error,
>)
    ensures
        yields(outcome, authentic(catalog@, signature@, key@)),
        outcome matches Ok(found) ==> ed25519_accepts(key@, catalog@, found@) && found@.len()
            == 64,
{
    match check_sizes(catalog, signature, key) {
        Err(error) => {
            return Err(error);
        },
        Ok(()) => {},
    }
    match decode_signature(signature) {
        Err(error) => Err(error),
        Ok(decoded) => {
            let accepted = verify_ed25519(key, catalog, decoded.as_slice());
            if accepted {
                Ok(decoded)
            } else {
                Err(Error::InvalidSignature)
            }
        },
    }
}

/// A catalog whose signature was accepted, with its exact bytes.
#[derive(Clone, Debug, PartialEq, Eq)]
pub struct VerifiedCatalog {
    pub catalog: Catalog,
    pub exact_bytes: Vec<u8>,
    pub signature: Vec<u8>,
}

/// What an authentic document comes to by what the JSON reader made of it, at a time: the catalog,
/// or why it is refused. A bootstrap catalog must be empty.
pub open spec fn parsed_outcome(
    length: nat,
    parsed: Result<Catalog, String>,
    now: Seq<char>,
    bootstrap: bool,
) -> Result<Catalog, ErrorView> {
    match catalog_size_fault(length) {
        Some(error) => Err(error),
        None => match parsed {
            Err(message) => Err(ErrorView::Json(message@)),
            Ok(catalog) => if catalog_fault(catalog, https_urls()) is Some {
                Err(catalog_fault(catalog, https_urls())->0)
            } else if expiry_fault(catalog.expires_at@, now) is Some {
                Err(expiry_fault(catalog.expires_at@, now)->0)
            } else if bootstrap && catalog.recipes@.len() > 0 {
                Err(
                    ErrorView::InvalidCatalog("long-lived bootstrap catalog must remain empty"@),
                )
            } else {
                Ok(catalog)
            },
        },
    }
}

/// Accepts what the JSON reader made of an authentic document, at the time `now`.
pub fn accept_parsed(
    bytes: &[u8],
    parsed: Result<Catalog, String>,
    now: &str,
    bootstrap: bool,
) -> (outcome: Result<Catalog, Error>)
    ensures
        match parsed_outcome(bytes@.len(), parsed, now@, bootstrap) {
            Ok(catalog) => outcome == Ok::<Catalog, Error>(catalog),
            Err(error) => fails_with(outcome, error),
        },
{
    match Catalog::from_json(bytes, parsed) {
        Err(error) => Err(error),
        Ok(catalog) => match catalog.ensure_not_expired_at(now) {
            Err(error) => Err(error),
            Ok(()) => if bootstrap && catalog.recipes.len() > 0 {
                Err(
                    Error::InvalidCatalog(
                        "long-lived bootstrap catalog must remain empty".to_owned(),
                    ),
                )
            } else {
                Ok(catalog)
            },
        },
    }
}

/// Whether verifying a document comes to an outcome at a time, by what the JSON reader makes of it:
/// it is refused because it is not authentic; or it is, and what was read leads to the outcome.
pub open spec fn verified_at(
    outcome: Result<VerifiedCatalog, Error>,
    catalog: Seq<u8>,
    signature: Seq<u8>,
    key: Seq<u8>,
    bootstrap: bool,
    parsed: Result<Catalog, String>,
    now: Seq<char>,
) -> bool {
    match authentic(catalog, signature, key) {
        Err(error) => fails_with(outcome, error),
        Ok(decoded) => match parsed_outcome(catalog.len(), parsed, now, bootstrap) {
            Err(error) => fails_with(outcome, error),
            Ok(accepted) => outcome matches Ok(verified) && {
                &&& verified.catalog == accepted
                &&& verified.exact_bytes@ == catalog
                &&& verified.signature@ == decoded
            },
        },
    }
}

/// Whether verifying a document came to an outcome: it was refused because it is not authentic; or
/// it is, and what the JSON reader made of it at some time led to the outcome.
pub open spec fn verified_as<F: Fn(&[u8]) -> Result<Catalog, String>>(
    outcome: Result<VerifiedCatalog, Error>,
    catalog: &[u8],
    signature: Seq<u8>,
    key: Seq<u8>,
    bootstrap: bool,
    parse: F,
) -> bool {
    match authentic(catalog@, signature, key) {
        Err(error) => fails_with(outcome, error),
        Ok(_) => exists|parsed: Result<Catalog, String>, now: Seq<char>|
            {
                &&& call_ensures(parse, (catalog,), parsed)
                &&& #[trigger] verified_at(
                    outcome,
                    catalog@,
                    signature,
                    key,
                    bootstrap,
                    parsed,
                    now,
                )
            },
    }
}

impl VerifiedCatalog {
    /// Verifies the detached Ed25519 signature over the exact bytes of a catalog; only then are
    /// they given to the JSON reader `parse`, and the catalog that it makes of them is checked.
    pub fn verify<F: Fn(&[u8]) -> Result<Catalog, String>>(
        catalog_bytes: &[u8],
        signature_bytes: &[u8],
        public_key: &[u8],
        parse: F,
    ) -> (outcome: Result<VerifiedCatalog, Error>)
        requires
            call_requires(parse, (catalog_bytes,)),
        ensures
            verified_as(
                outcome,
                catalog_bytes,
                signature_bytes@,
                public_key@,
                false,
                parse,
            ),
    {
        VerifiedCatalog::verify_with_policy(
            catalog_bytes,
            signature_bytes,
            public_key,
            false,
            parse,
        )
    }

    /// The same for a catalog that must be empty.
    pub fn verify_bootstrap<F: Fn(&[u8]) -> Result<Catalog, String>>(
        catalog_bytes: &[u8],
        signature_bytes: &[u8],
        public_key: &[u8],
        parse: F,
    ) -> (outcome: Result<VerifiedCatalog, Error>)
        requires
            call_requires(parse, (catalog_bytes,)),
        ensures
            verified_as(outcome, catalog_bytes, signature_bytes@, public_key@, true, parse),
    {
        VerifiedCatalog::verify_with_policy(
            catalog_bytes,
            signature_bytes,
            public_key,
            true,
            parse,
        )
    }

    fn verify_with_policy<F: Fn(&[u8]) -> Result<Catalog, String>>(
        catalog_bytes: &[u8],
        signature_bytes: &[u8],
        public_key: &[u8],
        bootstrap: bool,
        parse: F,
    ) -> (outcome: Result<VerifiedCatalog, Error>)
        requires
            call_requires(parse, (catalog_bytes,)),
        ensures
            verified_as(
                outcome,
                catalog_bytes,
                signature_bytes@,
                public_key@,
                bootstrap,
                parse,
            ),
    {
        let signature = match authenticate(catalog_bytes, signature_bytes, public_key) {
            Ok(signature) => signature,
            Err(error) => {
                return Err(error);
            },
        };
        let parsed = parse(catalog_bytes);
        let now = current_time();
        let ghost given = parsed;
        let outcome = match accept_parsed(catalog_bytes, parsed, now.as_str(), bootstrap) {
            Err(error) => Err(error),
            Ok(catalog) => {
                let mut exact_bytes: Vec<u8> = Vec::new();
                exact_bytes.extend_from_slice(catalog_bytes);
                assert(exact_bytes@ =~= catalog_bytes@);
                Ok(VerifiedCatalog { catalog, exact_bytes, signature })
            },
        };
        assert(verified_at(
            outcome,
            catalog_bytes@,
            signature_bytes@,
            public_key@,
            bootstrap,
            given,
            now@,
        ));
        outcome
    }
}

/// The error of a request for a catalog to an address that is not acceptable.
pub open spec fn endpoint_fault(url: Seq<char>) -> Option<ErrorView> {
    if begins_with(url, "https://"@) {
        None
    } else {
        Some(ErrorView::Download { url, message: "catalog endpoints must use HTTPS"@ })
    }
}

/// Checks the address of a catalog or a signature before it is fetched.
pub fn check_endpoint(url: &str) -> (outcome: Result<(), Error>)
    ensures
        settles(outcome, endpoint_fault(url@)),
{
    if text_starts_with(url, "https://") {
        Ok(())
    } else {
        Err(
            Error::Download {
                url: url.to_owned(),
                message: "catalog endpoints must use HTTPS".to_owned(),
            },
        )
    }
}

/// Checks the number of bytes that were fetched.
pub fn check_fetched(length: u64, limit: u64) -> (outcome: Result<(), Error>)
    ensures
        settles(
            outcome,
            if length > limit {
                Some(ErrorView::DownloadTooLarge { limit })
            } else {
                None
            },
        ),
{
    if length > limit {
        Err(Error::DownloadTooLarge { limit })
    } else {
        Ok(())
    }
}

/// Checks the length of a file before it is read.
pub fn check_file_size(path: &Place, length: u64, limit: u64) -> (outcome: Result<(), Error>)
    ensures
        settles(
            outcome,
            if length > limit {
                Some(
                    ErrorView::Other(
                        path@.shown + " exceeds "@ + decimal(limit as nat) + " bytes"@,
                    ),
                )
            } else {
                None
            },
        ),
{
    if length > limit {
        Err(
            Error::Other(
                join4(path.shown.as_str(), " exceeds ", decimal_text(limit).as_str(), " bytes"),
            ),
        )
    } else {
        Ok(())
    }
}

/// Where catalogs that were fetched are kept.
#[derive(Clone, Debug, PartialEq, Eq)]
pub struct CatalogCache {
    directory: Place,
}

/// What is kept of a catalog that was fetched.
pub struct CachedCatalog {
    /// How long ago it was written, in nanoseconds.
    pub age: u128,
    pub catalog: Vec<u8>,
    pub signature: Vec<u8>,
}

impl CatalogCache {
    /// The directory of the cache.
    pub closed spec fn view(&self) -> PlaceView {
        self.directory@
    }

    /// The cache in a directory.
    pub fn new(directory: Place) -> (cache: CatalogCache)
        ensures
            cache@ == directory@,
    {
        CatalogCache { directory }
    }

    /// A copy of the cache.
    pub fn copy(&self) -> (cache: CatalogCache)
        ensures
            cache@ == self@,
    {
        CatalogCache { directory: self.directory.copy() }
    }

    /// The directory of the cache.
    pub fn directory(&self) -> (place: &Place)
        ensures
            place@ == self@,
    {
        &self.directory
    }

    /// The file of the catalog.
    pub fn catalog_path(&self) -> (place: Place)
        ensures
            place@ == self@.below(seq!["catalog.json"@]),
    {
        self.directory.child("catalog.json")
    }

    /// The file of the signature.
    pub fn signature_path(&self) -> (place: Place)
        ensures
            place@ == self@.below(seq!["catalog.sig"@]),
    {
        self.directory.child("catalog.sig")
    }

    /// What is written to the cache: the exact bytes of the catalog, and its signature.
    pub fn store<'a>(&self, verified: &'a VerifiedCatalog) -> (contents: (&'a Vec<u8>, &'a Vec<u8>))
        ensures
            contents.0@ == verified.exact_bytes@,
            contents.1@ == verified.signature@,
    {
        (&verified.exact_bytes, &verified.signature)
    }

    /// Whether a catalog of an age is used again.
    pub fn is_fresh(age: u128) -> (answer: bool)
        ensures
            answer == (age <= VERIFIED_CACHE_MAX_AGE),
    {
        age <= VERIFIED_CACHE_MAX_AGE
    }

    /// The catalog of the cache, where there is one that is at most 24 hours old; its signature is
    /// verified again.
    pub fn load_fresh<F: Fn(&[u8]) -> Result<Catalog, String>>(
        &self,
        found: &Option<CachedCatalog>,
        public_key: &[u8],
        parse: F,
    ) -> (outcome: Result<Option<VerifiedCatalog>, Error>)
        requires
            forall|bytes: &[u8]| call_requires(parse, (bytes,)),
        ensures
            loaded_as(outcome, *found, public_key@, parse),
    {
        match found {
            None => Ok(None),
            Some(cached) => if !CatalogCache::is_fresh(cached.age) {
                Ok(None)
            } else {
                match VerifiedCatalog::verify(
                    cached.catalog.as_slice(),
                    cached.signature.as_slice(),
                    public_key,
                    parse,
                ) {
                    Ok(verified) => Ok(Some(verified)),
                    Err(error) => Err(error),
                }
            },
        }
    }
}

/// Whether looking into a cache came to an outcome: there is nothing to be used, or what is there
/// was verified to it.
pub open spec fn loaded_as<F: Fn(&[u8]) -> Result<Catalog, String>>(
    outcome: Result<Option<VerifiedCatalog>, Error>,
    found: Option<CachedCatalog>,
    key: Seq<u8>,
    parse: F,
) -> bool {
    match found {
        None => outcome == Ok::<Option<VerifiedCatalog>, Error>(None),
        Some(cached) => if cached.age > VERIFIED_CACHE_MAX_AGE {
            outcome == Ok::<Option<VerifiedCatalog>, Error>(None)
        } else {
            &&& outcome != Ok::<Option<VerifiedCatalog>, Error>(None)
            &&& exists|bytes: &[u8]| bytes@ == cached.catalog@ && #[trigger] verified_as(
                found_or_error(outcome),
                bytes,
                cached.signature@,
                key,
                false,
                parse,
            )
        },
    }
}

/// An outcome that is not without a catalog, as that of verifying it.
pub open spec fn found_or_error(outcome: Result<Option<VerifiedCatalog>, Error>) -> Result<
    VerifiedCatalog,
    Error,
> {
    match outcome {
        Ok(verified) => Ok(verified->0),
        Err(error) => Err(error),
    }
}

/// Fetches the catalog of this release.
#[derive(Clone, Debug, PartialEq, Eq)]
pub struct CatalogClient {
    pub catalog_url: String,
    pub signature_url: String,
    pub public_key: Vec<u8>,
    pub cache: CatalogCache,
}

impl CatalogClient {
    /// The client with a key that fetches from where this release was published.
    pub fn new(public_key: Vec<u8>, cache: CatalogCache) -> (client: CatalogClient)
        ensures
            client.catalog_url@ == DEFAULT_CATALOG_URL@,
            client.signature_url@ == DEFAULT_SIGNATURE_URL@,
            client.public_key == public_key,
            client.cache == cache,
    {
        CatalogClient {
            catalog_url: DEFAULT_CATALOG_URL.to_owned(),
            signature_url: DEFAULT_SIGNATURE_URL.to_owned(),
            public_key,
            cache,
        }
    }

    /// Verifies what was fetched; only what was verified may go into the cache.
    pub fn refresh<F: Fn(&[u8]) -> Result<Catalog, String>>(
        &self,
        catalog: &[u8],
        signature: &[u8],
        parse: F,
    ) -> (outcome: Result<VerifiedCatalog, Error>)
        requires
            call_requires(parse, (catalog,)),
        ensures
            verified_as(outcome, catalog, signature@, self.public_key@, false, parse),
    {
        VerifiedCatalog::verify(catalog, signature, self.public_key.as_slice(), parse)
    }

    /// The catalog of the cache, where there is one that is at most 24 hours old.
    pub fn cached<F: Fn(&[u8]) -> Result<Catalog, String>>(
        &self,
        found: &Option<CachedCatalog>,
        parse: F,
    ) -> (outcome: Result<Option<VerifiedCatalog>, Error>)
        requires
            forall|bytes: &[u8]| call_requires(parse, (bytes,)),
        ensures
            loaded_as(outcome, *found, self.public_key@, parse),
    {
        self.cache.load_fresh(found, self.public_key.as_slice(), parse)
    }
}

/// The key that comes with the application.
pub fn bundled_public_key() -> (outcome: Result<Vec<u8>, Error>)
    ensures
        outcome matches Ok(key) && key@ == bundled_key(),
{
    proof {
        lemma_bundled_key();
    }
    decode_public_key(BUNDLED_PUBLIC_KEY.as_bytes())
}

/// The bytes of the key that comes with the application.
pub open spec fn bundled_key() -> Seq<u8> {
    unhexed(encode_utf8(BUNDLED_PUBLIC_KEY@))
}

proof fn lemma_bundled_key()
    ensures
        fixed_bytes(
            encode_utf8(BUNDLED_PUBLIC_KEY@),
            32,
            trimmed_base64(encode_utf8(BUNDLED_PUBLIC_KEY@)),
        ) == Some(bundled_key()),
{
    let text = BUNDLED_PUBLIC_KEY@;
    reveal_strlit("75a25e1d1fddb5d5e41faf4fc8bee64b5ed132bcd43e6978e9d76227cdd0226b");
    assert(text.len() == 64);
    assert(is_ascii_chars(text));
    is_ascii_chars_encode_utf8(text);
    let bytes = encode_utf8(text);
    assert forall|i: int| 0 <= i < 64 implies hex_value(#[trigger] bytes[i]) is Some by {
        assert(text[i] as u8 == bytes[i]);
    }
    assert(trim_front(bytes) == bytes) by {
        assert(text[0] as u8 == bytes[0]);
    }
    assert(trim_back(bytes) == bytes) by {
        assert(text[63] as u8 == bytes[63]);
    }
}

/// The catalog that comes with the application.
pub fn bundled_catalog<F: Fn(&[u8]) -> Result<Catalog, String>>(parse: F) -> (outcome: Result<
    VerifiedCatalog,
    Error,
>)
    requires
        forall|bytes: &[u8]| call_requires(parse, (bytes,)),
    ensures
        bundled_as(outcome, parse),
{
    match bundled_public_key() {
        Err(error) => Err(error),
        Ok(key) => VerifiedCatalog::verify(
            BUNDLED_CATALOG.as_bytes(),
            BUNDLED_SIGNATURE.as_bytes(),
            key.as_slice(),
            parse,
        ),
    }
}

/// Whether verifying the catalog that comes with the application came to an outcome.
pub open spec fn bundled_as<F: Fn(&[u8]) -> Result<Catalog, String>>(
    outcome: Result<VerifiedCatalog, Error>,
    parse: F,
) -> bool {
    exists|bytes: &[u8]| bytes@ == encode_utf8(BUNDLED_CATALOG@) && #[trigger] verified_as(
        outcome,
        bytes,
        encode_utf8(BUNDLED_SIGNATURE@),
        bundled_key(),
        false,
        parse,
    )
}

/// The client with the key that comes with the application.
pub fn default_client(cache: CatalogCache) -> (outcome: Result<CatalogClient, Error>)
    ensures
        outcome matches Ok(client) && {
            &&& client.public_key@ == bundled_key()
            &&& client.cache == cache
            &&& client.catalog_url@ == DEFAULT_CATALOG_URL@
            &&& client.signature_url@ == DEFAULT_SIGNATURE_URL@
        },
{
    match bundled_public_key() {
        Err(error) => Err(error),
        Ok(key) => Ok(CatalogClient::new(key, cache)),
    }
}

/// The catalog of the cache, where there is one to be used; otherwise the one that comes with the
/// application.
pub fn preferred_catalog<F: Fn(&[u8]) -> Result<Catalog, String> + Copy>(
    client: &CatalogClient,
    found: &Option<CachedCatalog>,
    parse: F,
) -> (outcome: Result<VerifiedCatalog, Error>)
    requires
        forall|bytes: &[u8]| call_requires(parse, (bytes,)),
    ensures
        match *found {
            Some(cached) if cached.age <= VERIFIED_CACHE_MAX_AGE => exists|bytes: &[u8]|
                bytes@ == cached.catalog@ && #[trigger] verified_as(
                    outcome,
                    bytes,
                    cached.signature@,
                    client.public_key@,
                    false,
                    parse,
                ),
            _ => bundled_as(outcome, parse),
        },
{
    match client.cached(found, parse) {
        Err(error) => Err(error),
        Ok(Some(verified)) => Ok(verified),
        Ok(None) => bundled_catalog(parse),
    }
}

/// A catalog that was verified is one whose exact bytes the key signed.
pub proof fn verified_catalogs_are_signed<F: Fn(&[u8]) -> Result<Catalog, String>>(
    verified: VerifiedCatalog,
    catalog: &[u8],
    signature: Seq<u8>,
    key: Seq<u8>,
    bootstrap: bool,
    parse: F,
)
    requires
        verified_as(Ok(verified), catalog, signature, key, bootstrap, parse),
    ensures
        verified.exact_bytes@ == catalog@,
        ed25519_accepts(key, verified.exact_bytes@, verified.signature@),
        catalog_fault(verified.catalog, https_urls()) is None,
        bootstrap ==> verified.catalog.recipes@.len() == 0,
{
}

/// A document that is not authentic is refused whatever the JSON reader would make of it.
pub proof fn forged_catalogs_are_never_read<F: Fn(&[u8]) -> Result<Catalog, String>>(
    outcome: Result<VerifiedCatalog, Error>,
    catalog: &[u8],
    signature: Seq<u8>,
    key: Seq<u8>,
    bootstrap: bool,
    parse: F,
)
    requires
        verified_as(outcome, catalog, signature, key, bootstrap, parse),
        authentic(catalog@, signature, key) is Err,
    ensures
        fails_with(outcome, authentic(catalog@, signature, key)->Err_0),
{
}

/// The same document, signature and key, verified at one time and read alike, are accepted as a
/// bootstrap catalog if and only if they are accepted as any other and the catalog is empty: then
/// the same is accepted. One with recipes is refused, and what is refused otherwise is refused for
/// the same reason.
pub proof fn bootstrap_catalogs_are_accepted_when_empty(
    catalog: Seq<u8>,
    signature: Seq<u8>,
    key: Seq<u8>,
    parsed: Result<Catalog, String>,
    now: Seq<char>,
    usual: Result<VerifiedCatalog, Error>,
    bootstrap: Result<VerifiedCatalog, Error>,
)
    requires
        verified_at(usual, catalog, signature, key, false, parsed, now),
        verified_at(bootstrap, catalog, signature, key, true, parsed, now),
    ensures
        match usual {
            Ok(verified) => if verified.catalog.recipes@.len() == 0 {
                bootstrap matches Ok(same) && {
                    &&& same.catalog == verified.catalog
                    &&& same.exact_bytes@ == verified.exact_bytes@
                    &&& same.signature@ == verified.signature@
                }
            } else {
                fails_with(
                    bootstrap,
                    ErrorView::InvalidCatalog("long-lived bootstrap catalog must remain empty"@),
                )
            },
            Err(error) => fails_with(bootstrap, error@),
        },
{
}

/// Bytes of a fixed number that were written in hexadecimal read back.
pub proof fn hexadecimal_bytes_read_back(bytes: Seq<u8>, base64: Option<Seq<u8>>)
    requires
        bytes.len() > 0,
    ensures
        fixed_bytes(encode_utf8(hex(bytes)), bytes.len(), base64) == Some(bytes),
{
    let text = hex(bytes);
    let written = encode_utf8(text);
    assert forall|i: int| 0 <= i < text.len() implies '\0' <= #[trigger] text[i] <= '\u{7f}' by {}
    is_ascii_chars_encode_utf8(text);
    assert forall|i: int| 0 <= i < written.len() implies #[trigger] hex_value(written[i]) == Some(
        if i % 2 == 0 {
            bytes[i / 2] as int / 16
        } else {
            bytes[i / 2] as int % 16
        },
    ) by {
        assert(text[i] as u8 == written[i]);
    }
    assert(hex_value(written[0]) is Some);
    assert(hex_value(written[written.len() - 1]) is Some);
    assert(trim_front(written) == written);
    assert(trim_back(written) == written);
    assert(unhexed(written) =~= bytes) by {
        assert forall|i: int| 0 <= i < bytes.len() implies unhexed(written)[i] == bytes[i] by {
            assert(hex_value(written[2 * i]) == Some(bytes[i] as int / 16));
            assert(hex_value(written[2 * i + 1]) == Some(bytes[i] as int % 16));
        }
    }
}

proof fn lemma_trim_back(bytes: Seq<u8>, end: Seq<u8>)
    requires
        bytes.len() > 0 ==> !is_space_byte(bytes.last()),
        forall|i: int| 0 <= i < end.len() ==> is_space_byte(#[trigger] end[i]),
    ensures
        trim_back(bytes + end) == bytes,
    decreases end.len(),
{
    if end.len() > 0 {
        let fewer = end.drop_last();
        assert((bytes + end).drop_last() =~= bytes + fewer);
        assert((bytes + end).last() == end.last());
        assert forall|i: int| 0 <= i < fewer.len() implies is_space_byte(#[trigger] fewer[i]) by {
            assert(fewer[i] == end[i]);
        }
        lemma_trim_back(bytes, fewer);
    } else {
        assert(bytes + end =~= bytes);
    }
}

/// Trimming takes spaces, tabs, line feeds, form feeds and carriage returns away at both ends, and
/// nothing else.
pub proof fn trimming_takes_spaces_away(front: Seq<u8>, bytes: Seq<u8>, end: Seq<u8>)
    requires
        forall|i: int|
            0 <= i < front.len() ==> #[trigger] front[i] == 9 || front[i] == 10 || front[i] == 12
                || front[i] == 13 || front[i] == 32,
        forall|i: int|
            0 <= i < end.len() ==> #[trigger] end[i] == 9 || end[i] == 10 || end[i] == 12 || end[i]
                == 13 || end[i] == 32,
        bytes.len() > 0,
        !(bytes[0] == 9 || bytes[0] == 10 || bytes[0] == 12 || bytes[0] == 13 || bytes[0] == 32),
        !(bytes.last() == 9 || bytes.last() == 10 || bytes.last() == 12 || bytes.last() == 13
            || bytes.last() == 32),
    ensures
        ascii_trimmed(front + bytes + end) == bytes,
    decreases front.len(),
{
    let all = front + bytes + end;
    if front.len() > 0 {
        let fewer = front.skip(1);
        assert(all[0] == front[0]);
        assert(all.skip(1) =~= fewer + bytes + end);
        assert forall|i: int| 0 <= i < fewer.len() implies #[trigger] fewer[i] == 9 || fewer[i] == 10
            || fewer[i] == 12 || fewer[i] == 13 || fewer[i] == 32 by {
            assert(fewer[i] == front[i + 1]);
        }
        trimming_takes_spaces_away(fewer, bytes, end);
    } else {
        assert(all =~= bytes + end);
        assert(all[0] == bytes[0]);
        lemma_trim_back(bytes, end);
    }
}

/// The value of a hexadecimal digit is that of `0` to `9`, and ten to fifteen for `a` to `f` in
/// either case; nothing else is one. Two digits are a byte, the first of the greater weight.
pub proof fn hexadecimal_digits_have_their_value(byte: u8, bytes: Seq<u8>, i: int)
    requires
        0 <= i,
        2 * i + 1 < bytes.len(),
        all_hex(bytes),
    ensures
        hex_value(byte) == if 48 <= byte <= 57 {
            Some(byte as int - 48)
        } else if 65 <= byte <= 70 {
            Some(byte as int - 55)
        } else if 97 <= byte <= 102 {
            Some(byte as int - 87)
        } else {
            None
        },
        unhexed(bytes).len() == bytes.len() / 2,
        unhexed(bytes)[i] == 16 * hex_value(bytes[2 * i])->0 + hex_value(bytes[2 * i + 1])->0,
{
    assert(hex_value(bytes[2 * i]) is Some && hex_value(bytes[2 * i + 1]) is Some);
}

/// Keys and signatures may be given as they are, in hexadecimal or in base64, with white space
/// around the latter two; a key has 32 bytes and a signature 64.
pub proof fn keys_and_signatures_have_their_length(bytes: Seq<u8>, base64: Option<Seq<u8>>)
    ensures
        public_key_of(bytes, base64) matches Ok(key) ==> key.len() == 32,
        signature_of(bytes, base64) matches Ok(signature) ==> signature.len() == 64,
        bytes.len() == 32 ==> public_key_of(bytes, base64) == Ok::<Seq<u8>, ErrorView>(bytes),
        bytes.len() == 64 ==> signature_of(bytes, base64) == Ok::<Seq<u8>, ErrorView>(bytes),
        bytes.len() != 32 && ascii_trimmed(bytes).len() == 64 && all_hex(ascii_trimmed(bytes))
            ==> public_key_of(bytes, base64) == Ok::<Seq<u8>, ErrorView>(
            unhexed(ascii_trimmed(bytes)),
        ),
        bytes.len() != 64 && ascii_trimmed(bytes).len() == 128 && all_hex(ascii_trimmed(bytes))
            ==> signature_of(bytes, base64) == Ok::<Seq<u8>, ErrorView>(
            unhexed(ascii_trimmed(bytes)),
        ),
        bytes.len() != 32 && !(ascii_trimmed(bytes).len() == 64 && all_hex(ascii_trimmed(bytes)))
            ==> match base64 {
            Some(decoded) => if decoded.len() == 32 {
                public_key_of(bytes, base64) == Ok::<Seq<u8>, ErrorView>(decoded)
            } else {
                public_key_of(bytes, base64) is Err
            },
            None => public_key_of(bytes, base64) is Err,
        },
        bytes.len() != 64 && !(ascii_trimmed(bytes).len() == 128 && all_hex(ascii_trimmed(bytes)))
            ==> match base64 {
            Some(decoded) => if decoded.len() == 64 {
                signature_of(bytes, base64) == Ok::<Seq<u8>, ErrorView>(decoded)
            } else {
                signature_of(bytes, base64) is Err
            },
            None => signature_of(bytes, base64) is Err,
        },
{
}

/// A catalog is authentic if and only if it has at most 524288 bytes, its signature at most 4096
/// and the key 32, the signature can be read, and it is one of the catalog with that key.
pub proof fn only_signed_catalogs_are_authentic(
    catalog: Seq<u8>,
    signature: Seq<u8>,
    key: Seq<u8>,
    base64: Option<Seq<u8>>,
    accepts: spec_fn(Seq<u8>) -> bool,
)
    ensures
        authentication(catalog, signature, key, base64, accepts) is Ok <==> {
            &&& catalog.len() <= 524288
            &&& signature.len() <= 4096
            &&& key.len() == 32
            &&& signature_of(signature, base64) matches Ok(decoded) && accepts(decoded)
        },
        authentication(catalog, signature, key, base64, accepts) matches Ok(decoded)
            ==> signature_of(signature, base64) == Ok::<Seq<u8>, ErrorView>(decoded),
{
}

/// A catalog that is authentic is accepted if and only if the JSON reader takes it, it obeys every
/// rule, and it has not expired; one that lives long must list no recipes besides.
pub proof fn accepted_catalogs_hold_now(
    length: nat,
    parsed: Result<Catalog, String>,
    now: Seq<char>,
    bootstrap: bool,
)
    ensures
        parsed_outcome(length, parsed, now, bootstrap) is Ok <==> {
            &&& length <= 524288
            &&& parsed matches Ok(catalog) && {
                &&& catalog_fault(catalog, https_urls()) is None
                &&& expiry_fault(catalog.expires_at@, now) is None
                &&& bootstrap ==> catalog.recipes@.len() == 0
            }
        },
        parsed_outcome(length, parsed, now, bootstrap) matches Ok(catalog) ==> parsed == Ok::<
            Catalog,
            String,
        >(catalog),
{
}

/// A cached catalog of at most 24 hours, in nanoseconds, is verified again; an older one is as good
/// as none.
pub proof fn cached_catalogs_last_a_day<F: Fn(&[u8]) -> Result<Catalog, String>>(
    outcome: Result<Option<VerifiedCatalog>, Error>,
    cached: CachedCatalog,
    key: Seq<u8>,
    parse: F,
)
    requires
        loaded_as(outcome, Some(cached), key, parse),
    ensures
        cached.age > 86400000000000 <==> outcome == Ok::<Option<VerifiedCatalog>, Error>(None),
{
}

/// Catalogs are fetched from addresses that begin with `https://`, and from no others.
pub proof fn catalogs_come_over_https(rest: Seq<char>, url: Seq<char>)
    ensures
        endpoint_fault("https://"@ + rest) is None,
        endpoint_fault(url) is None <==> begins_with(url, "https://"@),
{
    assert(("https://"@ + rest).take("https://"@.len() as int) =~= "https://"@);
}

/// A catalog that is too long is no valid one, nor is one with a key of another length than 32; a
/// signature that is too long, cannot be read or is not one of the catalog is invalid.
pub proof fn refused_catalogs_say_why(
    catalog: Seq<u8>,
    signature: Seq<u8>,
    key: Seq<u8>,
    base64: Option<Seq<u8>>,
    accepts: spec_fn(Seq<u8>) -> bool,
)
    ensures
        catalog.len() > 524288 ==> (authentication(
            catalog,
            signature,
            key,
            base64,
            accepts,
        ) matches Err(error) && error is InvalidCatalog),
        catalog.len() <= 524288 && signature.len() > 4096 ==> authentication(
            catalog,
            signature,
            key,
            base64,
            accepts,
        ) == Err::<Seq<u8>, ErrorView>(ErrorView::InvalidSignature),
        catalog.len() <= 524288 && signature.len() <= 4096 && key.len() != 32 ==> (authentication(
            catalog,
            signature,
            key,
            base64,
            accepts,
        ) matches Err(error) && error is InvalidCatalog),
        catalog.len() <= 524288 && signature.len() <= 4096 && key.len() == 32 ==> (authentication(
            catalog,
            signature,
            key,
            base64,
            accepts,
        ) matches Err(error) ==> error == ErrorView::InvalidSignature),
{
}

} // verus!
