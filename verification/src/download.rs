//! Downloads: their limits, and what is made of the bytes as they come.

use vstd::prelude::*;
use crate::digest::{hex, is_digest_of, sha256, Digest};
use crate::error::{fails_with, settles, Error, ErrorView};
use crate::schema::{Artifact, ArtifactKind};
use crate::text::{
    begins_with, decimal, decimal_text, equal_ignoring_ascii_case, join4, parse_number,
    parsed_number, text_starts_with,
};

verus! {

/// The most bytes of a runtime.
pub const MAX_RUNTIME_DOWNLOAD_BYTES: u64 = 1_073_741_824;

/// The most bytes of a model.
pub const MAX_MODEL_DOWNLOAD_BYTES: u64 = 419_430_400;

/// The most bytes of any other artifact.
pub const MAX_OTHER_DOWNLOAD_BYTES: u64 = 1_073_741_824;

/// How many bytes come between two reports of progress.
pub const PROGRESS_STEP_BYTES: u64 = 524_288;

/// The most redirects that a download follows.
pub const MAX_REDIRECTS: u32 = 5;

/// The nanoseconds after which a download is given up unless something else was asked for: fifteen
/// minutes.
pub const DEFAULT_TIMEOUT_NANOS: u128 = 900_000_000_000;

/// The most bytes of an artifact of a kind.
pub open spec fn kind_limit(kind: ArtifactKind) -> u64 {
    match kind {
        ArtifactKind::Runtime => MAX_RUNTIME_DOWNLOAD_BYTES,
        ArtifactKind::Model => MAX_MODEL_DOWNLOAD_BYTES,
        ArtifactKind::Other => MAX_OTHER_DOWNLOAD_BYTES,
    }
}

/// The most bytes of an artifact of a kind.
pub fn configured_limit(kind: ArtifactKind) -> (limit: u64)
    ensures
        limit == kind_limit(kind),
{
    match kind {
        ArtifactKind::Runtime => MAX_RUNTIME_DOWNLOAD_BYTES,
        ArtifactKind::Model => MAX_MODEL_DOWNLOAD_BYTES,
        ArtifactKind::Other => MAX_OTHER_DOWNLOAD_BYTES,
    }
}

/// The error for a download of an artifact.
pub open spec fn download_error(artifact: Artifact, message: Seq<char>) -> ErrorView {
    ErrorView::Download { url: artifact.url@, message }
}

/// Why an artifact is not even asked for.
pub open spec fn request_fault(artifact: Artifact) -> Option<ErrorView> {
    if artifact.byte_count > kind_limit(artifact.kind) {
        Some(ErrorView::DownloadTooLarge { limit: kind_limit(artifact.kind) })
    } else if !begins_with(artifact.url@, "https://"@) {
        Some(download_error(artifact, "only HTTPS downloads are permitted"@))
    } else {
        None
    }
}

/// The complaint about a number of bytes that is not the declared one.
pub open spec fn count_message(lead: Seq<char>, found: nat, declared: nat) -> Seq<char> {
    lead + decimal(found) + " bytes, recipe declares "@ + decimal(declared)
}

/// Why the length that a server announces is not accepted.
pub open spec fn announced_fault(artifact: Artifact, header: Option<Seq<char>>) -> Option<
    ErrorView,
> {
    match header {
        None => None,
        Some(text) => match parsed_number(text) {
            None => None,
            Some(length) => if length != artifact.byte_count {
                Some(
                    download_error(
                        artifact,
                        count_message(
                            "server reported "@,
                            length as nat,
                            artifact.byte_count as nat,
                        ),
                    ),
                )
            } else {
                None
            },
        },
    }
}

/// Why what was received is not accepted, once nothing more comes.
pub open spec fn received_fault(artifact: Artifact, received: Seq<u8>, path: Seq<char>) -> Option<
    ErrorView,
> {
    if received.len() != artifact.byte_count {
        Some(
            download_error(
                artifact,
                count_message("received "@, received.len(), artifact.byte_count as nat),
            ),
        )
    } else if !is_digest_of(artifact.sha256@, received) {
        Some(
            ErrorView::ChecksumMismatch {
                path,
                expected: artifact.sha256@,
                actual: hex(sha256(received)),
            },
        )
    } else {
        None
    }
}

fn count_text(lead: &str, found: u64, declared: u64) -> (text: String)
    ensures
        text@ == count_message(lead@, found as nat, declared as nat),
{
    join4(
        lead,
        decimal_text(found).as_str(),
        " bytes, recipe declares ",
        decimal_text(declared).as_str(),
    )
}

/// The download of one artifact: what has come of it, and what was last reported.
pub struct Transfer {
    limit: u64,
    total: u64,
    last_reported: u64,
    digest: Digest,
}

/// A [`Transfer`] with the bytes that have come.
#[verifier::ext_equal]
pub struct TransferView {
    pub received: Seq<u8>,
    pub last_reported: u64,
}

impl View for Transfer {
    type V = TransferView;

    closed spec fn view(&self) -> TransferView {
        TransferView { received: self.digest@, last_reported: self.last_reported }
    }
}

impl TransferView {
    /// Whether progress is reported once `total` bytes have come.
    pub open spec fn reports(self, artifact: Artifact, total: int) -> bool {
        total == artifact.byte_count || total - self.last_reported >= PROGRESS_STEP_BYTES
    }

    /// What the transfer comes to by the next bytes.
    pub open spec fn accept(self, artifact: Artifact, bytes: Seq<u8>) -> TransferView {
        let total = (self.received + bytes).len() as int;
        TransferView {
            received: self.received + bytes,
            last_reported: if self.reports(artifact, total) {
                total as u64
            } else {
                self.last_reported
            },
        }
    }
}

impl Transfer {
    /// The transfer is one of the artifact: no more has come than was declared, and the declared
    /// number of bytes is within the limit.
    pub closed spec fn wf(&self, artifact: Artifact) -> bool {
        &&& self.limit == kind_limit(artifact.kind)
        &&& artifact.byte_count <= self.limit
        &&& self.total == self.digest@.len()
        &&& self.total <= artifact.byte_count
        &&& self.last_reported <= self.total
    }

    /// Begins the download of an artifact, unless it must not be asked for.
    pub fn begin(artifact: &Artifact) -> (outcome: Result<Transfer, Error>)
        ensures
            match request_fault(*artifact) {
                Some(error) => fails_with(outcome, error),
                None => outcome matches Ok(transfer) && transfer.wf(*artifact) && transfer@
                    == (TransferView { received: Seq::empty(), last_reported: 0 }),
            },
    {
        let limit = configured_limit(artifact.kind);
        if artifact.byte_count > limit {
            return Err(Error::DownloadTooLarge { limit });
        }
        if !text_starts_with(artifact.url.as_str(), "https://") {
            return Err(
                Error::Download {
                    url: artifact.url.clone(),
                    message: "only HTTPS downloads are permitted".to_owned(),
                },
            );
        }
        Ok(Transfer { limit, total: 0, last_reported: 0, digest: Digest::new() })
    }

    /// Checks the length that the server announces, where it announces one.
    pub fn check_announced(artifact: &Artifact, header: &Option<String>) -> (outcome: Result<
        (),
        Error,
    >)
        ensures
            settles(outcome, announced_fault(*artifact, crate::web::optional(*header))),
    {
        match header {
            None => Ok(()),
            Some(text) => match parse_number(text.as_str()) {
                None => Ok(()),
                Some(length) => if length != artifact.byte_count {
                    Err(
                        Error::Download {
                            url: artifact.url.clone(),
                            message: count_text("server reported ", length, artifact.byte_count),
                        },
                    )
                } else {
                    Ok(())
                },
            },
        }
    }

    /// Takes the next bytes; says how many have come where that is to be reported. Bytes beyond the
    /// declared number are refused, and the transfer then stays as it is.
    pub fn accept(&mut self, artifact: &Artifact, bytes: &[u8]) -> (outcome: Result<
        Option<u64>,
        Error,
    >)
        requires
            old(self).wf(*artifact),
        ensures
            final(self).wf(*artifact),
            old(self)@.received.len() + bytes@.len() > artifact.byte_count ==> fails_with(
                outcome,
                ErrorView::DownloadTooLarge { limit: artifact.byte_count },
            ) && final(self)@ == old(self)@,
            old(self)@.received.len() + bytes@.len() <= artifact.byte_count ==> {
                let total = old(self)@.received.len() + bytes@.len();
                &&& final(self)@ == old(self)@.accept(*artifact, bytes@)
                &&& outcome matches Ok(report) && report == if old(self)@.reports(
                    *artifact,
                    total as int,
                ) {
                    Some(total as u64)
                } else {
                    None
                }
            },
    {
        let total = self.total.saturating_add(bytes.len() as u64);
        if total > artifact.byte_count || total > self.limit {
            let limit = if artifact.byte_count < self.limit {
                artifact.byte_count
            } else {
                self.limit
            };
            return Err(Error::DownloadTooLarge { limit });
        }
        self.digest.update(bytes);
        self.total = total;
        if total == artifact.byte_count || total.saturating_sub(self.last_reported)
            >= PROGRESS_STEP_BYTES {
            self.last_reported = total;
            Ok(Some(total))
        } else {
            Ok(None)
        }
    }

    /// Ends the download: everything that was declared must have come, and with the declared
    /// digest.
    pub fn finish(self, artifact: &Artifact, path: &str) -> (outcome: Result<(), Error>)
        requires
            self.wf(*artifact),
        ensures
            settles(outcome, received_fault(*artifact, self@.received, path@)),
    {
        if self.total != artifact.byte_count {
            return Err(
                Error::Download {
                    url: artifact.url.clone(),
                    message: count_text("received ", self.total, artifact.byte_count),
                },
            );
        }
        check_digest(artifact, self.digest.finish(), path)
    }
}

/// Compares a digest with the declared one.
fn check_digest(artifact: &Artifact, actual: String, path: &str) -> (outcome: Result<(), Error>)
    ensures
        settles(
            outcome,
            if crate::text::same_but_ascii_case(actual@, artifact.sha256@) {
                None
            } else {
                Some(
                    ErrorView::ChecksumMismatch {
                        path: path@,
                        expected: artifact.sha256@,
                        actual: actual@,
                    },
                )
            },
        ),
{
    if equal_ignoring_ascii_case(actual.as_str(), artifact.sha256.as_str()) {
        Ok(())
    } else {
        Err(
            Error::ChecksumMismatch {
                path: path.to_owned(),
                expected: artifact.sha256.clone(),
                actual,
            },
        )
    }
}

/// Why a file that was downloaded is not the artifact, by its length and its digest.
pub open spec fn file_fault(
    artifact: Artifact,
    length: u64,
    digest: Seq<char>,
    path: Seq<char>,
) -> Option<ErrorView> {
    if length != artifact.byte_count {
        Some(
            download_error(
                artifact,
                count_message(
                    "downloader produced "@,
                    length as nat,
                    artifact.byte_count as nat,
                ),
            ),
        )
    } else if !crate::text::same_but_ascii_case(digest, artifact.sha256@) {
        Some(
            ErrorView::ChecksumMismatch { path, expected: artifact.sha256@, actual: digest },
        )
    } else {
        None
    }
}

/// Checks the length of a file that was downloaded, before its digest is taken.
pub fn check_file_length(artifact: &Artifact, length: u64) -> (outcome: Result<(), Error>)
    ensures
        settles(
            outcome,
            if length != artifact.byte_count {
                file_fault(*artifact, length, Seq::empty(), Seq::empty())
            } else {
                None
            },
        ),
{
    if length != artifact.byte_count {
        Err(
            Error::Download {
                url: artifact.url.clone(),
                message: count_text("downloader produced ", length, artifact.byte_count),
            },
        )
    } else {
        Ok(())
    }
}

/// Checks a file that was downloaded a second time, by its length and the digest of its contents.
pub fn independently_verify_download(
    artifact: &Artifact,
    length: u64,
    digest: String,
    path: &str,
) -> (outcome: Result<(), Error>)
    ensures
        settles(outcome, file_fault(*artifact, length, digest@, path@)),
{
    match check_file_length(artifact, length) {
        Err(error) => Err(error),
        Ok(()) => check_digest(artifact, digest, path),
    }
}

/// However the bytes of a download are cut into pieces, the same bytes have been received: taking
/// two pieces is taking them as one.
pub proof fn pieces_do_not_matter(
    transfer: TransferView,
    artifact: Artifact,
    first: Seq<u8>,
    second: Seq<u8>,
)
    ensures
        transfer.accept(artifact, first).accept(artifact, second).received == transfer.accept(
            artifact,
            first + second,
        ).received,
{
    assert(transfer.received + first + second =~= transfer.received + (first + second));
}

/// What a download accepts, the second check of the same bytes accepts too.
pub proof fn downloads_pass_the_second_check(
    artifact: Artifact,
    received: Seq<u8>,
    path: Seq<char>,
)
    requires
        received_fault(artifact, received, path) is None,
    ensures
        file_fault(artifact, received.len() as u64, hex(sha256(received)), path) is None,
{
}

/// Fetches artifacts over HTTPS.
#[derive(Clone, Copy, Debug, PartialEq, Eq, Structural)]
pub struct HttpDownloader {
    timeout_nanos: u128,
}

impl HttpDownloader {
    /// The nanoseconds after which a download is given up.
    pub closed spec fn nanos(&self) -> u128 {
        self.timeout_nanos
    }

    /// A downloader that gives up after the given number of nanoseconds.
    pub fn with_timeout(timeout_nanos: u128) -> (downloader: HttpDownloader)
        ensures
            downloader.nanos() == timeout_nanos,
    {
        HttpDownloader { timeout_nanos }
    }

    /// The nanoseconds after which a download is given up.
    pub fn timeout_nanos(&self) -> (nanos: u128)
        ensures
            nanos == self.nanos(),
    {
        self.timeout_nanos
    }
}

impl Default for HttpDownloader {
    fn default() -> (downloader: HttpDownloader)
        ensures
            downloader.nanos() == DEFAULT_TIMEOUT_NANOS,
    {
        HttpDownloader { timeout_nanos: DEFAULT_TIMEOUT_NANOS }
    }
}

/// An artifact is asked for if and only if its address begins with `https://` and it declares no
/// more than 1073741824 bytes, or 419430400 for a model.
pub proof fn requests_are_limited(artifact: Artifact)
    ensures
        request_fault(artifact) is None <==> {
            &&& artifact.byte_count <= 1073741824
            &&& artifact.kind == ArtifactKind::Model ==> artifact.byte_count <= 419430400
            &&& begins_with(artifact.url@, "https://"@)
        },
{
}

/// A download goes on unless the server announces a number of bytes that is not the declared one.
pub proof fn announcements_agree_with_the_recipe(artifact: Artifact, header: Option<Seq<char>>)
    ensures
        announced_fault(artifact, header) is Some <==> (header matches Some(text) && parsed_number(
            text,
        ) is Some && parsed_number(text) != Some(artifact.byte_count)),
{
}

/// A download is accepted if and only if as many bytes came as were declared and their digest is
/// the declared one, and the same is asked of the file once more.
pub proof fn downloads_are_what_was_declared(
    artifact: Artifact,
    received: Seq<u8>,
    length: u64,
    digest: Seq<char>,
    path: Seq<char>,
)
    ensures
        received_fault(artifact, received, path) is None <==> received.len() == artifact.byte_count
            && is_digest_of(artifact.sha256@, received),
        file_fault(artifact, length, digest, path) is None <==> length == artifact.byte_count
            && crate::text::same_but_ascii_case(digest, artifact.sha256@),
{
}

/// Progress is reported at the end of a download, and whenever 524288 bytes or more have come since
/// it was reported last.
pub proof fn progress_is_reported_every_512_kib(
    transfer: TransferView,
    artifact: Artifact,
    bytes: Seq<u8>,
)
    requires
        (transfer.received + bytes).len() <= u64::MAX,
    ensures
        ({
            let total = transfer.received.len() + bytes.len();
            let next = transfer.accept(artifact, bytes);
            &&& next.received == transfer.received + bytes
            &&& transfer.reports(artifact, total as int) <==> total == artifact.byte_count || total
                >= transfer.last_reported + 524288
            &&& next.last_reported == if total == artifact.byte_count || total
                >= transfer.last_reported + 524288 {
                total as u64
            } else {
                transfer.last_reported
            }
        }),
{
}

/// A download that is not what was declared fails: one of another length for its address, and one
/// with another digest for its file, with the digest that was declared and the one that came. An
/// artifact that declares too much fails for the limit of its kind.
pub proof fn failed_downloads_say_why(
    artifact: Artifact,
    received: Seq<u8>,
    length: u64,
    digest: Seq<char>,
    path: Seq<char>,
)
    ensures
        received.len() != artifact.byte_count ==> (received_fault(artifact, received, path) matches Some(
            ErrorView::Download { url, .. },
        ) && url == artifact.url@),
        received.len() == artifact.byte_count && !is_digest_of(artifact.sha256@, received)
            ==> received_fault(artifact, received, path) == Some(
            ErrorView::ChecksumMismatch {
                path,
                expected: artifact.sha256@,
                actual: hex(sha256(received)),
            },
        ),
        length != artifact.byte_count ==> (file_fault(artifact, length, digest, path) matches Some(
            ErrorView::Download { url, .. },
        ) && url == artifact.url@),
        length == artifact.byte_count && !crate::text::same_but_ascii_case(
            digest,
            artifact.sha256@,
        ) ==> file_fault(artifact, length, digest, path) == Some(
            ErrorView::ChecksumMismatch { path, expected: artifact.sha256@, actual: digest },
        ),
        artifact.kind == ArtifactKind::Model && artifact.byte_count > 419430400 ==> request_fault(
            artifact,
        ) == Some(ErrorView::DownloadTooLarge { limit: 419430400 }),
        artifact.kind != ArtifactKind::Model && artifact.byte_count > 1073741824 ==> request_fault(
            artifact,
        ) == Some(ErrorView::DownloadTooLarge { limit: 1073741824 }),
{
}

} // verus!
