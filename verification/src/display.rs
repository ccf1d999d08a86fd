//! What the user reads: sizes, progress, and what is said of models and packages.

use vstd::prelude::*;
use vstd::slice::slice_subrange;
use crate::package::capped;
use crate::schema::{declared_bytes, Artifact, ArtifactKind, Model, Package, Recipe};
use crate::staging::{InstallPhase, InstallProgress};
use crate::text::{
    ascii_lower, begins_with, chars_of, decimal, decimal_text, find_char, find_text, first_at,
    first_standing, has_char, has_text, is_digit, join2, join3, join4, join5,
    joined_texts_fall_apart_again, joined_with, lemma_first_at, lemma_first_at_unique,
    lemma_first_standing, occurs, pieces_make_the_text, split_chars, split_on, stands_at,
    starts_with, text_of, to_ascii_lower,
};

verus! {

/// A kibibyte.
pub const KIB: u64 = 1_024;

/// A mebibyte.
pub const MIB: u64 = 1_048_576;

/// A gibibyte.
pub const GIB: u64 = 1_073_741_824;

/// A number of bytes in tenths of a unit, rounded; none of a unit of no bytes.
pub open spec fn tenths(bytes: u64, unit: u64) -> int {
    if unit == 0 {
        0
    } else {
        capped(capped(bytes * 10) + unit / 2) as int / unit as int
    }
}

/// A number of bytes in a unit, with one decimal.
pub open spec fn in_unit(bytes: u64, unit: u64, suffix: Seq<char>) -> Seq<char> {
    decimal((tenths(bytes, unit) / 10) as nat) + "."@ + decimal((tenths(bytes, unit) % 10) as nat)
        + " "@ + suffix
}

/// A number of bytes in the greatest unit that it reaches.
pub open spec fn size_text(bytes: u64) -> Seq<char> {
    if bytes >= GIB {
        in_unit(bytes, GIB, "GiB"@)
    } else if bytes >= MIB {
        in_unit(bytes, MIB, "MiB"@)
    } else if bytes >= KIB {
        in_unit(bytes, KIB, "KiB"@)
    } else {
        decimal(bytes as nat) + " B"@
    }
}

fn times(number: u64, factor: u64) -> (product: u64)
    ensures
        product == capped(number * factor),
{
    match number.checked_mul(factor) {
        Some(product) => product,
        None => u64::MAX,
    }
}

/// A number of bytes in a unit, with one decimal.
pub fn format_tenths(bytes: u64, unit: u64, suffix: &str) -> (text: String)
    ensures
        text@ == in_unit(bytes, unit, suffix@),
{
    let scaled = times(bytes, 10).saturating_add(unit / 2);
    let count: u64 = match scaled.checked_div(unit) {
        Some(count) => count,
        None => 0,
    };
    assert(count == tenths(bytes, unit));
    join5(
        decimal_text(count / 10).as_str(),
        ".",
        decimal_text(count % 10).as_str(),
        " ",
        suffix,
    )
}

/// A number of bytes in the greatest unit that it reaches.
pub fn format_bytes(bytes: u64) -> (text: String)
    ensures
        text@ == size_text(bytes),
{
    if bytes >= GIB {
        format_tenths(bytes, GIB, "GiB")
    } else if bytes >= MIB {
        format_tenths(bytes, MIB, "MiB")
    } else if bytes >= KIB {
        format_tenths(bytes, KIB, "KiB")
    } else {
        join2(decimal_text(bytes).as_str(), " B")
    }
}

/// A size is shown to the nearest tenth of its unit.
pub proof fn sizes_are_rounded_to_the_nearest_tenth(bytes: u64, unit: u64)
    requires
        unit > 0,
        bytes * 10 + unit / 2 <= u64::MAX,
    ensures
        2 * (tenths(bytes, unit) * unit - 10 * bytes) <= unit,
        2 * (10 * bytes - tenths(bytes, unit) * unit) <= unit,
{
    let scaled = bytes * 10 + unit / 2;
    let count = tenths(bytes, unit);
    assert(count == scaled / unit as int);
    assert(count * unit <= scaled < count * unit + unit) by (nonlinear_arith)
        requires
            count == scaled / unit as int,
            unit > 0,
            scaled >= 0,
    ;
}

/// How far an installation is, in thousandths.
pub open spec fn permille(progress: InstallProgress) -> int {
    if progress.total_bytes == 0 {
        0
    } else {
        let share = capped(progress.completed_bytes * 1000) as int / progress.total_bytes as int;
        if share > 1000 {
            1000
        } else {
            share
        }
    }
}

/// How far an installation is, in thousandths.
pub fn progress_permille(progress: InstallProgress) -> (share: u16)
    ensures
        share == permille(progress),
        share <= 1000,
{
    if progress.total_bytes == 0 {
        return 0;
    }
    let share = times(progress.completed_bytes, 1000) / progress.total_bytes;
    if share > 1000 {
        1000
    } else {
        share as u16
    }
}

/// What an installation is at, in words.
pub open spec fn phase_text(phase: InstallPhase, kind: Option<ArtifactKind>) -> Seq<char> {
    match phase {
        InstallPhase::Downloading => match kind {
            Some(ArtifactKind::Runtime) => "Downloading runtime"@,
            Some(ArtifactKind::Model) => "Downloading model"@,
            _ => "Downloading package"@,
        },
        InstallPhase::Verifying => "Verifying checksum"@,
        InstallPhase::Extracting => "Preparing portable package"@,
        InstallPhase::ValidatingUci => "Testing UCI compatibility"@,
        InstallPhase::Activating => "Saving portable package"@,
        InstallPhase::Ready => "UCI engine ready"@,
    }
}

fn phase_label(phase: InstallPhase, kind: Option<ArtifactKind>) -> (text: &'static str)
    ensures
        text@ == phase_text(phase, kind),
{
    match phase {
        InstallPhase::Downloading => match kind {
            Some(ArtifactKind::Runtime) => "Downloading runtime",
            Some(ArtifactKind::Model) => "Downloading model",
            _ => "Downloading package",
        },
        InstallPhase::Verifying => "Verifying checksum",
        InstallPhase::Extracting => "Preparing portable package",
        InstallPhase::ValidatingUci => "Testing UCI compatibility",
        InstallPhase::Activating => "Saving portable package",
        InstallPhase::Ready => "UCI engine ready",
    }
}

/// How far an installation is, in words.
pub fn progress_text(progress: InstallProgress) -> (text: String)
    ensures
        text@ == if progress.phase == InstallPhase::Downloading {
            phase_text(progress.phase, progress.artifact_kind) + " • overall "@ + size_text(
                progress.completed_bytes,
            ) + " / "@ + size_text(progress.total_bytes)
        } else {
            phase_text(progress.phase, progress.artifact_kind)
        },
{
    let phase = phase_label(progress.phase, progress.artifact_kind);
    if progress.phase == InstallPhase::Downloading {
        join5(
            phase,
            " • overall ",
            format_bytes(progress.completed_bytes).as_str(),
            " / ",
            format_bytes(progress.total_bytes).as_str(),
        )
    } else {
        phase.to_owned()
    }
}

/// What is said of a model by what its description holds.
pub open spec fn guidance(description: Seq<char>) -> Option<Seq<char>> {
    let text = ascii_lower(description);
    if occurs(text, "balanced"@) || occurs(text, "general use"@) {
        Some("Recommended"@)
    } else if occurs(text, "smallest"@) || occurs(text, "fastest"@) {
        Some("Smallest & fastest"@)
    } else if occurs(text, "largest"@) {
        Some("Largest"@)
    } else {
        None
    }
}

fn mentions(chars: &Vec<char>, word: &str) -> (answer: bool)
    requires
        word@.len() > 0,
    ensures
        answer == occurs(chars@, word@),
{
    has_text(chars.as_slice(), chars_of(word).as_slice())
}

/// What is said of a model by what its description holds.
pub fn model_guidance(model: &Model) -> (text: Option<&'static str>)
    ensures
        match text {
            Some(text) => guidance(model.description@) == Some(text@),
            None => guidance(model.description@) is None,
        },
{
    proof {
        reveal_strlit("balanced");
        reveal_strlit("general use");
        reveal_strlit("smallest");
        reveal_strlit("fastest");
        reveal_strlit("largest");
    }
    let folded = to_ascii_lower(chars_of(model.description.as_str()).as_slice());
    if mentions(&folded, "balanced") || mentions(&folded, "general use") {
        Some("Recommended")
    } else if mentions(&folded, "smallest") || mentions(&folded, "fastest") {
        Some("Smallest & fastest")
    } else if mentions(&folded, "largest") {
        Some("Largest")
    } else {
        None
    }
}

/// A hexadecimal digit, in either case.
pub open spec fn is_hex_char(ch: char) -> bool {
    is_digit(ch) || ('a' <= ch && ch <= 'f') || ('A' <= ch && ch <= 'F')
}

/// The revision of a model repository: forty hexadecimal digits.
pub open spec fn is_revision(text: Seq<char>) -> bool {
    text.len() == 40 && forall|i: int| 0 <= i < text.len() ==> is_hex_char(#[trigger] text[i])
}

/// The address of the card of a model, by the address of the file: a file at the top of a
/// repository, at a revision.
pub open spec fn model_card(download: Seq<char>) -> Option<Seq<char>> {
    let site = "https://huggingface.co/"@;
    let path = download.skip(site.len() as int);
    let at = first_standing(path, "/resolve/"@, 0);
    let repository = path.take(at);
    let rest = path.skip(at + "/resolve/"@.len());
    let slash = first_at(rest, '/');
    let revision = rest.take(slash);
    let filename = rest.skip(slash + 1);
    if begins_with(download, site) && at < path.len() && split_on(repository, '/').len() == 2
        && slash < rest.len() && is_revision(revision) && filename.len() > 0
        && !filename.contains('/') {
        Some(site + repository + "/blob/"@ + revision + "/README.md"@)
    } else {
        None
    }
}

fn revision(chars: &[char]) -> (answer: bool)
    ensures
        answer == is_revision(chars@),
{
    if chars.len() != 40 {
        return false;
    }
    for i in 0..chars.len()
        invariant
            chars@.len() == 40,
            forall|k: int| 0 <= k < i ==> is_hex_char(#[trigger] chars@[k]),
    {
        let ch = chars[i];
        if !(('0' <= ch && ch <= '9') || ('a' <= ch && ch <= 'f') || ('A' <= ch && ch <= 'F')) {
            assert(!is_hex_char(chars@[i as int]));
            return false;
        }
    }
    true
}

/// The address of the card of a model, by the address of the file.
pub fn hugging_face_model_card_url(download: &str) -> (card: Option<String>)
    ensures
        match card {
            Some(card) => model_card(download@) == Some(card@),
            None => model_card(download@) is None,
        },
{
    let chars = chars_of(download);
    let site = chars_of("https://huggingface.co/");
    let marker = chars_of("/resolve/");
    proof {
        reveal_strlit("/resolve/");
    }
    if !starts_with(chars.as_slice(), site.as_slice()) {
        return None;
    }
    let path = slice_subrange(chars.as_slice(), site.len(), chars.len());
    assert(path@ =~= download@.skip(site@.len() as int));
    let at = find_text(path, marker.as_slice());
    if at >= path.len() {
        return None;
    }
    let repository = slice_subrange(path, 0, at);
    assert(repository@ =~= path@.take(at as int));
    let rest = slice_subrange(path, at + marker.len(), path.len());
    assert(rest@ =~= path@.skip(at + marker@.len()));
    let parts = split_chars(repository, '/');
    assert(crate::text::pieces(parts@).len() == parts@.len());
    if parts.len() != 2 {
        return None;
    }
    let slash = find_char(rest, '/');
    if slash >= rest.len() {
        return None;
    }
    let commit = slice_subrange(rest, 0, slash);
    assert(commit@ =~= rest@.take(slash as int));
    let filename = slice_subrange(rest, slash + 1, rest.len());
    assert(filename@ =~= rest@.skip(slash + 1));
    if !revision(commit) || filename.len() == 0 || has_char(filename, '/') {
        return None;
    }
    Some(
        join5(
            "https://huggingface.co/",
            text_of(repository).as_str(),
            "/blob/",
            text_of(commit).as_str(),
            "/README.md",
        ),
    )
}

/// What an artifact is called.
pub open spec fn kind_text(kind: ArtifactKind) -> Seq<char> {
    match kind {
        ArtifactKind::Runtime => "Runtime"@,
        ArtifactKind::Model => "Checkpoint"@,
        ArtifactKind::Other => "Package file"@,
    }
}

/// What is shown of an artifact.
#[derive(Debug, PartialEq, Eq)]
pub struct ArtifactRow {
    pub label: String,
    pub digest: String,
    pub model_card: Option<String>,
}

/// What is shown of an artifact: its kind, its size, where it goes, its digest, and the card of a
/// model.
pub fn artifact_row(artifact: &Artifact) -> (row: ArtifactRow)
    ensures
        row.label@ == kind_text(artifact.kind) + " · "@ + size_text(artifact.byte_count) + " · "@
            + artifact.destination@,
        row.digest@ == "SHA-256  "@ + artifact.sha256@,
        crate::web::optional(row.model_card) == if artifact.kind == ArtifactKind::Model {
            model_card(artifact.url@)
        } else {
            None
        },
{
    let kind = match artifact.kind {
        ArtifactKind::Runtime => "Runtime",
        ArtifactKind::Model => "Checkpoint",
        ArtifactKind::Other => "Package file",
    };
    let card = if artifact.kind == ArtifactKind::Model {
        hugging_face_model_card_url(artifact.url.as_str())
    } else {
        None
    };
    ArtifactRow {
        label: join5(
            kind,
            " · ",
            format_bytes(artifact.byte_count).as_str(),
            " · ",
            artifact.destination.as_str(),
        ),
        digest: join2("SHA-256  ", artifact.sha256.as_str()),
        model_card: card,
    }
}

/// The bytes that the models among the first `count` artifacts declare together.
pub open spec fn model_bytes(artifacts: Seq<Artifact>, count: int) -> int
    decreases count,
{
    if count <= 0 {
        0
    } else {
        model_bytes(artifacts, count - 1) + if artifacts[count - 1].kind == ArtifactKind::Model {
            artifacts[count - 1].byte_count as int
        } else {
            0
        }
    }
}

/// How much is downloaded for a package.
pub open spec fn download_text(package: Package) -> Seq<char> {
    let count = package.artifacts@.len() as int;
    let total = capped(declared_bytes(package.artifacts@, count));
    let model = capped(model_bytes(package.artifacts@, count));
    if model > 0 {
        size_text(model) + " model • "@ + size_text(total) + " total download"@
    } else {
        size_text(total) + " total download"@
    }
}

/// How much is downloaded for a package.
pub fn download_sizes(package: &Package) -> (text: String)
    ensures
        text@ == download_text(*package),
{
    let mut total: u64 = 0;
    let mut model: u64 = 0;
    for i in 0..package.artifacts.len()
        invariant
            total == capped(declared_bytes(package.artifacts@, i as int)),
            model == capped(model_bytes(package.artifacts@, i as int)),
            declared_bytes(package.artifacts@, i as int) >= 0,
            model_bytes(package.artifacts@, i as int) >= 0,
    {
        total = total.saturating_add(package.artifacts[i].byte_count);
        if package.artifacts[i].kind == ArtifactKind::Model {
            model = model.saturating_add(package.artifacts[i].byte_count);
        }
    }
    if model > 0 {
        join4(
            format_bytes(model).as_str(),
            " model • ",
            format_bytes(total).as_str(),
            " total download",
        )
    } else {
        join2(format_bytes(total).as_str(), " total download")
    }
}

/// The heading of a recipe.
pub fn recipe_heading(recipe: &Recipe) -> (text: String)
    ensures
        text@ == recipe.name@ + " "@ + recipe.version@,
{
    join3(recipe.name.as_str(), " ", recipe.version.as_str())
}

/// Who publishes a recipe, and on which terms.
pub fn publisher_line(recipe: &Recipe) -> (text: String)
    ensures
        text@ == "Publisher: "@ + recipe.publisher.name@ + "  •  License: "@ + recipe.license.name@
            + " ("@ + recipe.license.spdx@ + ")"@,
{
    let head = join5(
        "Publisher: ",
        recipe.publisher.name.as_str(),
        "  •  License: ",
        recipe.license.name.as_str(),
        " (",
    );
    join3(head.as_str(), recipe.license.spdx.as_str(), ")")
}

/// Which version of FishEye a recipe goes with.
pub fn fisheye_line(recipe: &Recipe) -> (text: String)
    ensures
        text@ == "Optional FishEye integration: version "@ + recipe.minimum_fisheye_version@
            + " or newer"@,
{
    join3(
        "Optional FishEye integration: version ",
        recipe.minimum_fisheye_version.as_str(),
        " or newer",
    )
}

/// The heading of a package.
pub fn package_heading(model: &Model, package: &Package) -> (text: String)
    ensures
        text@ == model.name@ + " · "@ + package.platform@,
{
    join3(model.name.as_str(), " · ", package.platform.as_str())
}

/// A size is written in bytes below 1024, and from there on in the greatest of KiB, MiB and GiB
/// that it reaches, with one decimal.
pub proof fn sizes_are_written_in_their_unit(bytes: u64)
    ensures
        bytes < 1024 ==> size_text(bytes) == decimal(bytes as nat) + " B"@,
        1024 <= bytes < 1048576 ==> size_text(bytes) == in_unit(bytes, 1024, "KiB"@),
        1048576 <= bytes < 1073741824 ==> size_text(bytes) == in_unit(bytes, 1048576, "MiB"@),
        1073741824 <= bytes ==> size_text(bytes) == in_unit(bytes, 1073741824, "GiB"@),
{
}

/// A size of whole and tenths of a unit is written as such.
pub proof fn whole_tenths_are_written_as_they_are(
    whole: u64,
    tenth: u64,
    unit: u64,
    bytes: u64,
    suffix: Seq<char>,
)
    requires
        unit > 0,
        tenth < 10,
        10 * bytes == (10 * whole + tenth) * unit,
        10 * bytes + unit <= u64::MAX,
    ensures
        in_unit(bytes, unit, suffix) == decimal(whole as nat) + seq!['.'] + decimal(tenth as nat)
            + seq![' '] + suffix,
{
    reveal_strlit(".");
    reveal_strlit(" ");
    assert("."@ =~= seq!['.']);
    assert(" "@ =~= seq![' ']);
    let count = 10 * whole + tenth;
    let scaled = bytes * 10 + unit / 2;
    assert(scaled / unit as int == count) by (nonlinear_arith)
        requires
            scaled == count * unit + unit / 2,
            unit > 0,
    ;
    assert(count / 10 == whole && count % 10 == tenth);
}

/// Progress in thousandths is that of the bytes that have come, rounded down: nothing of nothing,
/// and all once all have come.
pub proof fn progress_is_rounded_down(progress: InstallProgress)
    ensures
        progress.total_bytes == 0 ==> permille(progress) == 0,
        0 < progress.total_bytes && progress.completed_bytes * 1000 <= u64::MAX ==> {
            &&& progress.completed_bytes >= progress.total_bytes ==> permille(progress) == 1000
            &&& progress.completed_bytes < progress.total_bytes ==> permille(progress)
                * progress.total_bytes <= 1000 * progress.completed_bytes < (permille(progress) + 1)
                * progress.total_bytes
        },
        0 <= permille(progress) <= 1000,
{
    let total = progress.total_bytes as int;
    let done = progress.completed_bytes as int;
    if total > 0 {
        let share = capped(done * 1000) as int / total;
        assert(share >= 0) by (nonlinear_arith)
            requires
                share == capped(done * 1000) as int / total,
                total > 0,
                capped(done * 1000) as int >= 0,
        ;
        if done * 1000 <= u64::MAX {
            assert(share * total <= done * 1000 < (share + 1) * total) by (nonlinear_arith)
                requires
                    share == (done * 1000) / total,
                    total > 0,
            ;
            if done >= total {
                assert(share >= 1000) by (nonlinear_arith)
                    requires
                        done * 1000 < (share + 1) * total,
                        done >= total,
                        total > 0,
                ;
            } else {
                assert(share <= 1000) by (nonlinear_arith)
                    requires
                        share * total <= done * 1000,
                        done < total,
                        total > 0,
                ;
            }
        }
    }
}

/// Each phase has its words; a download is said to be of the runtime, of the model or of the
/// package.
pub proof fn phases_are_said_in_words(phase: InstallPhase, kind: Option<ArtifactKind>)
    ensures
        phase == InstallPhase::Downloading ==> phase_text(phase, kind) == if kind == Some(
            ArtifactKind::Runtime,
        ) {
            "Downloading runtime"@
        } else if kind == Some(ArtifactKind::Model) {
            "Downloading model"@
        } else {
            "Downloading package"@
        },
        phase == InstallPhase::Verifying ==> phase_text(phase, kind) == "Verifying checksum"@,
        phase == InstallPhase::Extracting ==> phase_text(phase, kind)
            == "Preparing portable package"@,
        phase == InstallPhase::ValidatingUci ==> phase_text(phase, kind)
            == "Testing UCI compatibility"@,
        phase == InstallPhase::Activating ==> phase_text(phase, kind) == "Saving portable package"@,
        phase == InstallPhase::Ready ==> phase_text(phase, kind) == "UCI engine ready"@,
{
}

/// A description that speaks of a balanced model, in whatever case, recommends it; else one that
/// speaks of the smallest or fastest says that; else one that speaks of the largest says that.
pub proof fn descriptions_guide(description: Seq<char>)
    ensures
        ({
            let text = ascii_lower(description);
            let balanced = occurs(text, "balanced"@) || occurs(text, "general use"@);
            let small = occurs(text, "smallest"@) || occurs(text, "fastest"@);
            let large = occurs(text, "largest"@);
            &&& guidance(description) == Some("Recommended"@) <==> balanced
            &&& guidance(description) == Some("Smallest & fastest"@) <==> !balanced && small
            &&& guidance(description) == Some("Largest"@) <==> !balanced && !small && large
            &&& guidance(description) is None <==> !balanced && !small && !large
        }),
{
    reveal_strlit("Recommended");
    reveal_strlit("Smallest & fastest");
    reveal_strlit("Largest");
    assert("Recommended"@.len() == 11 && "Smallest & fastest"@.len() == 18 && "Largest"@.len()
        == 7);
}

/// A revision is forty hexadecimal digits in either case.
pub proof fn revisions_are_forty_digits(text: Seq<char>)
    ensures
        is_revision(text) <==> text.len() == 40 && forall|i: int|
            0 <= i < 40 ==> {
                let code = (#[trigger] text[i]) as int;
                48 <= code <= 57 || 65 <= code <= 70 || 97 <= code <= 102
            },
{
    if is_revision(text) {
        assert forall|i: int| 0 <= i < 40 implies {
            let code = (#[trigger] text[i]) as int;
            48 <= code <= 57 || 65 <= code <= 70 || 97 <= code <= 102
        } by {
            assert(is_hex_char(text[i]));
        }
    }
}

proof fn lemma_resolve_stands(owner: Seq<char>, name: Seq<char>, rest: Seq<char>)
    requires
        !owner.contains('/'),
        !name.contains('/'),
        name != "resolve"@,
    ensures
        first_standing((owner + seq!['/'] + name) + "/resolve/"@ + rest, "/resolve/"@, 0) == (owner
            + seq!['/'] + name).len(),
{
    reveal_strlit("/resolve/");
    let word = "/resolve/"@;
    let repository = owner + seq!['/'] + name;
    let path = repository + word + rest;
    let at = repository.len() as int;
    assert(path.subrange(at, at + 9) =~= word);
    assert(stands_at(path, word, at));
    assert(path.subrange(owner.len() as int, (owner.len() + 1 + name.len() + 1) as int) =~= seq!['/']
        + name + seq!['/']);
    assert forall|k: int| 0 <= k < at implies !stands_at(path, word, k) by {
        if stands_at(path, word, k) {
            assert(path.subrange(k, k + 9)[0] == path[k]);
            assert(path[k] == '/');
            if k < owner.len() {
                assert(owner.contains(owner[k]));
            } else if k > owner.len() {
                assert(name.contains(name[k - owner.len() - 1]));
            } else {
                lemma_named_resolve(path, owner, name, k);
            }
        }
    }
    lemma_first_standing(path, word, 0);
}

proof fn lemma_two_pieces(owner: Seq<char>, name: Seq<char>)
    requires
        !owner.contains('/'),
        !name.contains('/'),
    ensures
        split_on(owner + seq!['/'] + name, '/') == seq![owner, name],
{
    joined_texts_fall_apart_again(seq![owner, name], '/');
    reveal_with_fuel(joined_with, 3);
    assert(seq![owner, name].skip(1) =~= seq![name]);
    assert(joined_with(seq![owner, name], '/') =~= owner + seq!['/'] + name);
}

proof fn lemma_revision_ends(revision: Seq<char>, file: Seq<char>)
    requires
        is_revision(revision),
    ensures
        first_at(revision + seq!['/'] + file, '/') == 40,
        (revision + seq!['/'] + file).take(40) == revision,
        (revision + seq!['/'] + file).skip(41) == file,
{
    let rest = revision + seq!['/'] + file;
    assert forall|i: int| 0 <= i < 40 implies rest[i] != '/' by {
        assert(is_hex_char(revision[i]));
        assert(rest[i] == revision[i]);
    }
    lemma_first_at_unique(rest, '/', 40);
    assert(rest.take(40) =~= revision);
    assert(rest.skip(41) =~= file);
}

/// A file at the top of a repository, at a revision, has the card of that repository at that
/// revision.
pub proof fn model_files_have_the_card_of_their_repository(
    owner: Seq<char>,
    name: Seq<char>,
    revision: Seq<char>,
    file: Seq<char>,
)
    requires
        !owner.contains('/'),
        !name.contains('/'),
        name != "resolve"@,
        is_revision(revision),
        file.len() > 0,
        !file.contains('/'),
    ensures
        model_card(
            "https://huggingface.co/"@ + (owner + seq!['/'] + name) + "/resolve/"@ + (revision
                + seq!['/'] + file),
        ) == Some(
            "https://huggingface.co/"@ + (owner + seq!['/'] + name) + "/blob/"@ + revision
                + "/README.md"@,
        ),
{
    let site = "https://huggingface.co/"@;
    let word = "/resolve/"@;
    let repository = owner + seq!['/'] + name;
    let rest = revision + seq!['/'] + file;
    let path = repository + word + rest;
    let download = site + repository + word + rest;
    assert(download =~= site + path);
    assert(download.take(site.len() as int) =~= site);
    assert(download.skip(site.len() as int) =~= path);
    lemma_resolve_stands(owner, name, rest);
    let at = repository.len() as int;
    assert(path.take(at) =~= repository);
    assert(path.skip(at + word.len()) =~= rest);
    lemma_two_pieces(owner, name);
    lemma_revision_ends(revision, file);
    assert(path.len() > at) by {
        assert(rest.len() > 0);
    }
}

proof fn lemma_named_resolve(path: Seq<char>, owner: Seq<char>, name: Seq<char>, k: int)
    requires
        !name.contains('/'),
        name != "resolve"@,
        path.len() >= owner.len() + 1 + name.len() + 1,
        path.subrange(owner.len() as int, (owner.len() + 1 + name.len() + 1) as int) == seq!['/']
            + name + seq!['/'],
        k == owner.len(),
    ensures
        !stands_at(path, "/resolve/"@, k),
{
    reveal_strlit("/resolve/");
    reveal_strlit("resolve");
    let word = "/resolve/"@;
    if stands_at(path, word, k) {
        let window = path.subrange(k, k + 9);
        let here = path.subrange(k, k + 2 + name.len());
        if name.len() < 7 {
            let last = name.len() + 1int;
            assert(here[last] == '/');
            assert(window[last] == here[last]);
            assert(word[last] != '/');
        } else if name.len() > 7 {
            assert(window[8] == '/');
            assert(here[8] == window[8]);
            assert(here[8] == name[7]);
            assert(name.contains(name[7]));
        } else {
            assert forall|i: int| 0 <= i < 7 implies name[i] == "resolve"@[i] by {
                assert(here[i + 1] == name[i]);
                assert(window[i + 1] == here[i + 1]);
                assert(word[i + 1] == "resolve"@[i]);
            }
            assert(name =~= "resolve"@);
        }
    }
}

/// An address that is not on the site of the models has no card.
pub proof fn other_addresses_have_no_card(download: Seq<char>)
    requires
        !begins_with(download, "https://huggingface.co/"@),
    ensures
        model_card(download) is None,
{
}

/// The bytes of models are those of the artifacts that are models, added up.
pub proof fn bytes_of_models_add_up(artifacts: Seq<Artifact>, count: int)
    requires
        0 <= count < artifacts.len(),
    ensures
        model_bytes(artifacts, 0) == 0,
        artifacts[count].kind == ArtifactKind::Model ==> model_bytes(artifacts, count + 1)
            == model_bytes(artifacts, count) + artifacts[count].byte_count,
        artifacts[count].kind != ArtifactKind::Model ==> model_bytes(artifacts, count + 1)
            == model_bytes(artifacts, count),
{
}

/// What an artifact is for is said in words.
pub proof fn kinds_are_said_in_words(kind: ArtifactKind)
    ensures
        kind == ArtifactKind::Runtime ==> kind_text(kind) == "Runtime"@,
        kind == ArtifactKind::Model ==> kind_text(kind) == "Checkpoint"@,
        kind == ArtifactKind::Other ==> kind_text(kind) == "Package file"@,
{
}

/// Only a file at the top of a repository of an owner, at a revision, has a card, and it is that of
/// the repository at that revision.
pub proof fn only_model_files_have_a_card(download: Seq<char>)
    ensures
        model_card(download) matches Some(card) ==> exists|
            owner: Seq<char>,
            name: Seq<char>,
            revision: Seq<char>,
            file: Seq<char>,
        |
            {
                &&& is_revision(revision) && file.len() > 0 && !file.contains('/')
                &&& !owner.contains('/') && !name.contains('/')
                &&& download == #[trigger] (
                "https://huggingface.co/"@ + (owner + seq!['/'] + name) + "/resolve/"@ + (revision
                    + seq!['/'] + file))
                &&& card == "https://huggingface.co/"@ + (owner + seq!['/'] + name) + "/blob/"@
                    + revision + "/README.md"@
            },
{
    let site = "https://huggingface.co/"@;
    let word = "/resolve/"@;
    let path = download.skip(site.len() as int);
    let at = first_standing(path, word, 0);
    let repository = path.take(at);
    let rest = path.skip(at + word.len());
    let slash = first_at(rest, '/');
    if model_card(download) is Some {
        reveal_strlit("/resolve/");
        lemma_first_standing(path, word, 0);
        assert(stands_at(path, word, at));
        lemma_first_at(rest, '/');
        let revision = rest.take(slash);
        let file = rest.skip(slash + 1);
        let parts = split_on(repository, '/');
        pieces_make_the_text(repository, '/');
        let owner = parts[0];
        let name = parts[1];
        assert(parts =~= seq![owner, name]);
        reveal_with_fuel(joined_with, 3);
        assert(seq![owner, name].skip(1) =~= seq![name]);
        assert(repository =~= owner + seq!['/'] + name);
        assert(rest =~= revision + seq!['/'] + file);
        assert(path =~= repository + word + rest) by {
            assert(path.subrange(at, at + word.len()) == word);
            assert forall|i: int| 0 <= i < path.len() implies path[i] == (repository + word
                + rest)[i] by {
                if at <= i < at + word.len() {
                    assert(path.subrange(at, at + word.len())[i - at] == path[i]);
                }
            }
        }
        assert(download =~= site + path);
        assert(download =~= site + (owner + seq!['/'] + name) + word + (revision + seq!['/']
            + file));
    }
}

} // verus!
