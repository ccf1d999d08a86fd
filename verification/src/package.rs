//! The contents of an installed package: which files it may hold, and the digest over all of them.

use vstd::prelude::*;
use vstd::bytes::{lemma_auto_spec_u64_to_from_le_bytes, spec_u64_to_le_bytes, u64_to_le_bytes};
use vstd::utf8::{encode_utf8, encode_utf8_decode_utf8, is_ascii_chars_encode_utf8};
use crate::archive::slashed_text;
use crate::digest::{hex, hexadecimal_tells_bytes_apart, sha256, told_apart, Digest};
use crate::error::{fails_with, Error, ErrorView};
use crate::extract::{part_names, slashed, NameCase, MAX_ARCHIVE_ENTRY_BYTES, MAX_EXTRACTED_BYTES};
use crate::order::{text_less, TextMap};
use crate::place::{parts_view, texts_view, Part, PartView};
use crate::rules::{is_digest, is_lower_hex};
use crate::text::{join3, join5, lowercase, same_but_ascii_case, same_text, to_lower};

verus! {

/// The file of an installation that describes it and does not count as part of it.
pub const INSTALL_RECORD_FILE: &'static str = "uci-grabber-install.json";

/// The most files and directories of an installed package, its description included.
pub const MAX_PACKAGE_ENTRIES: u64 = 40_001;

/// What a directory entry is.
#[derive(Clone, Copy, Debug, PartialEq, Eq, Structural)]
pub enum FileKind {
    Directory,
    File,
    Other,
}

/// What is to be done with a directory entry.
#[derive(Clone, Debug, PartialEq, Eq)]
pub enum Visit {
    /// Go through the directory.
    Enter,
    /// Leave the file out.
    Skip,
    /// Take the length of the file, which has this path.
    Measure(String),
}

/// A [`Visit`] with its path as a sequence of characters.
pub enum VisitView {
    Enter,
    Skip,
    Measure(Seq<char>),
}

impl View for Visit {
    type V = VisitView;

    open spec fn view(&self) -> VisitView {
        match *self {
            Visit::Enter => VisitView::Enter,
            Visit::Skip => VisitView::Skip,
            Visit::Measure(path) => VisitView::Measure(path@),
        }
    }
}

/// The path that components make, with slashes between them, where all of them are names and there
/// is at least one.
pub open spec fn portable_path(parts: Seq<PartView>) -> Option<Seq<char>> {
    if parts.len() > 0 && forall|i: int| 0 <= i < parts.len() ==> (#[trigger] parts[i]) is Normal {
        Some(slashed(part_names(parts)))
    } else {
        None
    }
}

/// The path that components make; `shown` is the text of the path.
pub fn portable_relative_path(parts: &Vec<Part>, shown: &str) -> (outcome: Result<String, Error>)
    ensures
        match portable_path(parts_view(parts@)) {
            Some(path) => outcome matches Ok(found) && found@ == path,
            None => fails_with(outcome, ErrorView::UnsafeArchiveEntry(shown@)),
        },
{
    let ghost view = parts_view(parts@);
    let mut names: Vec<String> = Vec::new();
    for i in 0..parts.len()
        invariant
            view == parts_view(parts@),
            texts_view(names@) == part_names(view).take(i as int),
            forall|k: int| 0 <= k < i ==> (#[trigger] view[k]) is Normal,
    {
        assert(view[i as int] == parts@[i as int]@);
        match &parts[i] {
            Part::Normal(name) => {
                let ghost before = names@;
                names.push(name.clone());
                proof {
                    assert(texts_view(names@) =~= texts_view(before).push(name@));
                    assert(part_names(view).take(i + 1) =~= part_names(view).take(i as int).push(
                        part_names(view)[i as int],
                    ));
                }
            },
            _ => {
                assert(!(view[i as int] is Normal));
                return Err(Error::UnsafeArchiveEntry(shown.to_owned()));
            },
        }
    }
    assert(part_names(view).take(parts@.len() as int) =~= part_names(view));
    if names.len() == 0 {
        Err(Error::UnsafeArchiveEntry(shown.to_owned()))
    } else {
        Ok(slashed_text(&names))
    }
}

/// What a package in the middle of being gone through has come to.
#[verifier::ext_equal]
pub struct WalkView {
    /// Whether case counts in names.
    pub case: NameCase,
    /// The file that is left out.
    pub excluded: Seq<char>,
    /// The paths seen, by what stands for them.
    pub seen: Map<Seq<char>, Seq<char>>,
    /// How many entries were seen.
    pub entries: u64,
    /// The files that count, with their lengths.
    pub files: Map<Seq<char>, u64>,
    /// The bytes of those files.
    pub bytes: u64,
}

/// What stands for a path of a package.
pub open spec fn entry_key(path: Seq<char>, case: NameCase) -> Seq<char> {
    match case {
        NameCase::Folded => lowercase(path),
        NameCase::Distinct => path,
    }
}

impl WalkView {
    /// A package of which nothing was seen.
    pub open spec fn fresh(case: NameCase, excluded: Seq<char>) -> WalkView {
        WalkView {
            case,
            excluded,
            seen: Map::empty(),
            entries: 0,
            files: Map::empty(),
            bytes: 0,
        }
    }

    /// The package once an entry was seen, and what is to be done with it.
    pub open spec fn visit(self, parts: Seq<PartView>, shown: Seq<char>, kind: FileKind) -> Result<
        (WalkView, VisitView),
        ErrorView,
    > {
        match portable_path(parts) {
            None => Err(ErrorView::UnsafeArchiveEntry(shown)),
            Some(path) => {
                let key = entry_key(path, self.case);
                let next = WalkView {
                    seen: self.seen.insert(key, path),
                    entries: (self.entries + 1) as u64,
                    ..self
                };
                if self.seen.dom().contains(key) {
                    Err(
                        ErrorView::UnsafeArchiveEntry(
                            "package path collision: `"@ + self.seen[key] + "` and `"@ + path
                                + "`"@,
                        ),
                    )
                } else if self.entries + 1 > MAX_PACKAGE_ENTRIES {
                    Err(
                        ErrorView::ArchiveLimit("installed package has more than 40001 entries"@),
                    )
                } else {
                    match kind {
                        FileKind::Directory => Ok((next, VisitView::Enter)),
                        FileKind::File => if path == self.excluded {
                            Ok((next, VisitView::Skip))
                        } else {
                            Ok((next, VisitView::Measure(path)))
                        },
                        FileKind::Other => Err(ErrorView::UnsafeArchiveEntry(path)),
                    }
                }
            },
        }
    }

    /// The package once the length of a file is known.
    pub open spec fn measure(self, path: Seq<char>, length: u64) -> Result<WalkView, ErrorView> {
        if length > MAX_ARCHIVE_ENTRY_BYTES {
            Err(
                ErrorView::ArchiveLimit(
                    "installed file `"@ + path + "` exceeds 1073741824 bytes"@,
                ),
            )
        } else if self.bytes + length > MAX_EXTRACTED_BYTES {
            Err(ErrorView::ArchiveLimit("installed package exceeds 2147483648 bytes"@))
        } else {
            Ok(
                WalkView {
                    files: self.files.insert(path, length),
                    bytes: (self.bytes + length) as u64,
                    ..self
                },
            )
        }
    }
}

/// A package in the middle of being gone through.
pub struct PackageWalk {
    case: NameCase,
    excluded: String,
    seen: TextMap<String>,
    entries: u64,
    files: TextMap<u64>,
    bytes: u64,
}

impl View for PackageWalk {
    type V = WalkView;

    closed spec fn view(&self) -> WalkView {
        WalkView {
            case: self.case,
            excluded: self.excluded@,
            seen: crate::extract::spellings(self.seen@),
            entries: self.entries,
            files: self.files@,
            bytes: self.bytes,
        }
    }
}

/// A file of a package.
#[derive(Debug, PartialEq, Eq)]
pub struct PackageFile {
    pub path: String,
    pub length: u64,
}

impl PackageWalk {
    pub closed spec fn wf(&self) -> bool {
        &&& self.seen.wf()
        &&& self.files.wf()
        &&& self.entries <= MAX_PACKAGE_ENTRIES
        &&& self.bytes <= MAX_EXTRACTED_BYTES
    }

    /// Begins to go through a package; the file `excluded` is left out.
    pub fn new(case: NameCase, excluded: &str) -> (walk: PackageWalk)
        ensures
            walk.wf(),
            walk@ == WalkView::fresh(case, excluded@),
    {
        let walk = PackageWalk {
            case,
            excluded: excluded.to_owned(),
            seen: TextMap::new(),
            entries: 0,
            files: TextMap::new(),
            bytes: 0,
        };
        assert(walk@.seen =~= Map::empty());
        walk
    }

    /// Takes note of an entry of the package, by its path below the package; an entry that must not
    /// be there changes nothing.
    pub fn visit(&mut self, parts: &Vec<Part>, shown: &str, kind: FileKind) -> (outcome: Result<
        Visit,
        Error,
    >)
        requires
            old(self).wf(),
        ensures
            final(self).wf(),
            match old(self)@.visit(parts_view(parts@), shown@, kind) {
                Ok((next, visit)) => {
                    &&& outcome matches Ok(found) && found@ == visit
                    &&& final(self)@ == next
                },
                Err(error) => fails_with(outcome, error) && final(self)@ == old(self)@,
            },
    {
        let path = match portable_relative_path(parts, shown) {
            Ok(path) => path,
            Err(error) => {
                return Err(error);
            },
        };
        let key = match self.case {
            NameCase::Folded => to_lower(path.as_str()),
            NameCase::Distinct => path.clone(),
        };
        match self.seen.get(key.as_str()) {
            Some(previous) => {
                return Err(
                    Error::UnsafeArchiveEntry(
                        join5(
                            "package path collision: `",
                            previous.as_str(),
                            "` and `",
                            path.as_str(),
                            "`",
                        ),
                    ),
                );
            },
            None => {},
        }
        if self.entries + 1 > MAX_PACKAGE_ENTRIES {
            return Err(
                Error::ArchiveLimit("installed package has more than 40001 entries".to_owned()),
            );
        }
        let visit = match kind {
            FileKind::Directory => Visit::Enter,
            FileKind::File => if same_text(path.as_str(), self.excluded.as_str()) {
                Visit::Skip
            } else {
                Visit::Measure(path.clone())
            },
            FileKind::Other => {
                return Err(Error::UnsafeArchiveEntry(path));
            },
        };
        let ghost before = self.seen@;
        self.seen.insert(key, path);
        self.entries = self.entries + 1;
        proof {
            assert(self@.seen =~= crate::extract::spellings(before).insert(key@, path@));
        }
        Ok(visit)
    }

    /// Counts a file of the package; one that is too much changes nothing.
    pub fn measure(&mut self, path: String, length: u64) -> (outcome: Result<(), Error>)
        requires
            old(self).wf(),
        ensures
            final(self).wf(),
            match old(self)@.measure(path@, length) {
                Ok(next) => outcome is Ok && final(self)@ == next,
                Err(error) => fails_with(outcome, error) && final(self)@ == old(self)@,
            },
    {
        if length > MAX_ARCHIVE_ENTRY_BYTES {
            return Err(
                Error::ArchiveLimit(
                    join3("installed file `", path.as_str(), "` exceeds 1073741824 bytes"),
                ),
            );
        }
        if self.bytes + length > MAX_EXTRACTED_BYTES {
            return Err(
                Error::ArchiveLimit("installed package exceeds 2147483648 bytes".to_owned()),
            );
        }
        self.files.insert(path, length);
        self.bytes = self.bytes + length;
        Ok(())
    }

    /// The files that count, in the order of their paths.
    pub fn listing(&self) -> (files: Vec<PackageFile>)
        requires
            self.wf(),
        ensures
            forall|i: int, j: int|
                0 <= i < j < files@.len() ==> text_less(
                    (#[trigger] files@[i]).path@,
                    (#[trigger] files@[j]).path@,
                ),
            forall|i: int|
                0 <= i < files@.len() ==> self@.files.dom().contains(
                    (#[trigger] files@[i]).path@,
                ) && files@[i].length == self@.files[files@[i].path@],
            forall|path: Seq<char>| #[trigger]
                self@.files.dom().contains(path) ==> exists|i: int|
                    0 <= i < files@.len() && (#[trigger] files@[i]).path@ == path,
    {
        let mut files: Vec<PackageFile> = Vec::new();
        let ghost keys = self.files.in_order();
        let count = self.files.len();
        for i in 0..count
            invariant
                self.wf(),
                keys == self.files.in_order(),
                count == keys.len(),
                files@.len() == i,
                forall|k: int|
                    0 <= k < i ==> (#[trigger] files@[k]).path@ == keys[k] && files@[k].length
                        == self.files@[keys[k]],
        {
            let (path, length) = self.files.at(i);
            files.push(PackageFile { path: path.clone(), length: *length });
        }
        proof {
            self.files.lemma_in_order();
            assert forall|path: Seq<char>| #[trigger] self@.files.dom().contains(path) implies exists|
                i: int,
            | 0 <= i < files@.len() && (#[trigger] files@[i]).path@ == path by {
                let i = keys.index_of(path);
                assert(files@[i].path@ == path);
            }
        }
        files
    }
}

/// A file of a package with the digest of its contents.
#[derive(Debug, PartialEq, Eq)]
pub struct HashedFile {
    pub path: String,
    pub length: u64,
    pub sha256: String,
}

/// A [`HashedFile`] with its texts as sequences.
#[verifier::ext_equal]
pub struct HashedView {
    pub path: Seq<char>,
    pub length: u64,
    pub sha256: Seq<char>,
}

impl View for HashedFile {
    type V = HashedView;

    open spec fn view(&self) -> HashedView {
        HashedView { path: self.path@, length: self.length, sha256: self.sha256@ }
    }
}

/// The files of a list.
pub open spec fn hashed_view(files: Seq<HashedFile>) -> Seq<HashedView> {
    files.map_values(|file: HashedFile| file@)
}

/// A file of a package with its contents.
#[verifier::ext_equal]
pub struct ContentView {
    pub path: Seq<char>,
    pub bytes: Seq<u8>,
}

/// A file with the digest of its contents in their place.
pub open spec fn hashed_file(file: ContentView) -> HashedView {
    HashedView {
        path: file.path,
        length: file.bytes.len() as u64,
        sha256: hex(sha256(file.bytes)),
    }
}

/// Files with the digests of their contents in their places.
pub open spec fn hashed_files(files: Seq<ContentView>) -> Seq<HashedView> {
    files.map_values(|file: ContentView| hashed_file(file))
}

/// What one file adds to the digest of its package: the length of its path, the path, its length
/// and the digest of its contents.
pub open spec fn file_bytes(file: HashedView) -> Seq<u8> {
    spec_u64_to_le_bytes(encode_utf8(file.path).len() as u64) + encode_utf8(file.path)
        + spec_u64_to_le_bytes(file.length) + encode_utf8(file.sha256)
}

/// What the digest of a package is taken of.
pub open spec fn package_bytes(files: Seq<HashedView>) -> Seq<u8>
    decreases files.len(),
{
    if files.len() == 0 {
        Seq::empty()
    } else {
        package_bytes(files.drop_last()) + file_bytes(files.last())
    }
}

/// The bytes of the first `count` files.
pub open spec fn total_length(files: Seq<HashedView>, count: int) -> int
    decreases count,
{
    if count <= 0 {
        0
    } else {
        total_length(files, count - 1) + files[count - 1].length
    }
}

/// The digest over the files of a package, with their number and their bytes.
#[derive(Clone, Debug, PartialEq, Eq)]
pub struct PackageSnapshot {
    pub sha256: String,
    pub file_count: u64,
    pub byte_count: u64,
}

/// A [`PackageSnapshot`] with its digest as a sequence of characters.
#[verifier::ext_equal]
pub struct SnapshotView {
    pub sha256: Seq<char>,
    pub file_count: u64,
    pub byte_count: u64,
}

impl View for PackageSnapshot {
    type V = SnapshotView;

    open spec fn view(&self) -> SnapshotView {
        SnapshotView {
            sha256: self.sha256@,
            file_count: self.file_count,
            byte_count: self.byte_count,
        }
    }
}

/// The snapshot of files.
pub open spec fn snapshot_of(files: Seq<HashedView>) -> SnapshotView {
    SnapshotView {
        sha256: hex(sha256(package_bytes(files))),
        file_count: files.len() as u64,
        byte_count: capped(total_length(files, files.len() as int)),
    }
}

/// A number, or the greatest of 64 bits where it is beyond that.
pub open spec fn capped(number: int) -> u64 {
    if number > u64::MAX {
        u64::MAX
    } else {
        number as u64
    }
}

/// Takes the snapshot of the files of a package, which stand in the order of their paths.
pub fn package_snapshot(files: &Vec<HashedFile>) -> (snapshot: PackageSnapshot)
    ensures
        snapshot@ == snapshot_of(hashed_view(files@)),
        is_digest(snapshot.sha256@),
{
    let ghost all = hashed_view(files@);
    let mut digest = Digest::new();
    let mut bytes: u64 = 0;
    assert(all.take(0) =~= Seq::empty());
    for i in 0..files.len()
        invariant
            all == hashed_view(files@),
            digest@ == package_bytes(all.take(i as int)),
            bytes == capped(total_length(all, i as int)),
            total_length(all, i as int) >= 0,
    {
        let file = &files[i];
        assert(all[i as int] == file@);
        let ghost before = digest@;
        let path_bytes = file.path.as_str().as_bytes();
        digest.update(u64_to_le_bytes(path_bytes.len() as u64).as_slice());
        digest.update(path_bytes);
        digest.update(u64_to_le_bytes(file.length).as_slice());
        digest.update(file.sha256.as_str().as_bytes());
        proof {
            let longer = all.take(i + 1);
            assert(longer.drop_last() =~= all.take(i as int));
            assert(longer.last() == file@);
            assert(digest@ =~= before + file_bytes(file@));
        }
        bytes = bytes.saturating_add(file.length);
    }
    assert(all.take(files@.len() as int) =~= all);
    PackageSnapshot { sha256: digest.finish(), file_count: files.len() as u64, byte_count: bytes }
}

proof fn lemma_first_file(files: Seq<HashedView>)
    requires
        files.len() > 0,
    ensures
        package_bytes(files) == file_bytes(files[0]) + package_bytes(files.skip(1)),
    decreases files.len(),
{
    if files.len() == 1 {
        assert(files.drop_last() =~= Seq::empty());
        assert(files.skip(1) =~= Seq::empty());
        assert(package_bytes(files.drop_last()) == Seq::<u8>::empty());
        assert(package_bytes(files) =~= file_bytes(files[0]) + package_bytes(files.skip(1)));
    } else {
        lemma_first_file(files.drop_last());
        assert(files.drop_last().skip(1) =~= files.skip(1).drop_last());
        assert(files.skip(1).last() == files.last());
        assert(package_bytes(files) =~= file_bytes(files[0]) + package_bytes(files.skip(1)));
    }
}

/// Whether a file is written out in a way that can be told from any other: its path fits the field
/// for its length, and its digest is one.
pub open spec fn is_writable(file: HashedView) -> bool {
    encode_utf8(file.path).len() <= u64::MAX && is_digest(file.sha256)
}

proof fn lemma_digest_bytes(digest: Seq<char>)
    requires
        is_digest(digest),
    ensures
        encode_utf8(digest).len() == 64,
{
    assert forall|i: int| 0 <= i < digest.len() implies '\0' <= #[trigger] digest[i] <= '\u{7f}' by {
        assert(is_lower_hex(digest[i]));
    }
    is_ascii_chars_encode_utf8(digest);
}

/// The first of two files that begin the same bytes is the same.
proof fn lemma_first_is_same(one: HashedView, rest: Seq<u8>, other: HashedView, others: Seq<u8>)
    requires
        is_writable(one),
        is_writable(other),
        file_bytes(one) + rest == file_bytes(other) + others,
    ensures
        one == other,
        rest == others,
{
    lemma_auto_spec_u64_to_from_le_bytes();
    lemma_digest_bytes(one.sha256);
    lemma_digest_bytes(other.sha256);
    encode_utf8_decode_utf8(one.path);
    encode_utf8_decode_utf8(other.path);
    encode_utf8_decode_utf8(one.sha256);
    encode_utf8_decode_utf8(other.sha256);
    let whole = file_bytes(one) + rest;
    let again = file_bytes(other) + others;
    let size = encode_utf8(one.path).len() as int;
    let length_one = spec_u64_to_le_bytes(size as u64);
    let length_other = spec_u64_to_le_bytes(encode_utf8(other.path).len() as u64);
    assert(whole.take(8) =~= length_one);
    assert(again.take(8) =~= length_other);
    assert(size == encode_utf8(other.path).len());
    assert(whole.subrange(8, 8 + size) =~= encode_utf8(one.path));
    assert(again.subrange(8, 8 + size) =~= encode_utf8(other.path));
    assert(whole.subrange(8 + size, 16 + size) =~= spec_u64_to_le_bytes(one.length));
    assert(again.subrange(8 + size, 16 + size) =~= spec_u64_to_le_bytes(other.length));
    assert(whole.subrange(16 + size, 80 + size) =~= encode_utf8(one.sha256));
    assert(again.subrange(16 + size, 80 + size) =~= encode_utf8(other.sha256));
    assert(whole.skip(80 + size) =~= rest);
    assert(again.skip(80 + size) =~= others);
}

/// The digest of a package is taken of bytes that no other files give: a file that is added,
/// removed, renamed or changed changes them.
pub proof fn package_bytes_tell_packages_apart(one: Seq<HashedView>, other: Seq<HashedView>)
    requires
        forall|i: int| 0 <= i < one.len() ==> is_writable(#[trigger] one[i]),
        forall|i: int| 0 <= i < other.len() ==> is_writable(#[trigger] other[i]),
        package_bytes(one) == package_bytes(other),
    ensures
        one == other,
    decreases one.len(),
{
    lemma_auto_spec_u64_to_from_le_bytes();
    if one.len() > 0 {
        lemma_first_file(one);
    }
    if other.len() > 0 {
        lemma_first_file(other);
    }
    if one.len() == 0 && other.len() > 0 {
        assert(file_bytes(other[0]).len() >= 8);
        assert(false);
    } else if one.len() > 0 && other.len() == 0 {
        assert(file_bytes(one[0]).len() >= 8);
        assert(false);
    } else if one.len() > 0 {
        lemma_first_is_same(
            one[0],
            package_bytes(one.skip(1)),
            other[0],
            package_bytes(other.skip(1)),
        );
        package_bytes_tell_packages_apart(one.skip(1), other.skip(1));
        assert(one =~= seq![one[0]] + one.skip(1));
        assert(other =~= seq![other[0]] + other.skip(1));
    } else {
        assert(one =~= other);
    }
}

/// Whether SHA-256 tells two packages apart, where they differ: what is hashed of all files, and the
/// contents of the files at each position.
pub open spec fn packages_told_apart(one: Seq<ContentView>, other: Seq<ContentView>) -> bool {
    &&& told_apart(package_bytes(hashed_files(one)), package_bytes(hashed_files(other)))
    &&& forall|i: int|
        #![trigger one[i], other[i]]
        0 <= i < one.len() && 0 <= i < other.len() ==> told_apart(one[i].bytes, other[i].bytes)
}

/// Where SHA-256 tells packages apart, snapshots do: a file that is added, removed, renamed or
/// changed gives another digest.
pub proof fn snapshots_tell_packages_apart(one: Seq<ContentView>, other: Seq<ContentView>)
    requires
        forall|i: int| 0 <= i < one.len() ==> is_writable(hashed_file(#[trigger] one[i])),
        forall|i: int| 0 <= i < other.len() ==> is_writable(hashed_file(#[trigger] other[i])),
        packages_told_apart(one, other),
    ensures
        same_but_ascii_case(
            snapshot_of(hashed_files(one)).sha256,
            snapshot_of(hashed_files(other)).sha256,
        ) <==> one == other,
{
    let here = hashed_files(one);
    let there = hashed_files(other);
    hexadecimal_tells_bytes_apart(sha256(package_bytes(here)), sha256(package_bytes(there)));
    if sha256(package_bytes(here)) == sha256(package_bytes(there)) {
        assert forall|i: int| 0 <= i < here.len() implies is_writable(#[trigger] here[i]) by {
            assert(here[i] == hashed_file(one[i]));
        }
        assert forall|i: int| 0 <= i < there.len() implies is_writable(#[trigger] there[i]) by {
            assert(there[i] == hashed_file(other[i]));
        }
        package_bytes_tell_packages_apart(here, there);
        assert(one.len() == here.len() && other.len() == there.len());
        assert forall|i: int| 0 <= i < one.len() implies one[i] == other[i] by {
            assert(here[i] == hashed_file(one[i]));
            assert(there[i] == hashed_file(other[i]));
            hexadecimal_tells_bytes_apart(sha256(one[i].bytes), sha256(other[i].bytes));
            assert(told_apart(one[i].bytes, other[i].bytes));
        }
        assert(one =~= other);
    }
}

/// Whether two snapshots are equal.
pub fn same_snapshot(left: &PackageSnapshot, right: &PackageSnapshot) -> (same: bool)
    ensures
        same == (left@ == right@),
{
    same_text(left.sha256.as_str(), right.sha256.as_str()) && left.file_count == right.file_count
        && left.byte_count == right.byte_count
}

/// A path of a package is its names with slashes between them; what is not names alone has none.
pub proof fn package_paths_are_their_names(names: Seq<Seq<char>>, parts: Seq<PartView>)
    requires
        names.len() > 0,
    ensures
        portable_path(crate::place::normal_parts(names)) == Some(
            crate::text::joined_with(names, '/'),
        ),
        portable_path(parts) is Some <==> parts.len() > 0 && forall|i: int|
            0 <= i < parts.len() ==> (#[trigger] parts[i]) is Normal,
        entry_key(names[0], NameCase::Distinct) == names[0],
        entry_key(names[0], NameCase::Folded) == lowercase(names[0]),
{
    crate::extract::slashes_stand_between_names(names);
    assert(part_names(crate::place::normal_parts(names)) =~= names);
}

/// What lies in a package is taken if and only if its path is names alone and was not seen before,
/// it is a file or a directory, and there were no more than 40000 before it. A directory is gone
/// through, the excluded file is left out, and every other file is measured; each is counted.
pub proof fn packages_hold_files_and_directories(
    walk: WalkView,
    parts: Seq<PartView>,
    shown: Seq<char>,
    kind: FileKind,
)
    requires
        walk.entries <= 40001,
    ensures
        walk.visit(parts, shown, kind) is Ok <==> {
            &&& portable_path(parts) matches Some(path) && !walk.seen.dom().contains(
                entry_key(path, walk.case),
            )
            &&& walk.entries <= 40000
            &&& kind == FileKind::Directory || kind == FileKind::File
        },
        walk.visit(parts, shown, kind) matches Ok((next, done)) ==> {
            let path = portable_path(parts)->0;
            &&& next == WalkView {
                seen: walk.seen.insert(entry_key(path, walk.case), path),
                entries: (walk.entries + 1) as u64,
                ..walk
            }
            &&& kind == FileKind::Directory ==> done == VisitView::Enter
            &&& kind == FileKind::File && path == walk.excluded ==> done == VisitView::Skip
            &&& kind == FileKind::File && path != walk.excluded ==> done == VisitView::Measure(path)
        },
{
}

/// A file counts if and only if it has at most 1073741824 bytes and the package comes to at most
/// 2147483648 with it; it is then one of the files, with its length.
pub proof fn files_of_packages_are_limited(walk: WalkView, path: Seq<char>, length: u64)
    ensures
        walk.measure(path, length) is Ok <==> length <= 1073741824 && walk.bytes + length
            <= 2147483648,
        walk.measure(path, length) matches Ok(next) ==> next.bytes == walk.bytes + length
            && next.files == walk.files.insert(path, length) && next.seen == walk.seen
            && next.entries == walk.entries && next.case == walk.case && next.excluded
            == walk.excluded,
{
}

/// A snapshot counts the files and adds up their lengths, and its digest is that of all of them
/// written one after the other: a file as the length of its path in eight bytes, its path, its
/// length in eight bytes and its digest.
pub proof fn snapshots_count_files_and_bytes(files: Seq<HashedView>, file: HashedView)
    requires
        files.len() < u64::MAX,
    ensures
        snapshot_of(Seq::empty()).file_count == 0,
        snapshot_of(Seq::empty()).byte_count == 0,
        snapshot_of(files.push(file)).file_count == snapshot_of(files).file_count + 1,
        snapshot_of(files).byte_count + file.length <= u64::MAX && snapshot_of(files).byte_count
            < u64::MAX ==> snapshot_of(files.push(file)).byte_count == snapshot_of(files).byte_count
            + file.length,
        snapshot_of(files).sha256 == hex(sha256(package_bytes(files))),
        package_bytes(Seq::empty()) == Seq::<u8>::empty(),
        package_bytes(files.push(file)) == package_bytes(files) + spec_u64_to_le_bytes(
            encode_utf8(file.path).len() as u64,
        ) + encode_utf8(file.path) + spec_u64_to_le_bytes(file.length) + encode_utf8(file.sha256),
{
    let more = files.push(file);
    let count = files.len() as int;
    assert(more.drop_last() =~= files);
    lemma_same_length(more, files, count);
    assert(package_bytes(more) =~= package_bytes(files) + spec_u64_to_le_bytes(
        encode_utf8(file.path).len() as u64,
    ) + encode_utf8(file.path) + spec_u64_to_le_bytes(file.length) + encode_utf8(file.sha256));
}

proof fn lemma_same_length(one: Seq<HashedView>, other: Seq<HashedView>, count: int)
    requires
        0 <= count <= one.len(),
        count <= other.len(),
        forall|i: int| 0 <= i < count ==> #[trigger] one[i] == other[i],
    ensures
        total_length(one, count) == total_length(other, count),
        total_length(one, count) >= 0,
    decreases count,
{
    if count > 0 {
        lemma_same_length(one, other, count - 1);
        assert(one[count - 1] == other[count - 1]);
    }
}

} // verus!
