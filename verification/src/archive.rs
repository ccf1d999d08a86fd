//! Unpacking: what is done with each entry of an archive, in the order of the entries.

use vstd::prelude::*;
use crate::error::{fails_with, settles, Error, ErrorView};
use crate::extract::{
    archive_names, safe_archive_path, slashed, BudgetView, CollisionGuard, ExtractionBudget,
    GuardView, MAX_ARCHIVE_ENTRIES, MAX_ARCHIVE_ENTRY_BYTES,
};
use crate::order::TextMap;
use crate::place::{joined_paths_stay_below, normal_parts, texts_view, Place, PlaceView};
use crate::portable::{is_portable_relative, portable_paths_stay_inside};
use crate::schema::{ArchiveFormat, Artifact};
use crate::text::{
    chars_of, join3, joined_texts_fall_apart_again, joined_with, lemma_last_piece, pieces,
    same_text, split_chars, split_on, text_of,
};

verus! {

/// The most bytes of a header that comments on a whole tar archive.
pub const MAX_COMMENT_BYTES: u64 = 65_536;

/// The error for a path that leaves its directory or is not portable.
pub open spec fn unsafe_entry(path: Seq<char>) -> ErrorView {
    ErrorView::UnsafeArchiveEntry(path)
}

/// The place of an artifact below the directory of an installation.
pub open spec fn destination_place(root: PlaceView, destination: Seq<char>) -> Result<
    PlaceView,
    ErrorView,
> {
    match archive_names(destination) {
        Some(names) => Ok(root.below(names)),
        None => Err(unsafe_entry(destination)),
    }
}

/// The place of a path below `root`.
pub fn checked_join(root: &Place, relative: &str) -> (outcome: Result<Place, Error>)
    ensures
        match destination_place(root@, relative@) {
            Ok(place) => outcome matches Ok(found) && found@ == place,
            Err(error) => fails_with(outcome, error),
        },
{
    match safe_archive_path(relative) {
        Ok(names) => Ok(root.below(&names)),
        Err(error) => Err(error),
    }
}

/// Whatever destination an accepted recipe names, there is a place for it, strictly below the
/// directory of the installation.
pub proof fn destinations_lie_in_the_installation(root: PlaceView, destination: Seq<char>)
    requires
        is_portable_relative(destination, false),
    ensures
        destination_place(root, destination) matches Ok(place) && place.within(root)
            && place.parts.len() > root.parts.len(),
{
    let names = split_on(destination, '/');
    portable_paths_stay_inside(destination, names.len() - 1);
    lemma_last_piece(destination, '/');
    joined_paths_stay_below(root, names);
}

/// What reserving the place of an artifact that is not packed comes to.
pub open spec fn raw_reservation(
    budget: BudgetView,
    root: PlaceView,
    destination: PlaceView,
    length: u64,
) -> Result<BudgetView, ErrorView> {
    if length > MAX_ARCHIVE_ENTRY_BYTES {
        Err(
            ErrorView::ArchiveLimit(
                "raw artifact `"@ + destination.shown + "` exceeds 1073741824 bytes"@,
            ),
        )
    } else {
        budget.reserve(root, destination, false, length as int)
    }
}

/// Reserves the place of an artifact that is not packed.
pub fn copy_raw(
    length: u64,
    root: &Place,
    destination: &Place,
    budget: &mut ExtractionBudget,
) -> (outcome: Result<(), Error>)
    requires
        old(budget).wf(),
    ensures
        final(budget).wf(),
        match raw_reservation(old(budget)@, root@, destination@, length) {
            Ok(next) => outcome is Ok && final(budget)@ == next,
            Err(error) => fails_with(outcome, error) && final(budget)@ == old(budget)@,
        },
{
    if length > MAX_ARCHIVE_ENTRY_BYTES {
        return Err(
            Error::ArchiveLimit(
                join3(
                    "raw artifact `",
                    destination.shown.as_str(),
                    "` exceeds 1073741824 bytes",
                ),
            ),
        );
    }
    budget.reserve_path(root, destination, false, length)
}

/// The error for an archive with too many entries.
pub open spec fn entry_count_fault(count: int) -> Option<ErrorView> {
    if count > MAX_ARCHIVE_ENTRIES {
        Some(ErrorView::ArchiveLimit("more than 40000 entries"@))
    } else {
        None
    }
}

/// Checks the number of entries of an archive.
pub fn check_entry_count(count: u64) -> (outcome: Result<(), Error>)
    ensures
        settles(outcome, entry_count_fault(count as int)),
{
    if count > MAX_ARCHIVE_ENTRIES {
        Err(Error::ArchiveLimit("more than 40000 entries".to_owned()))
    } else {
        Ok(())
    }
}

/// Checks that as many bytes came out of an entry as it declared.
pub fn check_copied(copied: u64, expected: u64, path: &Place) -> (outcome: Result<(), Error>)
    ensures
        settles(
            outcome,
            if copied != expected {
                Some(
                    ErrorView::ArchiveLimit(
                        "entry `"@ + path@.shown + "` length mismatch"@,
                    ),
                )
            } else {
                None
            },
        ),
{
    if copied != expected {
        Err(Error::ArchiveLimit(join3("entry `", path.shown.as_str(), "` length mismatch")))
    } else {
        Ok(())
    }
}

/// The permissions that an unpacked file gets: none are set where the archive gives none, and only
/// those to read, write and execute are kept.
pub open spec fn kept_mode(mode: u32) -> Option<u32> {
    if mode == 0 {
        None
    } else {
        Some(mode & 0o777)
    }
}

/// The permissions that an unpacked file gets.
pub fn set_mode(mode: u32) -> (kept: Option<u32>)
    ensures
        kept == kept_mode(mode),
{
    if mode == 0 {
        None
    } else {
        Some(mode & 0o777)
    }
}

/// No unpacked file gets a permission beyond those to read, write and execute: neither set-user-ID,
/// set-group-ID nor the sticky bit.
pub proof fn kept_modes_are_plain(mode: u32)
    ensures
        kept_mode(mode) matches Some(kept) ==> kept <= 0o777,
{
    assert(mode & 0o777 <= 0o777) by (bit_vector);
}

/// What is to be done for an entry of an archive; paths are taken below the place of the archive.
#[derive(Clone, Debug, PartialEq, Eq)]
pub enum Unpack {
    /// Make the directory.
    Directory { names: Vec<String> },
    /// Write a new file of the size.
    File { names: Vec<String>, size: u64, mode: u32 },
    /// Nothing until the archive has been read.
    Link,
    /// Read the header and check that it only comments on the archive.
    Comment { size: u64 },
}

/// An [`Unpack`] with its texts as sequences.
pub enum UnpackView {
    Directory { names: Seq<Seq<char>> },
    File { names: Seq<Seq<char>>, size: u64, mode: u32 },
    Link,
    Comment { size: u64 },
}

impl View for Unpack {
    type V = UnpackView;

    open spec fn view(&self) -> UnpackView {
        match *self {
            Unpack::Directory { names } => UnpackView::Directory { names: texts_view(names@) },
            Unpack::File { names, size, mode } => UnpackView::File {
                names: texts_view(names@),
                size,
                mode,
            },
            Unpack::Link => UnpackView::Link,
            Unpack::Comment { size } => UnpackView::Comment { size },
        }
    }
}

/// An entry of a ZIP archive.
#[derive(Clone, Debug, PartialEq, Eq)]
pub struct ZipEntry {
    pub name: String,
    pub unix_mode: Option<u32>,
    pub is_dir: bool,
    pub is_file: bool,
    pub size: u64,
}

impl ZipEntry {
    /// The mode of the entry; nothing where it has none.
    pub open spec fn mode(self) -> u32 {
        match self.unix_mode {
            Some(mode) => mode,
            None => 0,
        }
    }

    /// Whether the mode is that of a symbolic link.
    pub open spec fn is_link(self) -> bool {
        self.mode() & 0o170000 == 0o120000
    }
}

/// What a ZIP archive in the middle of being unpacked comes to by its next entry: its paths, the
/// budget, and what is to be done.
pub open spec fn zip_step(
    root: PlaceView,
    destination: PlaceView,
    guard: GuardView,
    budget: BudgetView,
    entry: ZipEntry,
) -> Result<(GuardView, BudgetView, UnpackView), ErrorView> {
    match archive_names(entry.name@) {
        None => Err(unsafe_entry(entry.name@)),
        Some(names) => if entry.is_link() {
            Err(unsafe_entry(entry.name@))
        } else if !entry.is_dir && (!entry.is_file || entry.size > MAX_ARCHIVE_ENTRY_BYTES) {
            Err(
                ErrorView::ArchiveLimit("unsafe or oversized entry `"@ + entry.name@ + "`"@),
            )
        } else {
            let bytes = if entry.is_dir {
                0
            } else {
                entry.size as int
            };
            match guard.after_naming(entry.name@, entry.is_dir) {
                Err(error) => Err(error),
                Ok(next_guard) => match budget.reserve(
                    root,
                    destination.below(names),
                    entry.is_dir,
                    bytes,
                ) {
                    Err(error) => Err(error),
                    Ok(next_budget) => Ok(
                        (
                            next_guard,
                            next_budget,
                            if entry.is_dir {
                                UnpackView::Directory { names }
                            } else {
                                UnpackView::File { names, size: entry.size, mode: entry.mode() }
                            },
                        ),
                    ),
                },
            }
        },
    }
}

/// A ZIP archive in the middle of being unpacked.
pub struct ZipUnpacking {
    root: Place,
    destination: Place,
    guard: CollisionGuard,
}

impl ZipUnpacking {
    pub closed spec fn wf(&self) -> bool {
        self.guard.wf()
    }

    /// The directory of the installation.
    pub closed spec fn root(&self) -> PlaceView {
        self.root@
    }

    /// The directory that the archive is unpacked into.
    pub closed spec fn destination(&self) -> PlaceView {
        self.destination@
    }

    /// The paths that the archive has named.
    pub closed spec fn guard(&self) -> GuardView {
        self.guard@
    }

    /// Reserves the directory that the archive is unpacked into.
    pub fn begin(root: &Place, destination: &Place, budget: &mut ExtractionBudget) -> (outcome:
        Result<ZipUnpacking, Error>)
        requires
            old(budget).wf(),
        ensures
            final(budget).wf(),
            match old(budget)@.reserve(root@, destination@, true, 0) {
                Ok(next) => final(budget)@ == next && (outcome matches Ok(unpacking) && {
                    &&& unpacking.wf()
                    &&& unpacking.root() == root@
                    &&& unpacking.destination() == destination@
                    &&& unpacking.guard() == GuardView::fresh(old(budget)@.case)
                }),
                Err(error) => fails_with(outcome, error) && final(budget)@ == old(budget)@,
            },
    {
        match budget.reserve_path(root, destination, true, 0) {
            Err(error) => Err(error),
            Ok(()) => Ok(
                ZipUnpacking {
                    root: root.copy(),
                    destination: destination.copy(),
                    guard: CollisionGuard::new(budget.case()),
                },
            ),
        }
    }

    /// Decides what is done for the next entry. After an error the archive is not unpacked any
    /// further; the budget is then as it was.
    pub fn next(&mut self, entry: &ZipEntry, budget: &mut ExtractionBudget) -> (outcome: Result<
        Unpack,
        Error,
    >)
        requires
            old(self).wf(),
            old(budget).wf(),
        ensures
            final(self).wf(),
            final(budget).wf(),
            final(self).root() == old(self).root(),
            final(self).destination() == old(self).destination(),
            match zip_step(
                old(self).root(),
                old(self).destination(),
                old(self).guard(),
                old(budget)@,
                *entry,
            ) {
                Ok((guard, next, unpack)) => {
                    &&& outcome matches Ok(found) && found@ == unpack
                    &&& final(self).guard() == guard
                    &&& final(budget)@ == next
                },
                Err(error) => fails_with(outcome, error) && final(budget)@ == old(budget)@,
            },
    {
        let names = match safe_archive_path(entry.name.as_str()) {
            Ok(names) => names,
            Err(error) => {
                return Err(error);
            },
        };
        let mode = match entry.unix_mode {
            Some(mode) => mode,
            None => 0,
        };
        if mode & 0o170000 == 0o120000 {
            return Err(Error::UnsafeArchiveEntry(entry.name.clone()));
        }
        if !entry.is_dir && (!entry.is_file || entry.size > MAX_ARCHIVE_ENTRY_BYTES) {
            return Err(
                Error::ArchiveLimit(
                    join3("unsafe or oversized entry `", entry.name.as_str(), "`"),
                ),
            );
        }
        let named = self.guard.insert(entry.name.as_str(), entry.is_dir);
        match named {
            Ok(()) => {},
            Err(error) => {
                return Err(error);
            },
        }
        let bytes: u64 = if entry.is_dir {
            0
        } else {
            entry.size
        };
        let place = self.destination.below(&names);
        match budget.reserve_path(&self.root, &place, entry.is_dir, bytes) {
            Err(error) => Err(error),
            Ok(()) => if entry.is_dir {
                Ok(Unpack::Directory { names })
            } else {
                Ok(Unpack::File { names, size: entry.size, mode })
            },
        }
    }
}

/// What an entry of a tar archive is.
#[derive(Clone, Debug, PartialEq, Eq)]
pub enum TarKind {
    Directory,
    File,
    Link { target: String },
    GlobalHeader,
    Special,
}

/// An entry of a tar archive.
#[derive(Clone, Debug, PartialEq, Eq)]
pub struct TarEntry {
    pub path: String,
    pub kind: TarKind,
    pub size: u64,
    pub mode: u32,
}

/// A file or a symbolic link that an archive holds.
#[derive(Clone, Debug, PartialEq, Eq)]
pub enum Member {
    File { size: u64, mode: u32 },
    Link { names: Vec<String>, target: String },
}

/// A [`Member`] with its texts as sequences.
pub enum MemberView {
    File { size: u64, mode: u32 },
    Link { names: Seq<Seq<char>>, target: Seq<char> },
}

impl View for Member {
    type V = MemberView;

    open spec fn view(&self) -> MemberView {
        match *self {
            Member::File { size, mode } => MemberView::File { size, mode },
            Member::Link { names, target } => MemberView::Link {
                names: texts_view(names@),
                target: target@,
            },
        }
    }
}

/// The files and links of an archive by their paths.
pub type Members = Map<Seq<char>, MemberView>;

/// The members of a map.
pub open spec fn members_view(map: Map<Seq<char>, Member>) -> Members {
    map.map_values(|member: Member| member@)
}

/// Where the steps of a target lead from a directory; nowhere, where one leaves the archive or is
/// empty.
pub open spec fn walk(directory: Seq<Seq<char>>, steps: Seq<Seq<char>>) -> Option<Seq<Seq<char>>>
    decreases steps.len(),
{
    if steps.len() == 0 {
        Some(directory)
    } else if steps[0].len() == 0 {
        None
    } else if steps[0] == "."@ {
        walk(directory, steps.skip(1))
    } else if steps[0] == ".."@ {
        if directory.len() == 0 {
            None
        } else {
            walk(directory.drop_last(), steps.skip(1))
        }
    } else {
        walk(directory.push(steps[0]), steps.skip(1))
    }
}

/// The names that a link at `names` points to, inside the archive.
pub open spec fn link_target(names: Seq<Seq<char>>, target: Seq<char>) -> Option<Seq<Seq<char>>> {
    walk(names.drop_last(), split_on(target, '/'))
}

/// The regular file at which a chain of at most `fuel` links ends that begins at a path.
pub open spec fn chase(members: Members, path: Seq<char>, fuel: nat) -> Option<Seq<char>>
    decreases fuel,
{
    if !members.dom().contains(path) {
        None
    } else {
        match members[path] {
            MemberView::File { .. } => Some(path),
            MemberView::Link { names, target } => if fuel == 0 {
                None
            } else {
                match link_target(names, target) {
                    None => None,
                    Some(found) => chase(members, slashed(found), (fuel - 1) as nat),
                }
            },
        }
    }
}

/// Whether a chain of links that begins at a path ends at a file, after whatever number of links.
pub open spec fn ends_at(members: Members, path: Seq<char>, file: Seq<char>) -> bool {
    exists|fuel: nat| #[trigger] chase(members, path, fuel) == Some(file)
}

proof fn lemma_more_fuel(members: Members, path: Seq<char>, fuel: nat, more: nat)
    requires
        fuel <= more,
        chase(members, path, fuel) is Some,
    ensures
        chase(members, path, more) == chase(members, path, fuel),
    decreases fuel,
{
    match members[path] {
        MemberView::File { .. } => {},
        MemberView::Link { names, target } => {
            let found = link_target(names, target)->0;
            lemma_more_fuel(members, slashed(found), (fuel - 1) as nat, (more - 1) as nat);
        },
    }
}

/// Whether a chain that begins at a path needs exactly `need` links.
spec fn needs(members: Members, path: Seq<char>, need: nat) -> bool {
    &&& chase(members, path, need) is Some
    &&& need > 0 ==> chase(members, path, (need - 1) as nat) is None
}

proof fn lemma_needs_once(members: Members, path: Seq<char>, one: nat, other: nat)
    requires
        needs(members, path, one),
        needs(members, path, other),
    ensures
        one == other,
{
    if one < other {
        lemma_more_fuel(members, path, one, (other - 1) as nat);
    } else if other < one {
        lemma_more_fuel(members, path, other, (one - 1) as nat);
    }
}

proof fn lemma_some_need(members: Members, path: Seq<char>, fuel: nat) -> (need: nat)
    requires
        chase(members, path, fuel) is Some,
    ensures
        need <= fuel,
        needs(members, path, need),
    decreases fuel,
{
    if fuel == 0 || chase(members, path, (fuel - 1) as nat) is None {
        fuel
    } else {
        lemma_some_need(members, path, (fuel - 1) as nat)
    }
}

/// Along a chain every smaller need belongs to some member.
proof fn lemma_smaller_need(members: Members, path: Seq<char>, need: nat, less: nat)
    requires
        needs(members, path, need),
        less <= need,
    ensures
        exists|other: Seq<char>| members.dom().contains(other) && #[trigger] needs(
            members,
            other,
            less,
        ),
    decreases need,
{
    if less == need {
        assert(members.dom().contains(path));
    } else {
        let names = members[path]->names;
        let target = members[path]->target;
        let found = slashed(link_target(names, target)->0);
        assert(needs(members, found, (need - 1) as nat)) by {
            if need - 1 > 0 {
                assert(chase(members, path, (need - 1) as nat) is None);
                assert(chase(members, found, (need - 2) as nat) is None);
            }
        }
        lemma_smaller_need(members, found, (need - 1) as nat, less);
    }
}

spec fn member_that_needs(members: Members, need: int) -> Seq<char> {
    choose|other: Seq<char>| members.dom().contains(other) && needs(members, other, need as nat)
}

/// No chain that ends needs as many links as there are members.
proof fn lemma_need_is_small(members: Members, path: Seq<char>, need: nat)
    requires
        members.dom().finite(),
        needs(members, path, need),
    ensures
        need < members.dom().len(),
{
    let all = vstd::set_lib::set_int_range(0, need as int + 1);
    vstd::set_lib::lemma_int_range(0, need as int + 1);
    let pick = |n: int| member_that_needs(members, n);
    assert forall|n: int| #[trigger] all.contains(n) implies members.dom().contains(pick(n))
        && needs(members, pick(n), n as nat) by {
        lemma_smaller_need(members, path, need, n as nat);
    }
    assert forall|a: int, b: int|
        #![trigger pick(a), pick(b)]
        all.contains(a) && all.contains(b) && pick(a) == pick(b) implies a == b by {
        lemma_needs_once(members, pick(a), a as nat, b as nat);
    }
    let image = all.map(pick);
    vstd::set_lib::lemma_map_size(all, image, pick);
    assert(image.subset_of(members.dom()));
    vstd::set_lib::lemma_len_subset(image, members.dom());
}

/// Following as many links as an archive has members finds the end of every chain that has one; a
/// chain that goes on longer never ends.
pub proof fn chains_end_within_the_archive(
    members: Members,
    path: Seq<char>,
    file: Seq<char>,
    bound: nat,
)
    requires
        members.dom().finite(),
        members.dom().len() <= bound,
    ensures
        ends_at(members, path, file) <==> chase(members, path, bound) == Some(file),
{
    if ends_at(members, path, file) {
        let fuel = choose|fuel: nat| #[trigger] chase(members, path, fuel) == Some(file);
        let need = lemma_some_need(members, path, fuel);
        lemma_more_fuel(members, path, need, fuel);
        lemma_need_is_small(members, path, need);
        lemma_more_fuel(members, path, need, bound);
    }
}

/// A chain of links ends at a regular file of the archive or not at all.
pub proof fn chains_end_at_files(members: Members, path: Seq<char>, fuel: nat)
    ensures
        chase(members, path, fuel) matches Some(file) ==> members.dom().contains(file)
            && members[file] is File,
    decreases fuel,
{
    if members.dom().contains(path) && fuel > 0 {
        match members[path] {
            MemberView::File { .. } => {},
            MemberView::Link { names, target } => match link_target(names, target) {
                None => {},
                Some(found) => {
                    chains_end_at_files(members, slashed(found), (fuel - 1) as nat);
                },
            },
        }
    }
}

/// A link with an absolute target leads nowhere.
pub proof fn absolute_links_lead_nowhere(names: Seq<Seq<char>>, target: Seq<char>)
    requires
        target.len() > 0,
        target[0] == '/',
    ensures
        link_target(names, target) is None,
{
    assert(split_on(target, '/')[0].len() == 0) by {
        crate::text::lemma_first_at_unique(target, '/', 0);
        assert(target.take(0).len() == 0);
    }
}

/// A symbolic link of an archive, in the order of the archive.
#[derive(Debug, PartialEq, Eq)]
pub struct ArchiveLink {
    pub path: String,
    pub names: Vec<String>,
}

/// An [`ArchiveLink`] with its texts as sequences.
pub struct LinkView {
    pub path: Seq<char>,
    pub names: Seq<Seq<char>>,
}

impl View for ArchiveLink {
    type V = LinkView;

    open spec fn view(&self) -> LinkView {
        LinkView { path: self.path@, names: texts_view(self.names@) }
    }
}

/// The links of a list.
pub open spec fn links_view(links: Seq<ArchiveLink>) -> Seq<LinkView> {
    links.map_values(|link: ArchiveLink| link@)
}

/// A tar archive in the middle of being unpacked.
pub struct TarUnpacking {
    root: Place,
    destination: Place,
    guard: CollisionGuard,
    count: u64,
    members: TextMap<Member>,
    links: Vec<ArchiveLink>,
}

/// A [`TarUnpacking`] with its collections as mathematical ones.
#[verifier::ext_equal]
pub struct TarView {
    pub root: PlaceView,
    pub destination: PlaceView,
    pub guard: GuardView,
    pub count: u64,
    pub members: Members,
    pub links: Seq<LinkView>,
}

impl View for TarUnpacking {
    type V = TarView;

    closed spec fn view(&self) -> TarView {
        TarView {
            root: self.root@,
            destination: self.destination@,
            guard: self.guard@,
            count: self.count,
            members: members_view(self.members@),
            links: links_view(self.links@),
        }
    }
}

impl TarView {
    /// An archive of which nothing has been read.
    pub open spec fn fresh(root: PlaceView, destination: PlaceView, guard: GuardView) -> TarView {
        TarView {
            root,
            destination,
            guard,
            count: 0,
            members: Map::empty(),
            links: Seq::empty(),
        }
    }

    /// There are no more members than entries, and every link is a member.
    pub open spec fn sound(self) -> bool {
        &&& self.count <= MAX_ARCHIVE_ENTRIES
        &&& self.members.dom().finite()
        &&& self.members.dom().len() <= self.count
        &&& forall|i: int|
            0 <= i < self.links.len() ==> self.members.dom().contains(
                slashed((#[trigger] self.links[i]).names),
            )
    }

    /// What the archive comes to by its next entry, with the budget and what is to be done.
    pub open spec fn step(self, budget: BudgetView, entry: TarEntry) -> Result<
        (TarView, BudgetView, UnpackView),
        ErrorView,
    > {
        let counted = TarView { count: (self.count + 1) as u64, ..self };
        let names = archive_names(entry.path@);
        if self.count + 1 > MAX_ARCHIVE_ENTRIES {
            Err(ErrorView::ArchiveLimit("more than 40000 entries"@))
        } else if entry.kind is GlobalHeader {
            if entry.size > MAX_COMMENT_BYTES {
                Err(unsafe_entry(entry.path@))
            } else {
                Ok((counted, budget, UnpackView::Comment { size: entry.size }))
            }
        } else if names is None || entry.kind is Special {
            Err(unsafe_entry(entry.path@))
        } else {
            match self.guard.after_naming(entry.path@, entry.kind is Directory) {
                Err(error) => Err(error),
                Ok(guard) => {
                    let named = TarView { guard, ..counted };
                    match entry.kind {
                        TarKind::Link { target } => Ok(
                            (
                                TarView {
                                    members: self.members.insert(
                                        slashed(names->0),
                                        MemberView::Link { names: names->0, target: target@ },
                                    ),
                                    links: self.links.push(
                                        LinkView { path: entry.path@, names: names->0 },
                                    ),
                                    ..named
                                },
                                budget,
                                UnpackView::Link,
                            ),
                        ),
                        TarKind::Directory => match budget.reserve(
                            self.root,
                            self.destination.below(names->0),
                            true,
                            0,
                        ) {
                            Err(error) => Err(error),
                            Ok(next) => Ok(
                                (named, next, UnpackView::Directory { names: names->0 }),
                            ),
                        },
                        _ => if entry.size > MAX_ARCHIVE_ENTRY_BYTES {
                            Err(
                                ErrorView::ArchiveLimit(
                                    "entry `"@ + entry.path@ + "` exceeds 1073741824 bytes"@,
                                ),
                            )
                        } else {
                            match budget.reserve(
                                self.root,
                                self.destination.below(names->0),
                                false,
                                entry.size as int,
                            ) {
                                Err(error) => Err(error),
                                Ok(next) => Ok(
                                    (
                                        TarView {
                                            members: self.members.insert(
                                                slashed(names->0),
                                                MemberView::File {
                                                    size: entry.size,
                                                    mode: entry.mode,
                                                },
                                            ),
                                            ..named
                                        },
                                        next,
                                        UnpackView::File {
                                            names: names->0,
                                            size: entry.size,
                                            mode: entry.mode,
                                        },
                                    ),
                                ),
                            }
                        },
                    }
                },
            }
        }
    }

    /// The regular file that the link at position `i` stands for.
    pub open spec fn source_of(self, i: int) -> Option<Seq<char>> {
        chase(self.members, slashed(self.links[i].names), self.count as nat)
    }

    /// What the links from position `i` on come to: the budget, and the copies that are to be made.
    pub open spec fn copies(self, budget: BudgetView, i: int) -> Result<
        (BudgetView, Seq<CopyView>),
        ErrorView,
    >
        decreases self.links.len() - i,
    {
        if i >= self.links.len() {
            Ok((budget, Seq::empty()))
        } else {
            match self.source_of(i) {
                None => Err(unsafe_entry(self.links[i].path)),
                Some(source) => {
                    let size = self.members[source]->File_size;
                    match budget.reserve(
                        self.root,
                        self.destination.below(self.links[i].names),
                        false,
                        size as int,
                    ) {
                        Err(error) => Err(error),
                        Ok(next) => match self.copies(next, i + 1) {
                            Err(error) => Err(error),
                            Ok((end, rest)) => Ok(
                                (
                                    end,
                                    seq![
                                        CopyView {
                                            source,
                                            names: self.links[i].names,
                                            size,
                                            mode: self.members[source]->File_mode,
                                        },
                                    ] + rest,
                                ),
                            ),
                        },
                    }
                },
            }
        }
    }
}

/// A regular file that is to be made in the place of a link.
#[derive(Debug, PartialEq, Eq)]
pub struct LinkCopy {
    pub source: String,
    pub names: Vec<String>,
    pub size: u64,
    pub mode: u32,
}

/// A [`LinkCopy`] with its texts as sequences.
pub struct CopyView {
    pub source: Seq<char>,
    pub names: Seq<Seq<char>>,
    pub size: u64,
    pub mode: u32,
}

impl View for LinkCopy {
    type V = CopyView;

    open spec fn view(&self) -> CopyView {
        CopyView {
            source: self.source@,
            names: texts_view(self.names@),
            size: self.size,
            mode: self.mode,
        }
    }
}

/// The copies of a list.
pub open spec fn copies_view(copies: Seq<LinkCopy>) -> Seq<CopyView> {
    copies.map_values(|copy: LinkCopy| copy@)
}

/// A copy of a list of texts.
pub fn copy_texts(texts: &Vec<String>) -> (copy: Vec<String>)
    ensures
        texts_view(copy@) == texts_view(texts@),
{
    let mut copy: Vec<String> = Vec::new();
    for i in 0..texts.len()
        invariant
            texts_view(copy@) == texts_view(texts@).take(i as int),
    {
        let ghost before = copy@;
        copy.push(texts[i].clone());
        proof {
            assert(texts_view(copy@) =~= texts_view(before).push(texts@[i as int]@));
            assert(texts_view(texts@).take(i + 1) =~= texts_view(texts@).take(i as int).push(
                texts@[i as int]@,
            ));
        }
    }
    assert(texts_view(texts@).take(texts@.len() as int) =~= texts_view(texts@));
    copy
}

/// Names with slashes between them.
pub fn slashed_text(names: &Vec<String>) -> (text: String)
    ensures
        text@ == slashed(texts_view(names@)),
{
    let mut text = String::new();
    let ghost all = texts_view(names@);
    assert(text@ =~= slashed(all.take(0)));
    for i in 0..names.len()
        invariant
            all == texts_view(names@),
            text@ == slashed(all.take(i as int)),
    {
        proof {
            let longer = all.take(i + 1);
            assert(longer.last() == all[i as int]);
            assert(longer.drop_last() =~= all.take(i as int));
        }
        if i > 0 {
            text.push('/');
        }
        text.append(names[i].as_str());
        assert(text@ =~= slashed(all.take(i + 1)));
    }
    assert(all.take(names@.len() as int) =~= all);
    text
}

/// The names that a link points to, inside the archive.
pub fn resolve_target(names: &Vec<String>, target: &str) -> (found: Option<Vec<String>>)
    requires
        names@.len() > 0,
    ensures
        match found {
            Some(place) => link_target(texts_view(names@), target@) == Some(texts_view(place@)),
            None => link_target(texts_view(names@), target@) is None,
        },
{
    let mut place = copy_texts(names);
    let ghost copied = place@;
    place.pop();
    proof {
        assert(texts_view(place@) =~= texts_view(copied).drop_last());
    }
    let steps = split_chars(chars_of(target).as_slice(), '/');
    let ghost all = pieces(steps@);
    assert(all.skip(0) =~= all);
    for i in 0..steps.len()
        invariant
            all == pieces(steps@),
            link_target(texts_view(names@), target@) == walk(
                texts_view(place@),
                all.skip(i as int),
            ),
    {
        let ghost rest = all.skip(i as int);
        assert(rest.skip(1) =~= all.skip(i + 1));
        assert(rest[0] == steps@[i as int]@);
        if steps[i].len() == 0 {
            return None;
        }
        let step = text_of(steps[i].as_slice());
        let ghost before = place@;
        if same_text(step.as_str(), ".") {
        } else if same_text(step.as_str(), "..") {
            if place.len() == 0 {
                return None;
            }
            place.pop();
            assert(texts_view(place@) =~= texts_view(before).drop_last());
        } else {
            place.push(step);
            assert(texts_view(place@) =~= texts_view(before).push(step@));
        }
    }
    Some(place)
}

impl TarUnpacking {
    pub closed spec fn wf(&self) -> bool {
        &&& self.guard.wf()
        &&& self.members.wf()
        &&& self@.sound()
        &&& forall|path: Seq<char>|
            self@.members.dom().contains(path) ==> (#[trigger] self@.members[path] matches
                MemberView::Link { names, .. } ==> names.len() > 0)
    }

    /// Reserves the directory that the archive is unpacked into.
    pub fn begin(root: &Place, destination: &Place, budget: &mut ExtractionBudget) -> (outcome:
        Result<TarUnpacking, Error>)
        requires
            old(budget).wf(),
        ensures
            final(budget).wf(),
            match old(budget)@.reserve(root@, destination@, true, 0) {
                Ok(next) => final(budget)@ == next && (outcome matches Ok(unpacking)
                    && unpacking.wf() && unpacking@ == TarView::fresh(
                    root@,
                    destination@,
                    GuardView::fresh(old(budget)@.case),
                )),
                Err(error) => fails_with(outcome, error) && final(budget)@ == old(budget)@,
            },
    {
        match budget.reserve_path(root, destination, true, 0) {
            Err(error) => Err(error),
            Ok(()) => {
                let unpacking = TarUnpacking {
                    root: root.copy(),
                    destination: destination.copy(),
                    guard: CollisionGuard::new(budget.case()),
                    count: 0,
                    members: TextMap::new(),
                    links: Vec::new(),
                };
                assert(unpacking@.members =~= Map::empty());
                assert(unpacking@.links =~= Seq::empty());
                Ok(unpacking)
            },
        }
    }

    fn add_member(&mut self, names: &Vec<String>, member: Member)
        requires
            old(self).members.wf(),
            old(self)@.members.dom().finite(),
        ensures
            final(self)@ == (TarView {
                members: old(self)@.members.insert(slashed(texts_view(names@)), member@),
                ..old(self)@
            }),
            final(self).members.wf(),
            final(self).guard == old(self).guard,
            final(self)@.members.dom().finite(),
            final(self)@.members.dom().len() <= old(self)@.members.dom().len() + 1,
    {
        let path = slashed_text(names);
        let ghost before = self.members@;
        self.members.insert(path, member);
        proof {
            assert(members_view(self.members@) =~= members_view(before).insert(path@, member@));
            assert(self@.members.dom() =~= old(self)@.members.dom().insert(path@));
        }
    }

    /// Decides what is done for the next entry. After an error the archive is not unpacked any
    /// further; the budget is then as it was.
    pub fn next(&mut self, entry: &TarEntry, budget: &mut ExtractionBudget) -> (outcome: Result<
        Unpack,
        Error,
    >)
        requires
            old(self).wf(),
            old(budget).wf(),
        ensures
            final(budget).wf(),
            match old(self)@.step(old(budget)@, *entry) {
                Ok((next, after, unpack)) => {
                    &&& outcome matches Ok(found) && found@ == unpack
                    &&& final(self).wf()
                    &&& final(self)@ == next
                    &&& final(budget)@ == after
                },
                Err(error) => fails_with(outcome, error) && final(budget)@ == old(budget)@,
            },
    {
        if self.count + 1 > MAX_ARCHIVE_ENTRIES {
            return Err(Error::ArchiveLimit("more than 40000 entries".to_owned()));
        }
        self.count = self.count + 1;
        match &entry.kind {
            TarKind::GlobalHeader => {
                return if entry.size > MAX_COMMENT_BYTES {
                    Err(Error::UnsafeArchiveEntry(entry.path.clone()))
                } else {
                    Ok(Unpack::Comment { size: entry.size })
                };
            },
            _ => {},
        }
        let names = match safe_archive_path(entry.path.as_str()) {
            Ok(names) => names,
            Err(error) => {
                return Err(error);
            },
        };
        proof {
            crate::extract::safe_archive_paths_stay_inside(entry.path@);
        }
        match &entry.kind {
            TarKind::Special => {
                return Err(Error::UnsafeArchiveEntry(entry.path.clone()));
            },
            _ => {},
        }
        let directory = match &entry.kind {
            TarKind::Directory => true,
            _ => false,
        };
        match self.guard.insert(entry.path.as_str(), directory) {
            Ok(()) => {},
            Err(error) => {
                return Err(error);
            },
        }
        match &entry.kind {
            TarKind::Link { target } => {
                let link = ArchiveLink { path: entry.path.clone(), names: copy_texts(&names) };
                let member = Member::Link { names: copy_texts(&names), target: target.clone() };
                self.add_member(&names, member);
                let ghost before = self.links@;
                self.links.push(link);
                assert(links_view(self.links@) =~= links_view(before).push(link@));
                Ok(Unpack::Link)
            },
            TarKind::Directory => {
                let place = self.destination.below(&names);
                match budget.reserve_path(&self.root, &place, true, 0) {
                    Err(error) => Err(error),
                    Ok(()) => Ok(Unpack::Directory { names }),
                }
            },
            _ => {
                if entry.size > MAX_ARCHIVE_ENTRY_BYTES {
                    return Err(
                        Error::ArchiveLimit(
                            join3("entry `", entry.path.as_str(), "` exceeds 1073741824 bytes"),
                        ),
                    );
                }
                let place = self.destination.below(&names);
                match budget.reserve_path(&self.root, &place, false, entry.size) {
                    Err(error) => Err(error),
                    Ok(()) => {
                        let member = Member::File { size: entry.size, mode: entry.mode };
                        self.add_member(&names, member);
                        Ok(Unpack::File { names, size: entry.size, mode: entry.mode })
                    },
                }
            },
        }
    }

    /// The regular file at which the chain of links that begins at a path ends.
    fn source(&self, path: &str) -> (found: Option<String>)
        requires
            self.wf(),
        ensures
            match found {
                Some(file) => chase(self@.members, path@, self@.count as nat) == Some(file@),
                None => chase(self@.members, path@, self@.count as nat) is None,
            },
    {
        let mut at = path.to_owned();
        let mut fuel: u64 = self.count;
        loop
            invariant
                self.wf(),
                fuel <= self.count,
                chase(self@.members, path@, self@.count as nat) == chase(
                    self@.members,
                    at@,
                    fuel as nat,
                ),
            decreases fuel,
        {
            match self.members.get(at.as_str()) {
                None => {
                    return None;
                },
                Some(member) => {
                    assert(self@.members[at@] == member@);
                    match member {
                        Member::File { .. } => {
                            return Some(at);
                        },
                        Member::Link { names, target } => {
                            if fuel == 0 {
                                return None;
                            }
                            match resolve_target(names, target.as_str()) {
                                None => {
                                    return None;
                                },
                                Some(found) => {
                                    at = slashed_text(&found);
                                    fuel = fuel - 1;
                                },
                            }
                        },
                    }
                },
            }
        }
    }

    /// Decides, once the archive has been read, which regular files are made in the place of its
    /// links: each link must lead, through links of the archive alone, to a regular file of the
    /// archive, and each copy counts against the budget.
    pub fn finish(&self, budget: &mut ExtractionBudget) -> (outcome: Result<Vec<LinkCopy>, Error>)
        requires
            self.wf(),
            old(budget).wf(),
        ensures
            final(budget).wf(),
            match self@.copies(old(budget)@, 0) {
                Ok((after, copies)) => {
                    &&& outcome matches Ok(found) && copies_view(found@) == copies
                    &&& final(budget)@ == after
                },
                Err(error) => fails_with(outcome, error),
            },
            old(budget)@.within_limits() ==> final(budget)@.within_limits(),
    {
        let mut copies: Vec<LinkCopy> = Vec::new();
        let ghost start = budget@;
        assert(copies_view(copies@) =~= Seq::empty());
        for i in 0..self.links.len()
            invariant
                self.wf(),
                budget.wf(),
                start == old(budget)@,
                start.within_limits() ==> budget@.within_limits(),
                match self@.copies(start, 0) {
                    Ok((after, all)) => self@.copies(budget@, i as int) matches Ok((end, rest))
                        && end == after && all == copies_view(copies@) + rest,
                    Err(error) => self@.copies(budget@, i as int) == Err::<
                        (BudgetView, Seq<CopyView>),
                        ErrorView,
                    >(error),
                },
        {
            let link = &self.links[i];
            assert(self@.links[i as int] == link@);
            let path = slashed_text(&link.names);
            let source = match self.source(path.as_str()) {
                Some(source) => source,
                None => {
                    return Err(Error::UnsafeArchiveEntry(link.path.clone()));
                },
            };
            proof {
                chains_end_at_files(self@.members, path@, self@.count as nat);
            }
            let (size, mode): (u64, u32) = match self.members.get(source.as_str()) {
                Some(Member::File { size, mode }) => (*size, *mode),
                _ => (0, 0),
            };
            assert(self@.members[source@] == (MemberView::File { size, mode }));
            let place = self.destination.below(&link.names);
            proof {
                crate::extract::reservations_keep_the_limits_if(
                    budget@,
                    self@.root,
                    place@,
                    false,
                    size,
                );
            }
            let ghost before = budget@;
            match budget.reserve_path(&self.root, &place, false, size) {
                Err(error) => {
                    return Err(error);
                },
                Ok(()) => {},
            }
            let copy = LinkCopy { source, names: copy_texts(&link.names), size, mode };
            let ghost done = copies@;
            copies.push(copy);
            proof {
                assert(copies_view(copies@) =~= copies_view(done).push(copy@));
                match self@.copies(budget@, i + 1) {
                    Ok((end, rest)) => {
                        assert(copies_view(done) + (seq![copy@] + rest) =~= copies_view(copies@)
                            + rest);
                    },
                    Err(_) => {},
                }
            }
        }
        proof {
            assert(copies_view(copies@) + Seq::<CopyView>::empty() =~= copies_view(copies@));
        }
        Ok(copies)
    }
}

/// An ASCII digit.
pub open spec fn is_digit_byte(byte: u8) -> bool {
    0x30 <= byte <= 0x39
}

/// The number that decimal digits spell.
pub open spec fn digits_value(digits: Seq<u8>) -> int
    decreases digits.len(),
{
    if digits.len() == 0 {
        0
    } else {
        digits_value(digits.drop_last()) * 10 + (digits.last() - 0x30)
    }
}

/// How many digits stand at the front.
pub open spec fn leading_digits(bytes: Seq<u8>) -> int
    decreases bytes.len(),
{
    if bytes.len() > 0 && is_digit_byte(bytes[0]) {
        1 + leading_digits(bytes.skip(1))
    } else {
        0
    }
}

/// `comment=` in ASCII.
pub open spec fn comment_key() -> Seq<u8> {
    seq![0x63u8, 0x6f, 0x6d, 0x6d, 0x65, 0x6e, 0x74, 0x3d]
}

/// The length of the comment that a header begins with: its length in one to eight digits, a space,
/// `comment=`, the comment and a line feed, the length being that of the whole.
pub open spec fn comment_length(bytes: Seq<u8>) -> Option<int> {
    let digits = leading_digits(bytes);
    let length = digits_value(bytes.take(digits));
    if 1 <= digits <= 8 && digits + 10 <= length <= bytes.len() && bytes[digits] == 0x20
        && bytes.subrange(digits + 1, digits + 9) == comment_key() && bytes[length - 1] == 0x0a {
        Some(length)
    } else {
        None
    }
}

/// Whether a header consists of comments alone.
pub open spec fn only_comments(bytes: Seq<u8>) -> bool
    decreases bytes.len(),
{
    if bytes.len() == 0 {
        true
    } else {
        match comment_length(bytes) {
            Some(length) => if length > 0 {
                only_comments(bytes.skip(length))
            } else {
                false
            },
            None => false,
        }
    }
}

/// The error for a header of a whole tar archive: it may hold comments and nothing else.
pub open spec fn global_header_fault(path: Seq<char>, bytes: Seq<u8>) -> Option<ErrorView> {
    if 0 < bytes.len() <= MAX_COMMENT_BYTES && only_comments(bytes) {
        None
    } else {
        Some(unsafe_entry(path))
    }
}

proof fn lemma_leading_digits(bytes: Seq<u8>, count: int)
    requires
        0 <= count <= bytes.len(),
        forall|k: int| 0 <= k < count ==> is_digit_byte(#[trigger] bytes[k]),
        count < bytes.len() ==> !is_digit_byte(bytes[count]),
    ensures
        leading_digits(bytes) == count,
    decreases count,
{
    if count > 0 {
        assert(is_digit_byte(bytes[0]));
        assert forall|k: int| 0 <= k < count - 1 implies is_digit_byte(
            #[trigger] bytes.skip(1)[k],
        ) by {
            assert(bytes.skip(1)[k] == bytes[k + 1]);
        }
        lemma_leading_digits(bytes.skip(1), count - 1);
    }
}

proof fn lemma_many_digits(bytes: Seq<u8>, count: int)
    requires
        0 <= count <= bytes.len(),
        forall|k: int| 0 <= k < count ==> is_digit_byte(#[trigger] bytes[k]),
    ensures
        leading_digits(bytes) >= count,
    decreases bytes.len(),
{
    if count > 0 {
        assert(is_digit_byte(bytes[0]));
        assert forall|k: int| 0 <= k < count - 1 implies is_digit_byte(
            #[trigger] bytes.skip(1)[k],
        ) by {
            assert(bytes.skip(1)[k] == bytes[k + 1]);
        }
        lemma_many_digits(bytes.skip(1), count - 1);
    } else if bytes.len() > 0 && is_digit_byte(bytes[0]) {
        lemma_many_digits(bytes.skip(1), 0);
    }
}

/// The length of the comment that stands at a position.
fn comment_at(bytes: &[u8], at: usize) -> (length: Option<usize>)
    requires
        at < bytes@.len() <= MAX_COMMENT_BYTES,
    ensures
        match length {
            Some(length) => comment_length(bytes@.skip(at as int)) == Some(length as int),
            None => comment_length(bytes@.skip(at as int)) is None,
        },
{
    let ghost rest = bytes@.skip(at as int);
    let mut digits: usize = 0;
    let mut value: usize = 0;
    assert(rest.take(0).len() == 0);
    while digits < 9 && at + digits < bytes.len() && 0x30 <= bytes[at + digits] && bytes[at
        + digits] <= 0x39
        invariant
            at < bytes@.len() <= MAX_COMMENT_BYTES,
            rest == bytes@.skip(at as int),
            digits <= 9,
            at + digits <= bytes@.len(),
            forall|k: int| 0 <= k < digits ==> is_digit_byte(#[trigger] rest[k]),
            value == digits_value(rest.take(digits as int)),
            digits == 0 ==> value == 0,
            digits == 1 ==> value < 10,
            digits == 2 ==> value < 100,
            digits == 3 ==> value < 1000,
            digits == 4 ==> value < 10000,
            digits == 5 ==> value < 100000,
            digits == 6 ==> value < 1000000,
            digits == 7 ==> value < 10000000,
            digits == 8 ==> value < 100000000,
            digits == 9 ==> value < 1000000000,
        decreases 9 - digits,
    {
        let byte = bytes[at + digits];
        assert(rest[digits as int] == byte);
        assert(rest.take(digits + 1).drop_last() =~= rest.take(digits as int));
        assert(rest.take(digits + 1).last() == byte);
        value = value * 10 + (byte - 0x30) as usize;
        digits = digits + 1;
    }
    if digits == 9 {
        proof {
            lemma_many_digits(rest, 9);
        }
        return None;
    }
    proof {
        if at + digits < bytes@.len() {
            assert(rest[digits as int] == bytes@[at + digits]);
        }
        lemma_leading_digits(rest, digits as int);
    }
    if digits == 0 || value < digits + 10 || value > bytes.len() - at {
        return None;
    }
    if bytes[at + digits] != 0x20 || bytes[at + value - 1] != 0x0a {
        return None;
    }
    let start = at + digits + 1;
    let key = rest_equals_comment(bytes, start);
    assert(rest.subrange(digits + 1, digits + 9) =~= bytes@.subrange(
        start as int,
        start + 8,
    ));
    if !key {
        return None;
    }
    Some(value)
}

fn rest_equals_comment(bytes: &[u8], start: usize) -> (answer: bool)
    requires
        start + 8 <= bytes@.len() <= MAX_COMMENT_BYTES,
    ensures
        answer == (bytes@.subrange(start as int, start + 8) == comment_key()),
{
    let answer = bytes[start] == 0x63 && bytes[start + 1] == 0x6f && bytes[start + 2] == 0x6d
        && bytes[start + 3] == 0x6d && bytes[start + 4] == 0x65 && bytes[start + 5] == 0x6e
        && bytes[start + 6] == 0x74 && bytes[start + 7] == 0x3d;
    proof {
        let found = bytes@.subrange(start as int, start + 8);
        if answer {
            assert(found =~= comment_key());
        } else {
            assert(found[0] == bytes@[start as int]);
            assert(found[1] == bytes@[start + 1]);
            assert(found[2] == bytes@[start + 2]);
            assert(found[3] == bytes@[start + 3]);
            assert(found[4] == bytes@[start + 4]);
            assert(found[5] == bytes@[start + 5]);
            assert(found[6] == bytes@[start + 6]);
            assert(found[7] == bytes@[start + 7]);
        }
    }
    answer
}

/// Checks a header of a whole tar archive.
pub fn check_global_header(path: &str, bytes: &[u8]) -> (outcome: Result<(), Error>)
    ensures
        settles(outcome, global_header_fault(path@, bytes@)),
{
    if bytes.len() == 0 || bytes.len() as u64 > MAX_COMMENT_BYTES {
        return Err(Error::UnsafeArchiveEntry(path.to_owned()));
    }
    let mut at: usize = 0;
    assert(bytes@.skip(0) =~= bytes@);
    while at < bytes.len()
        invariant
            0 < bytes@.len() <= MAX_COMMENT_BYTES,
            at <= bytes@.len(),
            only_comments(bytes@) == only_comments(bytes@.skip(at as int)),
        decreases bytes@.len() - at,
    {
        match comment_at(bytes, at) {
            None => {
                return Err(Error::UnsafeArchiveEntry(path.to_owned()));
            },
            Some(length) => {
                assert(bytes@.skip(at as int).skip(length as int) =~= bytes@.skip(at + length));
                at = at + length;
            },
        }
    }
    Ok(())
}

/// How an artifact is brought into an installation.
#[derive(Clone, Copy, Debug, PartialEq, Eq, Structural)]
pub enum Materialization {
    Copy,
    Unzip,
    UntarGz,
    UntarZst,
}

/// How the format of an artifact says that it is brought in.
pub open spec fn materialization(format: ArchiveFormat) -> Materialization {
    match format {
        ArchiveFormat::Raw => Materialization::Copy,
        ArchiveFormat::Zip => Materialization::Unzip,
        ArchiveFormat::TarGz => Materialization::UntarGz,
        ArchiveFormat::TarZst => Materialization::UntarZst,
    }
}

/// Where an artifact goes below `root`, and how it is brought there.
pub fn materialize(artifact: &Artifact, root: &Place) -> (outcome: Result<
    (Place, Materialization),
    Error,
>)
    ensures
        match destination_place(root@, artifact.destination@) {
            Ok(place) => outcome matches Ok((found, how)) && found@ == place && how
                == materialization(artifact.format),
            Err(error) => fails_with(outcome, error),
        },
{
    match checked_join(root, artifact.destination.as_str()) {
        Err(error) => Err(error),
        Ok(place) => {
            let how = match artifact.format {
                ArchiveFormat::Raw => Materialization::Copy,
                ArchiveFormat::Zip => Materialization::Unzip,
                ArchiveFormat::TarGz => Materialization::UntarGz,
                ArchiveFormat::TarZst => Materialization::UntarZst,
            };
            Ok((place, how))
        },
    }
}

/// A file of a tar archive is written at the path of its entry, with the size and the permissions
/// of its entry, and is remembered with both for the links that lead to it; its bytes are counted.
/// A directory is made at the path of its entry, a link is kept with its target for later, and a
/// comment changes nothing but the number of entries.
pub proof fn tar_entries_are_unpacked_as_they_are(tar: TarView, budget: BudgetView, entry: TarEntry)
    ensures
        tar.step(budget, entry) matches Ok((next, left, done)) ==> {
            &&& next.count == tar.count + 1 && next.count <= 40000
            &&& next.root == tar.root && next.destination == tar.destination
            &&& entry.kind is File <==> done is File
            &&& entry.kind is Directory <==> done is Directory
            &&& entry.kind is Link <==> done is Link
            &&& entry.kind is GlobalHeader <==> done is Comment
            &&& done matches UnpackView::File { names, size, mode } ==> {
                &&& archive_names(entry.path@) == Some(names)
                &&& size == entry.size && size <= 1073741824
                &&& mode == entry.mode
                &&& next.members == tar.members.insert(
                    slashed(names),
                    MemberView::File { size: entry.size, mode: entry.mode },
                )
                &&& next.links == tar.links
                &&& left.bytes_used == budget.bytes_used + entry.size
            }
            &&& done matches UnpackView::Directory { names } ==> {
                &&& archive_names(entry.path@) == Some(names)
                &&& next.members == tar.members && next.links == tar.links
                &&& left.bytes_used == budget.bytes_used
            }
            &&& done is Link ==> {
                &&& archive_names(entry.path@) matches Some(names) && next.members
                    == tar.members.insert(
                    slashed(names),
                    MemberView::Link { names, target: entry.kind->target@ },
                ) && next.links == tar.links.push(LinkView { path: entry.path@, names })
                &&& left == budget
            }
            &&& done matches UnpackView::Comment { size } ==> {
                &&& size == entry.size && size <= 65536
                &&& next.members == tar.members && next.links == tar.links
                &&& next.guard == tar.guard && left == budget
            }
        },
{
}

/// An entry of a tar archive is refused if and only if there were 40000 before it, or it is neither
/// a directory, a file, a link nor a comment, or it comments in more than 65536 bytes, or its path
/// has no portable names or may not be named again, or it is a file of more than 1073741824 bytes,
/// or there is no room for it.
pub proof fn tar_entries_are_refused_for_these_reasons(
    tar: TarView,
    budget: BudgetView,
    entry: TarEntry,
)
    requires
        tar.count <= 40000,
    ensures
        tar.step(budget, entry) is Err <==> {
            ||| tar.count == 40000
            ||| entry.kind is GlobalHeader && entry.size > 65536
            ||| !(entry.kind is GlobalHeader) && {
                ||| entry.kind is Special
                ||| archive_names(entry.path@) is None
                ||| tar.guard.after_naming(entry.path@, entry.kind is Directory) is Err
                ||| entry.kind is File && entry.size > 1073741824
                ||| entry.kind is File && budget.reserve(
                    tar.root,
                    tar.destination.below(archive_names(entry.path@)->0),
                    false,
                    entry.size as int,
                ) is Err
                ||| entry.kind is Directory && budget.reserve(
                    tar.root,
                    tar.destination.below(archive_names(entry.path@)->0),
                    true,
                    0,
                ) is Err
            }
        },
{
}

/// What stands in the place of a link, once the archive has been read, is the file at which its
/// chain ends, under the path of the link, with the size and the permissions with which that file
/// was stored; the bytes of all of them are counted.
pub proof fn links_become_copies_of_their_files(tar: TarView, budget: BudgetView, from: int, i: int)
    requires
        0 <= from <= i < tar.links.len(),
    ensures
        tar.copies(budget, from) matches Ok((left, copies)) ==> {
            &&& copies.len() == tar.links.len() - from
            &&& copies[i - from].names == tar.links[i].names
            &&& tar.source_of(i) == Some(copies[i - from].source)
            &&& tar.members.dom().contains(copies[i - from].source)
            &&& tar.members[copies[i - from].source] == (MemberView::File {
                size: copies[i - from].size,
                mode: copies[i - from].mode,
            })
            &&& left.bytes_used >= budget.bytes_used + copies[i - from].size
        },
    decreases tar.links.len() - from,
{
    match tar.source_of(from) {
        None => {},
        Some(source) => {
            chains_end_at_files(
                tar.members,
                slashed(tar.links[from].names),
                tar.count as nat,
            );
            match budget.reserve(
                tar.root,
                tar.destination.below(tar.links[from].names),
                false,
                tar.members[source]->File_size as int,
            ) {
                Err(_) => {},
                Ok(next) => {
                    lemma_copies_count(tar, next, from + 1);
                    if i > from {
                        links_become_copies_of_their_files(tar, next, from + 1, i);
                    }
                },
            }
        },
    }
}

proof fn lemma_copies_count(tar: TarView, budget: BudgetView, from: int)
    requires
        0 <= from <= tar.links.len(),
    ensures
        tar.copies(budget, from) matches Ok((left, copies)) ==> copies.len() == tar.links.len()
            - from && left.bytes_used >= budget.bytes_used,
    decreases tar.links.len() - from,
{
    if from < tar.links.len() {
        match tar.source_of(from) {
            None => {},
            Some(source) => match budget.reserve(
                tar.root,
                tar.destination.below(tar.links[from].names),
                false,
                tar.members[source]->File_size as int,
            ) {
                Err(_) => {},
                Ok(next) => {
                    lemma_copies_count(tar, next, from + 1);
                },
            },
        }
    }
}

/// A link that leads to no file of the archive makes the whole archive fail.
pub proof fn links_that_lead_nowhere_are_refused(
    tar: TarView,
    budget: BudgetView,
    from: int,
    i: int,
)
    requires
        0 <= from <= i < tar.links.len(),
        tar.source_of(i) is None,
    ensures
        tar.copies(budget, from) is Err,
    decreases i - from,
{
    if from < i {
        match tar.source_of(from) {
            None => {},
            Some(source) => match budget.reserve(
                tar.root,
                tar.destination.below(tar.links[from].names),
                false,
                tar.members[source]->File_size as int,
            ) {
                Err(_) => {},
                Ok(next) => {
                    links_that_lead_nowhere_are_refused(tar, next, from + 1, i);
                },
            },
        }
    }
}

/// A link to a file that was stored before it becomes a copy of that file, with its size and its
/// permissions.
pub proof fn a_link_to_a_file_becomes_that_file(
    tar: TarView,
    budget: BudgetView,
    file: TarEntry,
    link: TarEntry,
)
    requires
        tar.links.len() == 0,
        file.kind is File,
        link.kind is Link,
        tar.step(budget, file) is Ok,
        tar.step(budget, file)->Ok_0.0.step(tar.step(budget, file)->Ok_0.1, link) is Ok,
        link_target(archive_names(link.path@)->0, link.kind->target@) == archive_names(file.path@),
        slashed(archive_names(link.path@)->0) != slashed(archive_names(file.path@)->0),
    ensures
        ({
            let (first, used, written) = tar.step(budget, file)->Ok_0;
            let (second, left, _) = first.step(used, link)->Ok_0;
            second.copies(left, 0) matches Ok((_, copies)) ==> {
                &&& copies.len() == 1
                &&& copies[0].source == slashed(archive_names(file.path@)->0)
                &&& Some(copies[0].names) == archive_names(link.path@)
                &&& copies[0].size == file.size && copies[0].mode == file.mode
                &&& written == (UnpackView::File {
                    names: archive_names(file.path@)->0,
                    size: copies[0].size,
                    mode: copies[0].mode,
                })
            }
        }),
{
    let (first, used, written) = tar.step(budget, file)->Ok_0;
    let (second, left, linked) = first.step(used, link)->Ok_0;
    tar_entries_are_unpacked_as_they_are(tar, budget, file);
    tar_entries_are_unpacked_as_they_are(first, used, link);
    let at = slashed(archive_names(link.path@)->0);
    let end = slashed(archive_names(file.path@)->0);
    assert(second.members[at] == (MemberView::Link {
        names: archive_names(link.path@)->0,
        target: link.kind->target@,
    }));
    assert(second.members[end] == (MemberView::File { size: file.size, mode: file.mode }));
    assert(second.links =~= seq![
        LinkView { path: link.path@, names: archive_names(link.path@)->0 },
    ]);
    reveal_with_fuel(chase, 2);
    assert(second.source_of(0) == Some(end));
    links_become_copies_of_their_files(second, left, 0, 0);
}

/// A file is the end of its own chain; a link leads where its target does, by one link more; what
/// is not in the archive leads nowhere.
pub proof fn links_lead_where_their_targets_do(members: Members, path: Seq<char>, fuel: nat)
    ensures
        !members.dom().contains(path) ==> chase(members, path, fuel) is None,
        members.dom().contains(path) && members[path] is File ==> chase(members, path, fuel) == Some(
            path,
        ),
        members.dom().contains(path) && members[path] is Link ==> {
            let found = link_target(members[path]->names, members[path]->target);
            &&& chase(members, path, 0) is None
            &&& chase(members, path, fuel + 1) == match found {
                Some(found) => chase(members, slashed(found), fuel),
                None => None,
            }
        },
{
}

/// Steps lead from the directory of a link one after the other: `.` stays, `..` goes to the
/// directory above, if there is one in the archive, a name goes into it, and an empty step leads
/// nowhere.
pub proof fn targets_are_walked_step_by_step(
    directory: Seq<Seq<char>>,
    step: Seq<char>,
    rest: Seq<Seq<char>>,
)
    ensures
        walk(directory, Seq::empty()) == Some(directory),
        walk(directory, seq![Seq::<char>::empty()] + rest) is None,
        walk(directory, seq![seq!['.']] + rest) == walk(directory, rest),
        walk(directory.push(step), seq![seq!['.', '.']] + rest) == walk(directory, rest),
        walk(Seq::empty(), seq![seq!['.', '.']] + rest) is None,
        step.len() > 0 && step != seq!['.'] && step != seq!['.', '.'] ==> walk(
            directory,
            seq![step] + rest,
        ) == walk(directory.push(step), rest),
{
    reveal_strlit(".");
    reveal_strlit("..");
    assert("."@ =~= seq!['.']);
    assert(".."@ =~= seq!['.', '.']);
    assert((seq![Seq::<char>::empty()] + rest)[0] =~= Seq::<char>::empty());
    assert((seq![seq!['.']] + rest)[0] == seq!['.']);
    assert((seq![seq!['.']] + rest).skip(1) =~= rest);
    assert((seq![seq!['.', '.']] + rest)[0] == seq!['.', '.']);
    assert((seq![seq!['.', '.']] + rest)[0].len() == 2);
    assert((seq![seq!['.', '.']] + rest).skip(1) =~= rest);
    assert(seq!['.', '.'] != seq!['.']) by {
        assert(seq!['.', '.'].len() == 2);
        assert(seq!['.'].len() == 1);
    }
    assert(directory.push(step).drop_last() =~= directory);
    assert((seq![step] + rest)[0] == step);
    assert((seq![step] + rest).skip(1) =~= rest);
}

/// The target of a link is taken from the directory that holds the link.
pub proof fn targets_are_taken_from_the_directory_of_the_link(
    directory: Seq<Seq<char>>,
    name: Seq<char>,
    steps: Seq<Seq<char>>,
)
    requires
        steps.len() > 0,
        forall|i: int| 0 <= i < steps.len() ==> !(#[trigger] steps[i]).contains('/'),
    ensures
        link_target(directory.push(name), joined_with(steps, '/')) == walk(directory, steps),
{
    joined_texts_fall_apart_again(steps, '/');
    assert(directory.push(name).drop_last() =~= directory);
}

/// A file of a zip archive is written at the path of its entry, with the size and the permissions
/// of its entry, and its bytes are counted; a directory is made at the path of its entry.
pub proof fn zip_entries_are_unpacked_as_they_are(
    root: PlaceView,
    destination: PlaceView,
    guard: GuardView,
    budget: BudgetView,
    entry: ZipEntry,
)
    ensures
        zip_step(root, destination, guard, budget, entry) matches Ok((next, left, done)) ==> {
            &&& guard.after_naming(entry.name@, entry.is_dir) == Ok::<GuardView, ErrorView>(next)
            &&& entry.is_dir <==> done is Directory
            &&& !entry.is_dir <==> done is File
            &&& done matches UnpackView::Directory { names } ==> archive_names(entry.name@) == Some(
                names,
            ) && left.bytes_used == budget.bytes_used
            &&& done matches UnpackView::File { names, size, mode } ==> {
                &&& archive_names(entry.name@) == Some(names)
                &&& size == entry.size && size <= 1073741824
                &&& mode == match entry.unix_mode {
                    Some(mode) => mode,
                    None => 0,
                }
                &&& left.bytes_used == budget.bytes_used + entry.size
            }
        },
{
}

/// An entry of a zip archive is refused if and only if its path has no portable names or may not be
/// named again, or it is a link, or neither a directory nor a file of at most 1073741824 bytes, or
/// there is no room for it.
pub proof fn zip_entries_are_refused_for_these_reasons(
    root: PlaceView,
    destination: PlaceView,
    guard: GuardView,
    budget: BudgetView,
    entry: ZipEntry,
)
    ensures
        zip_step(root, destination, guard, budget, entry) is Err <==> {
            ||| archive_names(entry.name@) is None
            ||| entry.is_link()
            ||| !entry.is_dir && !entry.is_file
            ||| !entry.is_dir && entry.size > 1073741824
            ||| guard.after_naming(entry.name@, entry.is_dir) is Err
            ||| budget.reserve(
                root,
                destination.below(archive_names(entry.name@)->0),
                entry.is_dir,
                if entry.is_dir {
                    0
                } else {
                    entry.size as int
                },
            ) is Err
        },
{
}

/// An entry is a link if and only if the upper four of the sixteen bits of its mode are 10, and of
/// every mode the lower nine bits are kept.
pub proof fn modes_have_sixteen_bits(entry: ZipEntry, mode: u32)
    ensures
        entry.is_link() <==> (match entry.unix_mode {
            Some(mode) => (mode / 4096) % 16 == 10,
            None => false,
        }),
        kept_mode(mode) == if mode == 0 {
            None
        } else {
            Some(mode % 512)
        },
{
    let bits = entry.mode();
    assert(bits & 0o170000 == 0o120000 <==> (bits / 4096) % 16 == 10) by (bit_vector);
    assert(mode & 0o777 == mode % 512) by (bit_vector);
}

/// An artifact that is not packed has at most 1073741824 bytes and is reserved as a file of its
/// length; a zip archive has at most 40000 entries.
pub proof fn artifacts_are_limited(
    budget: BudgetView,
    root: PlaceView,
    destination: PlaceView,
    length: u64,
    count: int,
)
    ensures
        raw_reservation(budget, root, destination, length) is Ok <==> length <= 1073741824
            && budget.reserve(root, destination, false, length as int) is Ok,
        raw_reservation(budget, root, destination, length) matches Ok(next) ==> budget.reserve(
            root,
            destination,
            false,
            length as int,
        ) == Ok::<BudgetView, ErrorView>(next),
        entry_count_fault(count) is None <==> count <= 40000,
{
}

/// An artifact goes below the directory of the installation, by the names of its destination.
pub proof fn artifacts_go_to_their_destination(root: PlaceView, destination: Seq<char>)
    ensures
        destination_place(root, destination) matches Ok(place) ==> {
            &&& archive_names(destination) matches Some(names) && place.parts == root.parts
                + normal_parts(names)
        },
        destination_place(root, destination) is Ok <==> archive_names(destination) is Some,
{
}

/// Artifacts that are not packed are copied; archives are unpacked by their format.
pub proof fn artifacts_are_unpacked_by_their_format(format: ArchiveFormat)
    ensures
        format == ArchiveFormat::Raw <==> materialization(format) == Materialization::Copy,
        format == ArchiveFormat::Zip <==> materialization(format) == Materialization::Unzip,
        format == ArchiveFormat::TarGz <==> materialization(format) == Materialization::UntarGz,
        format == ArchiveFormat::TarZst <==> materialization(format) == Materialization::UntarZst,
{
}

/// Each digit that is written behind others has the weight of one.
pub proof fn digits_of_lengths_have_their_weight(digits: Seq<u8>, digit: u8)
    requires
        48 <= digit <= 57,
    ensures
        is_digit_byte(digit),
        digits_value(Seq::empty()) == 0,
        digits_value(digits.push(digit)) == 10 * digits_value(digits) + (digit - 48),
{
    assert(digits.push(digit).drop_last() =~= digits);
}

/// A comment is its length in one to eight digits, a space, `comment=`, any text and a line feed,
/// where the length is that of all of it; with a header of comments behind it, it is one again.
pub proof fn comments_are_read_by_their_length(
    digits: Seq<u8>,
    text: Seq<u8>,
    rest: Seq<u8>,
    path: Seq<char>,
)
    requires
        1 <= digits.len() <= 8,
        forall|i: int| 0 <= i < digits.len() ==> 48 <= #[trigger] digits[i] <= 57,
        digits_value(digits) == digits.len() + 10 + text.len(),
    ensures
        ({
            let comment = digits + seq![32u8, 99, 111, 109, 109, 101, 110, 116, 61] + text + seq![
                10u8,
            ];
            &&& comment_length(comment + rest) == Some(comment.len() as int)
            &&& only_comments(comment + rest) <==> only_comments(rest)
            &&& only_comments(comment)
            &&& global_header_fault(path, comment) is None <==> comment.len() <= 65536
        }),
{
    let comment = digits + seq![32u8, 99, 111, 109, 109, 101, 110, 116, 61] + text + seq![10u8];
    lemma_comment(digits, text, rest);
    lemma_comment(digits, text, Seq::empty());
    assert(comment + Seq::<u8>::empty() =~= comment);
    assert((comment + rest).skip(comment.len() as int) =~= rest);
    assert(comment.skip(comment.len() as int) =~= Seq::<u8>::empty());
    assert(only_comments(Seq::<u8>::empty()));
}

proof fn lemma_comment(digits: Seq<u8>, text: Seq<u8>, rest: Seq<u8>)
    requires
        1 <= digits.len() <= 8,
        forall|i: int| 0 <= i < digits.len() ==> 48 <= #[trigger] digits[i] <= 57,
        digits_value(digits) == digits.len() + 10 + text.len(),
    ensures
        ({
            let comment = digits + seq![32u8, 99, 111, 109, 109, 101, 110, 116, 61] + text + seq![
                10u8,
            ];
            comment_length(comment + rest) == Some(comment.len() as int)
        }),
{
    let key = seq![32u8, 99, 111, 109, 109, 101, 110, 116, 61];
    let comment = digits + key + text + seq![10u8];
    let all = comment + rest;
    let count = digits.len() as int;
    assert forall|k: int| 0 <= k < count implies is_digit_byte(#[trigger] all[k]) by {
        assert(all[k] == digits[k]);
    }
    assert(all[count] == 32);
    lemma_leading_digits(all, count);
    assert(all.take(count) =~= digits);
    assert(all.subrange(count + 1, count + 9) =~= comment_key());
    assert(all[comment.len() - 1] == 10);
}

/// Nothing else is a comment: what is read as one begins with one to eight digits that spell its
/// length, goes on with a space and `comment=`, and ends with a line feed within the header.
pub proof fn only_comments_are_read(bytes: Seq<u8>)
    ensures
        comment_length(bytes) matches Some(length) ==> {
            let digits = leading_digits(bytes);
            &&& 1 <= digits <= 8
            &&& digits_value(bytes.take(digits)) == length
            &&& digits + 10 <= length <= bytes.len()
            &&& bytes.subrange(digits, digits + 9) == seq![
                32u8,
                99,
                111,
                109,
                109,
                101,
                110,
                116,
                61,
            ]
            &&& bytes[length - 1] == 10
        },
        only_comments(bytes) && bytes.len() > 0 ==> comment_length(bytes) is Some,
        global_header_fault(Seq::empty(), Seq::empty()) is Some,
{
    match comment_length(bytes) {
        Some(length) => {
            let digits = leading_digits(bytes);
            let key = bytes.subrange(digits + 1, digits + 9);
            assert forall|i: int| 1 <= i < 9 implies #[trigger] bytes.subrange(digits, digits + 9)[i]
                == comment_key()[i - 1] by {
                assert(key[i - 1] == bytes[digits + i]);
            }
        },
        None => {},
    }
}

/// What is refused in an archive for what it is fails as unsafe, by its path; what is refused for
/// its size or for the number of entries fails for that limit.
pub proof fn refused_entries_say_why(tar: TarView, budget: BudgetView, entry: TarEntry)
    requires
        tar.count < 40000,
    ensures
        entry.kind is Special ==> tar.step(budget, entry) == Err::<
            (TarView, BudgetView, UnpackView),
            ErrorView,
        >(ErrorView::UnsafeArchiveEntry(entry.path@)),
        !(entry.kind is GlobalHeader) && archive_names(entry.path@) is None ==> tar.step(
            budget,
            entry,
        ) == Err::<(TarView, BudgetView, UnpackView), ErrorView>(
            ErrorView::UnsafeArchiveEntry(entry.path@),
        ),
        entry.kind is GlobalHeader && entry.size > 65536 ==> tar.step(budget, entry) == Err::<
            (TarView, BudgetView, UnpackView),
            ErrorView,
        >(ErrorView::UnsafeArchiveEntry(entry.path@)),
        entry.kind is File && archive_names(entry.path@) is Some && tar.guard.after_naming(
            entry.path@,
            false,
        ) is Ok && entry.size > 1073741824 ==> (tar.step(budget, entry) matches Err(error) && error
            is ArchiveLimit),
{
}

/// Links of zip archives, and their entries whose paths have no portable names, fail as unsafe, by
/// their path; entries that are neither directories nor files of at most 1073741824 bytes fail for
/// that limit.
pub proof fn refused_zip_entries_say_why(
    root: PlaceView,
    destination: PlaceView,
    guard: GuardView,
    budget: BudgetView,
    entry: ZipEntry,
)
    ensures
        archive_names(entry.name@) is None || entry.is_link() ==> zip_step(
            root,
            destination,
            guard,
            budget,
            entry,
        ) == Err::<(GuardView, BudgetView, UnpackView), ErrorView>(
            ErrorView::UnsafeArchiveEntry(entry.name@),
        ),
        archive_names(entry.name@) is Some && !entry.is_link() && !entry.is_dir && (!entry.is_file
            || entry.size > 1073741824) ==> (zip_step(
            root,
            destination,
            guard,
            budget,
            entry,
        ) matches Err(error) && error is ArchiveLimit),
{
}

} // verus!
