//! The registry of installed engines.

use vstd::prelude::*;
use crate::digest::{hex, hexadecimal_tells_bytes_apart, sha256, told_apart};
use crate::error::{fails_with, settles, Error, ErrorView};
use crate::extract::part_names;
use crate::order::{
    comes_before, lemma_less_irreflexive, lemma_less_total, lemma_less_transitive, text_less,
};
use crate::package::{
    hashed_file, hashed_files, is_writable, packages_told_apart, snapshot_of,
    snapshots_tell_packages_apart, ContentView, PackageSnapshot, SnapshotView,
};
use crate::place::{
    agreed_parts, is_plain_name, is_step_name, lemma_plain_name, parts_view, path_parts, texts_view,
    Part, PartView, Place, PlaceView,
};
use crate::sorting::{
    lemma_filter_all, lemma_filter_keeps, lemma_filter_push, lemma_filters_commute, ranked_as, sort,
    sorted_from, sorting_has_one_result, sorting_keeps_every_value, Ranked,
};
use crate::text::{
    equal_ignoring_ascii_case, join2, join3, join4, join5, same_but_ascii_case, same_text,
};

verus! {

pub const REGISTRY_SCHEMA: &'static str = "uci-grabber-registry/v1";

/// The most bytes of a registry document.
pub const MAX_REGISTRY_BYTES: u64 = 8_388_608;

/// The file beside the application that makes it keep its data there.
pub const PORTABLE_MARKER: &'static str = "portable.flag";

/// The directory in which a portable application keeps its data.
pub const PORTABLE_DATA_DIRECTORY: &'static str = "UCI-Grabber-Data";

/// Where a recipe came from.
#[derive(Clone, Copy, Debug, PartialEq, Eq, Structural)]
pub enum InstallSource {
    Curated,
    UnreviewedRecipe,
}

impl InstallSource {
    /// The name of the source.
    pub open spec fn name(self) -> Seq<char> {
        match self {
            InstallSource::Curated => "Curated"@,
            InstallSource::UnreviewedRecipe => "Unreviewed"@,
        }
    }

    /// The name of the source.
    pub fn label(&self) -> (text: &'static str)
        ensures
            text@ == self.name(),
    {
        match self {
            InstallSource::Curated => "Curated",
            InstallSource::UnreviewedRecipe => "Unreviewed",
        }
    }
}

/// An installed engine.
#[derive(Clone, Debug, PartialEq, Eq)]
pub struct InstallRecord {
    pub install_id: String,
    pub recipe_id: String,
    pub recipe_sha256: String,
    pub model_id: String,
    pub name: String,
    pub version: String,
    pub platform: String,
    pub generation_root: Place,
    pub executable: Place,
    pub executable_sha256: String,
    pub package_sha256: String,
    pub package_file_count: u64,
    pub package_byte_count: u64,
    pub working_directory: Place,
    pub source: InstallSource,
    pub installed_at_unix: u64,
    pub publisher: String,
    pub license_spdx: String,
    pub license_url: String,
}

/// An [`InstallRecord`] with its texts and paths as sequences.
#[verifier::ext_equal]
pub struct RecordView {
    pub install_id: Seq<char>,
    pub recipe_id: Seq<char>,
    pub recipe_sha256: Seq<char>,
    pub model_id: Seq<char>,
    pub name: Seq<char>,
    pub version: Seq<char>,
    pub platform: Seq<char>,
    pub generation_root: PlaceView,
    pub executable: PlaceView,
    pub executable_sha256: Seq<char>,
    pub package_sha256: Seq<char>,
    pub package_file_count: u64,
    pub package_byte_count: u64,
    pub working_directory: PlaceView,
    pub source: InstallSource,
    pub installed_at_unix: u64,
    pub publisher: Seq<char>,
    pub license_spdx: Seq<char>,
    pub license_url: Seq<char>,
}

impl View for InstallRecord {
    type V = RecordView;

    open spec fn view(&self) -> RecordView {
        RecordView {
            install_id: self.install_id@,
            recipe_id: self.recipe_id@,
            recipe_sha256: self.recipe_sha256@,
            model_id: self.model_id@,
            name: self.name@,
            version: self.version@,
            platform: self.platform@,
            generation_root: self.generation_root@,
            executable: self.executable@,
            executable_sha256: self.executable_sha256@,
            package_sha256: self.package_sha256@,
            package_file_count: self.package_file_count,
            package_byte_count: self.package_byte_count,
            working_directory: self.working_directory@,
            source: self.source,
            installed_at_unix: self.installed_at_unix,
            publisher: self.publisher@,
            license_spdx: self.license_spdx@,
            license_url: self.license_url@,
        }
    }
}

impl InstallRecord {
    /// A copy of the record.
    pub fn copy(&self) -> (record: InstallRecord)
        ensures
            record@ == self@,
    {
        InstallRecord {
            install_id: self.install_id.clone(),
            recipe_id: self.recipe_id.clone(),
            recipe_sha256: self.recipe_sha256.clone(),
            model_id: self.model_id.clone(),
            name: self.name.clone(),
            version: self.version.clone(),
            platform: self.platform.clone(),
            generation_root: self.generation_root.copy(),
            executable: self.executable.copy(),
            executable_sha256: self.executable_sha256.clone(),
            package_sha256: self.package_sha256.clone(),
            package_file_count: self.package_file_count,
            package_byte_count: self.package_byte_count,
            working_directory: self.working_directory.copy(),
            source: self.source,
            installed_at_unix: self.installed_at_unix,
            publisher: self.publisher.clone(),
            license_spdx: self.license_spdx.clone(),
            license_url: self.license_url.clone(),
        }
    }
}

/// The installed engines.
#[derive(Clone, Debug, PartialEq, Eq)]
pub struct Registry {
    pub schema: String,
    pub installs: Vec<InstallRecord>,
}

impl Default for Registry {
    fn default() -> (registry: Registry)
        ensures
            registry.schema@ == REGISTRY_SCHEMA@,
            registry.installs@ == Seq::<InstallRecord>::empty(),
    {
        Registry { schema: REGISTRY_SCHEMA.to_owned(), installs: Vec::new() }
    }
}

/// Whether a record stands before another: by name, then version, then platform.
pub open spec fn rank_less(left: InstallRecord, right: InstallRecord) -> bool {
    ||| text_less(left.name@, right.name@)
    ||| left.name@ == right.name@ && text_less(left.version@, right.version@)
    ||| left.name@ == right.name@ && left.version@ == right.version@ && text_less(
        left.platform@,
        right.platform@,
    )
}

impl Ranked for InstallRecord {
    open spec fn before(self, other: InstallRecord) -> bool {
        rank_less(self, other)
    }

    proof fn lemma_asymmetric(one: InstallRecord, other: InstallRecord) {
        lemma_less_irreflexive(one.name@);
        lemma_less_irreflexive(one.version@);
        lemma_less_irreflexive(one.platform@);
        if rank_less(other, one) {
            if text_less(one.name@, other.name@) && text_less(other.name@, one.name@) {
                lemma_less_transitive(one.name@, other.name@, one.name@);
            }
            if text_less(one.version@, other.version@) && text_less(other.version@, one.version@) {
                lemma_less_transitive(one.version@, other.version@, one.version@);
            }
            if text_less(one.platform@, other.platform@) && text_less(
                other.platform@,
                one.platform@,
            ) {
                lemma_less_transitive(one.platform@, other.platform@, one.platform@);
            }
        }
    }

    proof fn lemma_after(one: InstallRecord, early: InstallRecord, late: InstallRecord) {
        if early.name@ != late.name@ {
            lemma_less_total(early.name@, late.name@);
        }
        if early.version@ != late.version@ {
            lemma_less_total(early.version@, late.version@);
        }
        if early.platform@ != late.platform@ {
            lemma_less_total(early.platform@, late.platform@);
        }
        if text_less(one.name@, early.name@) && text_less(early.name@, late.name@) {
            lemma_less_transitive(one.name@, early.name@, late.name@);
        }
        if text_less(one.version@, early.version@) && text_less(early.version@, late.version@) {
            lemma_less_transitive(one.version@, early.version@, late.version@);
        }
        if text_less(one.platform@, early.platform@) && text_less(
            early.platform@,
            late.platform@,
        ) {
            lemma_less_transitive(one.platform@, early.platform@, late.platform@);
        }
    }

    fn precedes(&self, other: &InstallRecord) -> (answer: bool) {
        if comes_before(self.name.as_str(), other.name.as_str()) {
            return true;
        }
        if !same_text(self.name.as_str(), other.name.as_str()) {
            return false;
        }
        if comes_before(self.version.as_str(), other.version.as_str()) {
            return true;
        }
        if !same_text(self.version.as_str(), other.version.as_str()) {
            return false;
        }
        comes_before(self.platform.as_str(), other.platform.as_str())
    }
}

/// Which records have another identifier.
pub open spec fn other_than(install_id: Seq<char>) -> spec_fn(InstallRecord) -> bool {
    |record: InstallRecord| record.install_id@ != install_id
}

/// The records with another identifier, as they stood.
pub open spec fn without(records: Seq<InstallRecord>, install_id: Seq<char>) -> Seq<InstallRecord> {
    records.filter(other_than(install_id))
}

/// The records with another identifier, as they stood, and whether there were others.
fn retain_others(records: Vec<InstallRecord>, install_id: &str) -> (kept: Vec<InstallRecord>)
    ensures
        kept@ == without(records@, install_id@),
{
    let mut records = records;
    let mut kept: Vec<InstallRecord> = Vec::new();
    let ghost all = records@;
    let total = records.len();
    proof {
        assert(all.take(0).filter(other_than(install_id@)) =~= Seq::<InstallRecord>::empty()) by {
            reveal(Seq::filter);
        }
        assert(all.skip(0) =~= all);
    }
    for i in 0..total
        invariant
            total == all.len(),
            records@ == all.skip(i as int),
            kept@ == all.take(i as int).filter(other_than(install_id@)),
    {
        let record = records.remove(0);
        proof {
            assert(record == all[i as int]);
            assert(records@ =~= all.skip(i + 1));
            assert(all.take(i + 1) =~= all.take(i as int).push(record));
            lemma_filter_push(all.take(i as int), record, other_than(install_id@));
        }
        if !same_text(record.install_id.as_str(), install_id) {
            kept.push(record);
        }
    }
    assert(all.take(total as int) =~= all);
    kept
}

/// Where a store keeps its data.
#[derive(Clone, Debug, PartialEq, Eq)]
pub struct RegistryStore {
    data_root: Place,
    portable: bool,
}

/// A [`RegistryStore`] with its path as sequences.
#[verifier::ext_equal]
pub struct StoreView {
    pub data_root: PlaceView,
    pub portable: bool,
}

impl View for RegistryStore {
    type V = StoreView;

    closed spec fn view(&self) -> StoreView {
        StoreView { data_root: self.data_root@, portable: self.portable }
    }
}

impl StoreView {
    /// The directory of the installations.
    pub open spec fn installs_dir(self) -> PlaceView {
        self.data_root.below(seq!["installs"@])
    }
}

/// What each identifier of a record is as a name of a directory, where it is one.
pub struct IdNames {
    pub recipe: Option<String>,
    pub model: Option<String>,
    pub version: Option<String>,
    pub platform: Option<String>,
}

/// An [`IdNames`] with its texts as sequences.
#[verifier::ext_equal]
pub struct IdNamesView {
    pub recipe: Option<Seq<char>>,
    pub model: Option<Seq<char>>,
    pub version: Option<Seq<char>>,
    pub platform: Option<Seq<char>>,
}

impl View for IdNames {
    type V = IdNamesView;

    open spec fn view(&self) -> IdNamesView {
        IdNamesView {
            recipe: crate::web::optional(self.recipe),
            model: crate::web::optional(self.model),
            version: crate::web::optional(self.version),
            platform: crate::web::optional(self.platform),
        }
    }
}

/// The name that components are, where they are a single one.
pub open spec fn single_name(parts: Seq<PartView>) -> Option<Seq<char>> {
    if parts.len() == 1 {
        match parts[0] {
            PartView::Normal(name) => Some(name),
            _ => None,
        }
    } else {
        None
    }
}

/// The name that components are, where they are a single one.
pub fn single_component(parts: &Vec<Part>) -> (name: Option<String>)
    ensures
        crate::web::optional(name) == single_name(parts_view(parts@)),
{
    if parts.len() != 1 {
        return None;
    }
    assert(parts_view(parts@)[0] == parts@[0]@);
    match &parts[0] {
        Part::Normal(name) => Some(name.clone()),
        _ => None,
    }
}

/// Whether a text may be a name on some machine, or may be none: where all machines agree on the
/// components of the text, it is the name of the single one; and a name leads to something directly
/// below a directory.
pub open spec fn may_be_name(text: Seq<char>, name: Option<Seq<char>>) -> bool {
    &&& agreed_parts(text) matches Some(agreed) ==> name == single_name(agreed)
    &&& is_plain_name(text) ==> name == Some(text)
    &&& name matches Some(name) ==> is_step_name(name)
}

/// The name that a text is on this machine, where it is a single path component.
pub fn single_path_component(value: &str) -> (name: Option<String>)
    ensures
        may_be_name(value@, crate::web::optional(name)),
{
    proof {
        if is_plain_name(value@) {
            lemma_plain_name(value@);
        }
    }
    let parts = path_parts(value);
    assert(parts@.len() == 1 ==> parts_view(parts@)[0] == parts@[0]@);
    single_component(&parts)
}

/// Whether names may be those of the identifiers of a record on some machine.
pub open spec fn may_be_names(record: RecordView, names: IdNamesView) -> bool {
    &&& may_be_name(record.recipe_id, names.recipe)
    &&& may_be_name(record.model_id, names.model)
    &&& may_be_name(record.version, names.version)
    &&& may_be_name(record.platform, names.platform)
}

impl IdNames {
    /// What each identifier of a record is on this machine.
    pub fn of(record: &InstallRecord) -> (names: IdNames)
        ensures
            may_be_names(record@, names@),
    {
        IdNames {
            recipe: single_path_component(record.recipe_id.as_str()),
            model: single_path_component(record.model_id.as_str()),
            version: single_path_component(record.version.as_str()),
            platform: single_path_component(record.platform.as_str()),
        }
    }
}

/// Whether all components are names.
pub open spec fn all_normal(parts: Seq<PartView>) -> bool {
    forall|i: int| 0 <= i < parts.len() ==> (#[trigger] parts[i]) is Normal
}

/// The names of components, where all of them are names and there are enough.
pub fn safe_relative_path(parts: &Vec<Part>, allow_empty: bool) -> (names: Option<Vec<String>>)
    ensures
        match names {
            Some(names) => {
                &&& all_normal(parts_view(parts@))
                &&& allow_empty || parts@.len() > 0
                &&& texts_view(names@) == part_names(parts_view(parts@))
            },
            None => !all_normal(parts_view(parts@)) || (!allow_empty && parts@.len() == 0),
        },
{
    if parts.len() == 0 && !allow_empty {
        return None;
    }
    let ghost view = parts_view(parts@);
    let mut names: Vec<String> = Vec::new();
    for i in 0..parts.len()
        invariant
            view == parts_view(parts@),
            texts_view(names@) == part_names(view).take(i as int),
            forall|k: int| 0 <= k < i ==> (#[trigger] view[k]) is Normal,
    {
        assert(view[i as int] == parts@[i as int]@);
        match &parts[i] {
            Part::Normal(name) => {
                let ghost before = names@;
                names.push(name.clone());
                proof {
                    assert(texts_view(names@) =~= texts_view(before).push(name@));
                    assert(part_names(view).take(i + 1) =~= part_names(view).take(i as int).push(
                        part_names(view)[i as int],
                    ));
                }
            },
            _ => {
                assert(!(view[i as int] is Normal));
                return None;
            },
        }
    }
    assert(part_names(view).take(parts@.len() as int) =~= part_names(view));
    Some(names)
}

/// The error for an identifier that is no name of a directory.
pub open spec fn component_error(label: Seq<char>) -> ErrorView {
    ErrorView::Other("portable registry "@ + label + " is not a safe path component"@)
}

impl StoreView {
    /// The directory of an installation, by the names of its parts.
    pub open spec fn generation(
        self,
        recipe: Seq<char>,
        model: Seq<char>,
        version: Seq<char>,
        platform: Seq<char>,
    ) -> PlaceView {
        self.installs_dir().below(seq![recipe, model, version, platform])
    }

    /// The directory of an installation by the identifiers of its record, which are these names: the
    /// identifiers stand in its text as they are.
    pub open spec fn generation_of(self, record: RecordView, names: IdNamesView) -> PlaceView {
        self.installs_dir().joined(record.recipe_id, seq![names.recipe->0]).joined(
            record.model_id,
            seq![names.model->0],
        ).joined(record.version, seq![names.version->0]).joined(
            record.platform,
            seq![names.platform->0],
        )
    }

    /// A record with its paths moved to where the store keeps its data now.
    pub open spec fn rebase(self, record: RecordView, names: IdNamesView) -> Result<
        RecordView,
        ErrorView,
    > {
        if !self.portable {
            Ok(record)
        } else if names.recipe is None {
            Err(component_error("recipe"@))
        } else if names.model is None {
            Err(component_error("model"@))
        } else if names.version is None {
            Err(component_error("version"@))
        } else if names.platform is None {
            Err(component_error("platform"@))
        } else {
            let generation = self.generation_of(record, names);
            let root = record.generation_root;
            let executable = record.executable.relative_to(root);
            let working = record.working_directory.relative_to(root);
            if generation.parts == root.parts {
                Ok(record)
            } else if !record.executable.within(root) {
                Err(ErrorView::Other("portable registry executable escaped its generation"@))
            } else if !record.working_directory.within(root) {
                Err(
                    ErrorView::Other(
                        "portable registry working directory escaped its generation"@,
                    ),
                )
            } else if !all_normal(executable) || executable.len() == 0 || !all_normal(working) {
                Err(
                    ErrorView::Other("portable registry contains a non-portable installed path"@),
                )
            } else {
                Ok(
                    RecordView {
                        generation_root: generation,
                        executable: generation.joined(
                            record.executable.text_below(root),
                            part_names(executable),
                        ),
                        working_directory: generation.joined(
                            record.working_directory.text_below(root),
                            part_names(working),
                        ),
                        ..record
                    },
                )
            }
        }
    }
}

fn component_fault(label: &str) -> (error: Error)
    ensures
        error@ == component_error(label@),
{
    Error::Other(join3("portable registry ", label, " is not a safe path component"))
}

/// A text below a path, which is a single name.
fn join_name(base: &Place, text: &str, name: &str) -> (place: Place)
    ensures
        place@ == base@.joined(text@, seq![name@]),
{
    let mut names: Vec<String> = Vec::new();
    names.push(name.to_owned());
    assert(texts_view(names@) =~= seq![name@]);
    base.joined(text, &names)
}

impl RegistryStore {
    /// The default store: beside a portable application, or else where the system keeps the data
    /// of applications.
    pub fn open_default(portable: Option<Place>, system: Option<Place>) -> (outcome: Result<
        RegistryStore,
        Error,
    >)
        ensures
            match (portable, system) {
                (Some(place), _) => outcome matches Ok(store) && store@ == (StoreView {
                    data_root: place@,
                    portable: true,
                }),
                (None, Some(place)) => outcome matches Ok(store) && store@ == (StoreView {
                    data_root: place@,
                    portable: false,
                }),
                (None, None) => fails_with(
                    outcome,
                    ErrorView::Other("could not determine application data directory"@),
                ),
            },
    {
        match portable {
            Some(place) => Ok(RegistryStore::new_portable(place)),
            None => match system {
                Some(place) => Ok(RegistryStore::new(place)),
                None => Err(
                    Error::Other("could not determine application data directory".to_owned()),
                ),
            },
        }
    }

    /// A store that keeps its data in a directory.
    pub fn new(data_root: Place) -> (store: RegistryStore)
        ensures
            store@ == (StoreView { data_root: data_root@, portable: false }),
    {
        RegistryStore { data_root, portable: false }
    }

    /// A store beside a portable application, whose data moves with it.
    pub fn new_portable(data_root: Place) -> (store: RegistryStore)
        ensures
            store@ == (StoreView { data_root: data_root@, portable: true }),
    {
        RegistryStore { data_root, portable: true }
    }

    /// The directory of the data.
    pub fn data_root(&self) -> (place: &Place)
        ensures
            place@ == self@.data_root,
    {
        &self.data_root
    }

    /// The directory of the installations.
    pub fn installs_dir(&self) -> (place: Place)
        ensures
            place@ == self@.installs_dir(),
    {
        self.data_root.child("installs")
    }

    /// The directory of the catalogs that were fetched.
    pub fn cache_dir(&self) -> (place: Place)
        ensures
            place@ == self@.data_root.below(seq!["catalog-cache"@]),
    {
        self.data_root.child("catalog-cache")
    }

    /// The file of the registry.
    pub fn registry_path(&self) -> (place: Place)
        ensures
            place@ == self@.data_root.below(seq!["registry.json"@]),
    {
        self.data_root.child("registry.json")
    }

    /// A copy of the store.
    pub fn copy(&self) -> (store: RegistryStore)
        ensures
            store@ == self@,
    {
        RegistryStore { data_root: self.data_root.copy(), portable: self.portable }
    }

    /// The error for a directory that cannot be written to.
    pub fn not_writable(&self, source: &str) -> (error: Error)
        ensures
            error@ == ErrorView::Other(
                if self@.portable {
                    "portable data folder "@ + self@.data_root.shown + " is not writable: "@
                        + source@
                        + "; extract or move UCI Grabber to a writable folder"@
                } else {
                    "application data folder "@ + self@.data_root.shown + " is not writable: "@
                        + source@
                },
            ),
    {
        let shown = self.data_root.shown.as_str();
        if self.portable {
            Error::Other(
                join5(
                    "portable data folder ",
                    shown,
                    " is not writable: ",
                    source,
                    "; extract or move UCI Grabber to a writable folder",
                ),
            )
        } else {
            Error::Other(
                join4("application data folder ", shown, " is not writable: ", source),
            )
        }
    }

    /// The directory of an installation.
    pub fn generation(&self, recipe: &str, model: &str, version: &str, platform: &str) -> (place:
        Place)
        ensures
            place@ == self@.generation(recipe@, model@, version@, platform@),
    {
        let mut names: Vec<String> = Vec::new();
        names.push(recipe.to_owned());
        names.push(model.to_owned());
        names.push(version.to_owned());
        names.push(platform.to_owned());
        assert(texts_view(names@) =~= seq![recipe@, model@, version@, platform@]);
        self.installs_dir().below(&names)
    }

    /// Moves the paths of a record to where the store keeps its data now, given what its
    /// identifiers are as names of directories; a record that cannot be moved stays as it is.
    pub fn rebase_given(&self, record: &mut InstallRecord, names: &IdNames) -> (outcome: Result<
        (),
        Error,
    >)
        ensures
            match self@.rebase(old(record)@, names@) {
                Ok(moved) => outcome is Ok && final(record)@ == moved,
                Err(error) => fails_with(outcome, error) && final(record)@ == old(record)@,
            },
    {
        if !self.portable {
            return Ok(());
        }
        let recipe = match &names.recipe {
            Some(name) => name,
            None => {
                return Err(component_fault("recipe"));
            },
        };
        let model = match &names.model {
            Some(name) => name,
            None => {
                return Err(component_fault("model"));
            },
        };
        let version = match &names.version {
            Some(name) => name,
            None => {
                return Err(component_fault("version"));
            },
        };
        let platform = match &names.platform {
            Some(name) => name,
            None => {
                return Err(component_fault("platform"));
            },
        };
        let generation = join_name(
            &join_name(
                &join_name(
                    &join_name(&self.installs_dir(), record.recipe_id.as_str(), recipe.as_str()),
                    record.model_id.as_str(),
                    model.as_str(),
                ),
                record.version.as_str(),
                version.as_str(),
            ),
            record.platform.as_str(),
            platform.as_str(),
        );
        if generation.same(&record.generation_root) {
            return Ok(());
        }
        let executable = match record.executable.strip_prefix(&record.generation_root) {
            Some(parts) => parts,
            None => {
                return Err(
                    Error::Other("portable registry executable escaped its generation".to_owned()),
                );
            },
        };
        let working = match record.working_directory.strip_prefix(&record.generation_root) {
            Some(parts) => parts,
            None => {
                return Err(
                    Error::Other(
                        "portable registry working directory escaped its generation".to_owned(),
                    ),
                );
            },
        };
        match (safe_relative_path(&executable, false), safe_relative_path(&working, true)) {
            (Some(executable_names), Some(working_names)) => {
                let executable_text = record.executable.text_below(&record.generation_root);
                let working_text = record.working_directory.text_below(&record.generation_root);
                record.executable = generation.joined(executable_text.as_str(), &executable_names);
                record.working_directory = generation.joined(working_text.as_str(), &working_names);
                record.generation_root = generation;
                Ok(())
            },
            _ => Err(
                Error::Other(
                    "portable registry contains a non-portable installed path".to_owned(),
                ),
            ),
        }
    }

    /// Moves the paths of a record to where the store keeps its data now.
    pub fn rebase_portable_record(&self, record: &mut InstallRecord) -> (outcome: Result<(), Error>)
        ensures
            exists|names: IdNamesView|
                {
                    &&& may_be_names(old(record)@, names)
                    &&& match #[trigger] self@.rebase(old(record)@, names) {
                        Ok(moved) => outcome is Ok && final(record)@ == moved,
                        Err(error) => fails_with(outcome, error) && final(record)@ == old(record)@,
                    }
                },
    {
        let names = IdNames::of(record);
        let ghost before = record@;
        let outcome = self.rebase_given(record, &names);
        proof {
            let used = names@;
            assert(match self@.rebase(before, used) {
                Ok(moved) => outcome is Ok && record@ == moved,
                Err(error) => fails_with(outcome, error) && record@ == before,
            });
        }
        outcome
    }
}

/// Where the store keeps its data now, a record need not be moved again.
pub proof fn rebasing_is_done_once(store: StoreView, record: RecordView, names: IdNamesView)
    ensures
        store.rebase(record, names) matches Ok(moved) ==> store.rebase(moved, names) == Ok::<
            RecordView,
            ErrorView,
        >(moved),
{
}

/// A record of a portable store that was moved lies where the store keeps its data: its directory
/// is four names below that of the installations, none of which leads elsewhere; its executable and
/// its working directory lie within it, and as far below it as before.
pub proof fn rebased_records_lie_in_the_store(
    store: StoreView,
    record: RecordView,
    names: IdNamesView,
)
    requires
        store.portable,
        may_be_names(record, names),
        record.executable.within(record.generation_root),
        record.working_directory.within(record.generation_root),
    ensures
        store.rebase(record, names) matches Ok(moved) ==> {
            &&& moved.generation_root.within(store.installs_dir())
            &&& moved.generation_root.relative_to(store.installs_dir()).len() == 4
            &&& forall|i: int|
                0 <= i < 4 ==> ((#[trigger] moved.generation_root.relative_to(
                    store.installs_dir(),
                )[i]) matches PartView::Normal(name) && is_step_name(name))
            &&& moved.executable.within(moved.generation_root)
            &&& moved.working_directory.within(moved.generation_root)
            &&& moved.executable.relative_to(moved.generation_root)
                == record.executable.relative_to(record.generation_root)
            &&& moved.working_directory.relative_to(moved.generation_root)
                == record.working_directory.relative_to(record.generation_root)
        },
{
    match store.rebase(record, names) {
        Ok(moved) => {
            let generation = store.generation_of(record, names);
            let four = seq![names.recipe->0, names.model->0, names.version->0, names.platform->0];
            crate::place::joined_paths_stay_below(store.installs_dir(), four);
            assert(generation.parts =~= store.installs_dir().below(four).parts);
            assert(moved.generation_root.parts == generation.parts);
            if generation.parts != record.generation_root.parts {
                let executable = record.executable.relative_to(record.generation_root);
                let working = record.working_directory.relative_to(record.generation_root);
                crate::place::joined_paths_stay_below(generation, part_names(executable));
                crate::place::joined_paths_stay_below(generation, part_names(working));
                assert(crate::place::normal_parts(part_names(executable)) =~= executable);
                assert(crate::place::normal_parts(part_names(working)) =~= working);
            }
        },
        Err(_) => {},
    }
}

/// A portable record with an identifier that all machines agree is not a single name, such as `a/b`
/// or `..`, is refused, by the first such identifier.
pub proof fn unsafe_identifiers_are_refused(
    store: StoreView,
    record: RecordView,
    outcome: Result<RecordView, ErrorView>,
)
    requires
        store.portable,
        rebases_to(store, record, outcome),
    ensures
        refused_id(record.recipe_id) ==> outcome == Err::<RecordView, ErrorView>(
            component_error("recipe"@),
        ),
        is_plain_name(record.recipe_id) && refused_id(record.model_id) ==> outcome == Err::<
            RecordView,
            ErrorView,
        >(component_error("model"@)),
        is_plain_name(record.recipe_id) && is_plain_name(record.model_id) && refused_id(
            record.version,
        ) ==> outcome == Err::<RecordView, ErrorView>(component_error("version"@)),
        is_plain_name(record.recipe_id) && is_plain_name(record.model_id) && is_plain_name(
            record.version,
        ) && refused_id(record.platform) ==> outcome == Err::<RecordView, ErrorView>(
            component_error("platform"@),
        ),
{
}

/// Whether all machines agree that a text is not a single name.
pub open spec fn refused_id(text: Seq<char>) -> bool {
    agreed_parts(text) matches Some(agreed) && single_name(agreed) is None
}

/// What was read of a registry: how long it was, and what the JSON reader made of it.
pub struct RegistryDocument {
    pub length: u64,
    pub parsed: Result<Registry, String>,
}

/// Whether moving a record comes to an outcome, for names that its identifiers may be.
pub open spec fn rebases_to(
    store: StoreView,
    record: RecordView,
    outcome: Result<RecordView, ErrorView>,
) -> bool {
    exists|names: IdNamesView|
        {
            &&& may_be_names(record, names)
            &&& #[trigger] store.rebase(record, names) == outcome
        }
}

/// Why a registry document is not accepted before its records are looked at.
pub open spec fn document_fault(document: RegistryDocument) -> Option<ErrorView> {
    if document.length > MAX_REGISTRY_BYTES {
        Some(ErrorView::Other("registry exceeds 8 MiB safety limit"@))
    } else {
        match document.parsed {
            Err(message) => Some(ErrorView::Json(message@)),
            Ok(registry) => if registry.schema@ != REGISTRY_SCHEMA@ {
                Some(
                    ErrorView::Other(
                        "unsupported registry schema `"@ + registry.schema@ + "`"@,
                    ),
                )
            } else {
                None
            },
        }
    }
}

/// Whether each record of a registry is one of another moved to where the store keeps its data.
pub open spec fn records_moved(
    store: StoreView,
    before: Seq<InstallRecord>,
    after: Seq<InstallRecord>,
) -> bool {
    &&& after.len() == before.len()
    &&& forall|i: int|
        #![trigger after[i]]
        0 <= i < after.len() ==> rebases_to(store, before[i]@, Ok(after[i]@))
}

/// Whether a record can be moved.
pub open spec fn moves(store: StoreView, record: RecordView) -> bool {
    exists|moved: RecordView| #[trigger] rebases_to(store, record, Ok(moved))
}

/// Whether the record at a position is the first that does not move, for this error.
pub open spec fn stops_at(
    store: StoreView,
    records: Seq<InstallRecord>,
    i: int,
    error: ErrorView,
) -> bool {
    &&& 0 <= i < records.len()
    &&& forall|j: int| 0 <= j < i ==> moves(store, (#[trigger] records[j])@)
    &&& rebases_to(store, records[i]@, Err(error))
}

impl RegistryStore {
    /// The registry that a document holds, its records moved to where the store keeps its data;
    /// without a document, an empty one.
    pub fn load(&self, document: Option<RegistryDocument>) -> (outcome: Result<Registry, Error>)
        ensures
            match document {
                None => outcome matches Ok(registry) && registry.schema@ == REGISTRY_SCHEMA@
                    && registry.installs@.len() == 0,
                Some(document) => match document_fault(document) {
                    Some(error) => fails_with(outcome, error),
                    None => match outcome {
                        Ok(registry) => registry.schema@ == REGISTRY_SCHEMA@ && records_moved(
                            self@,
                            document.parsed->Ok_0.installs@,
                            registry.installs@,
                        ),
                        Err(error) => exists|i: int|
                            #[trigger] stops_at(
                                self@,
                                document.parsed->Ok_0.installs@,
                                i,
                                error@,
                            ),
                    },
                },
            },
    {
        let found = match document {
            Some(found) => found,
            None => {
                return Ok(Registry::default());
            },
        };
        if found.length > MAX_REGISTRY_BYTES {
            return Err(Error::Other("registry exceeds 8 MiB safety limit".to_owned()));
        }
        let registry = match found.parsed {
            Ok(registry) => registry,
            Err(message) => {
                return Err(Error::Json(message));
            },
        };
        if !same_text(registry.schema.as_str(), REGISTRY_SCHEMA) {
            return Err(
                Error::Other(
                    join3("unsupported registry schema `", registry.schema.as_str(), "`"),
                ),
            );
        }
        let ghost before = registry.installs@;
        let mut remaining = registry.installs;
        let mut moved: Vec<InstallRecord> = Vec::new();
        let total = remaining.len();
        assert(before.skip(0) =~= before);
        for i in 0..total
            invariant
                total == before.len(),
                remaining@ == before.skip(i as int),
                records_moved(self@, before.take(i as int), moved@),
                document is Some,
                document->0.parsed is Ok,
                document_fault(document->0) is None,
                before == document->0.parsed->Ok_0.installs@,
        {
            let mut record = remaining.remove(0);
            proof {
                assert(record == before[i as int]);
                assert(remaining@ =~= before.skip(i + 1));
            }
            let ghost start = record@;
            match self.rebase_portable_record(&mut record) {
                Err(error) => {
                    proof {
                        assert(rebases_to(self@, start, Err(error@)));
                        assert(before[i as int]@ == start);
                        assert forall|j: int| 0 <= j < i implies moves(
                            self@,
                            (#[trigger] before[j])@,
                        ) by {
                            assert(before.take(i as int)[j] == before[j]);
                            assert(rebases_to(self@, before[j]@, Ok(moved@[j]@)));
                        }
                        assert(stops_at(self@, before, i as int, error@));
                    }
                    return Err(error);
                },
                Ok(()) => {
                    let ghost earlier = moved@;
                    moved.push(record);
                    proof {
                        assert(rebases_to(self@, start, Ok(record@)));
                        assert forall|k: int|
                            #![trigger moved@[k]]
                            0 <= k < moved@.len() implies rebases_to(
                            self@,
                            before.take(i + 1)[k]@,
                            Ok(moved@[k]@),
                        ) by {
                            if k < i {
                                assert(earlier[k] == moved@[k]);
                                assert(before.take(i as int)[k] == before.take(i + 1)[k]);
                            }
                        }
                    }
                },
            }
        }
        assert(before.take(total as int) =~= before);
        Ok(Registry { schema: registry.schema, installs: moved })
    }

    /// Checks a registry before it is written.
    pub fn save(&self, registry: &Registry) -> (outcome: Result<(), Error>)
        ensures
            settles(
                outcome,
                if registry.schema@ != REGISTRY_SCHEMA@ {
                    Some(ErrorView::Other("refusing to write invalid registry schema"@))
                } else {
                    None
                },
            ),
    {
        if !same_text(registry.schema.as_str(), REGISTRY_SCHEMA) {
            Err(Error::Other("refusing to write invalid registry schema".to_owned()))
        } else {
            Ok(())
        }
    }

    /// The registry with a record in the place of the one with its identifier, in order.
    pub fn add(&self, registry: Registry, record: InstallRecord) -> (next: Registry)
        ensures
            next.schema == registry.schema,
            sorted_from(
                next.installs@,
                without(registry.installs@, record.install_id@).push(record),
            ),
    {
        let mut records = retain_others(registry.installs, record.install_id.as_str());
        records.push(record);
        Registry { schema: registry.schema, installs: sort(records) }
    }

    /// The registry without the record of an identifier, and whether there was one.
    pub fn forget(&self, registry: Registry, install_id: &str) -> (outcome: (Registry, bool))
        ensures
            outcome.0.schema == registry.schema,
            outcome.0.installs@ == without(registry.installs@, install_id@),
            outcome.1 == exists|i: int|
                0 <= i < registry.installs@.len() && (#[trigger] registry.installs@[i]).install_id@
                    == install_id@,
    {
        let original = registry.installs.len();
        let ghost all = registry.installs@;
        let kept = retain_others(registry.installs, install_id);
        let found = kept.len() != original;
        proof {
            lemma_without_len(all, install_id@);
        }
        (Registry { schema: registry.schema, installs: kept }, found)
    }

    /// The first record with an identifier.
    pub fn find<'a>(registry: &'a Registry, install_id: &str) -> (found: Option<&'a InstallRecord>)
        ensures
            match found {
                Some(record) => exists|i: int|
                    {
                        &&& 0 <= i < registry.installs@.len()
                        &&& *record == #[trigger] registry.installs@[i]
                        &&& record.install_id@ == install_id@
                        &&& forall|h: int|
                            0 <= h < i ==> (#[trigger] registry.installs@[h]).install_id@
                                != install_id@
                    },
                None => forall|i: int|
                    0 <= i < registry.installs@.len() ==> (
                    #[trigger] registry.installs@[i]).install_id@ != install_id@,
            },
    {
        for i in 0..registry.installs.len()
            invariant
                forall|h: int|
                    0 <= h < i ==> (#[trigger] registry.installs@[h]).install_id@ != install_id@,
        {
            if same_text(registry.installs[i].install_id.as_str(), install_id) {
                return Some(&registry.installs[i]);
            }
        }
        None
    }

    /// Checks, before an installation is removed, that it lies below the directory of the
    /// installations; both paths are free of links.
    pub fn check_removal(generation: &Place, installs: &Place) -> (outcome: Result<(), Error>)
        ensures
            settles(outcome, removal_fault(generation@, installs@)),
    {
        if !generation.starts_with(installs) || generation.same(installs) {
            Err(
                Error::Other(
                    join2(
                        "refusing to remove path outside install generations: ",
                        generation.shown.as_str(),
                    ),
                ),
            )
        } else {
            Ok(())
        }
    }

    /// The registry once an installation is removed, and whether its directory is to be deleted
    /// before the registry is written. `found` holds that directory and the one of all
    /// installations, both free of links, where the former is there.
    pub fn remove(&self, registry: Registry, install_id: &str, found: &Option<(Place, Place)>) -> (
        outcome: Result<Removal, Error>)
        ensures
            match *found {
                Some((generation, installs)) => if is_registered(registry.installs@, install_id@)
                    && removal_fault(generation@, installs@) is Some {
                    fails_with(outcome, removal_fault(generation@, installs@)->0)
                } else {
                    outcome matches Ok(removal) && removal.removes(
                        registry,
                        install_id@,
                        is_registered(registry.installs@, install_id@),
                    )
                },
                None => outcome matches Ok(removal) && removal.removes(
                    registry,
                    install_id@,
                    false,
                ),
            },
    {
        if RegistryStore::find(&registry, install_id).is_none() {
            proof {
                lemma_without_nothing(registry.installs@, install_id@);
            }
            return Ok(Removal { registry, removed: false, delete: false });
        }
        let delete = match found {
            Some((generation, installs)) => {
                match RegistryStore::check_removal(generation, installs) {
                    Ok(()) => true,
                    Err(error) => {
                        return Err(error);
                    },
                }
            },
            None => false,
        };
        let (registry, removed) = self.forget(registry, install_id);
        Ok(Removal { registry, removed, delete })
    }

    /// What a look at an installation says of it; nothing, where a further look is needed.
    pub fn integrity(record: &InstallRecord, finding: &Finding) -> (verdict: Option<Integrity>)
        ensures
            match verdict {
                Some(found) => integrity_of(record@, finding@) == Some(found@),
                None => integrity_of(record@, finding@) is None,
            },
    {
        match finding {
            Finding::Absent => Some(Integrity::Missing),
            Finding::Escaped => Some(
                Integrity::Changed {
                    expected: record.executable_sha256.clone(),
                    actual: "executable escaped its generation".to_owned(),
                },
            ),
            Finding::Executable { sha256 } => if equal_ignoring_ascii_case(
                sha256.as_str(),
                record.executable_sha256.as_str(),
            ) {
                None
            } else {
                Some(
                    Integrity::Changed {
                        expected: record.executable_sha256.clone(),
                        actual: sha256.clone(),
                    },
                )
            },
            Finding::Package { snapshot } => if equal_ignoring_ascii_case(
                snapshot.sha256.as_str(),
                record.package_sha256.as_str(),
            ) && snapshot.file_count == record.package_file_count && snapshot.byte_count
                == record.package_byte_count {
                Some(Integrity::Verified)
            } else {
                Some(
                    Integrity::Changed {
                        expected: record.package_sha256.clone(),
                        actual: snapshot.sha256.clone(),
                    },
                )
            },
        }
    }
}

/// Why an installation must not be removed.
pub open spec fn removal_fault(generation: PlaceView, installs: PlaceView) -> Option<ErrorView> {
    if !generation.within(installs) || generation.parts == installs.parts {
        Some(
            ErrorView::Other(
                "refusing to remove path outside install generations: "@ + generation.shown,
            ),
        )
    } else {
        None
    }
}

proof fn lemma_without_len(records: Seq<InstallRecord>, install_id: Seq<char>)
    ensures
        without(records, install_id).len() <= records.len(),
        without(records, install_id).len() < records.len() <==> exists|i: int|
            0 <= i < records.len() && (#[trigger] records[i]).install_id@ == install_id,
    decreases records.len(),
{
    if records.len() == 0 {
        assert(without(records, install_id).len() == 0) by {
            reveal(Seq::filter);
        }
    } else {
        let front = records.drop_last();
        let last = records.last();
        lemma_without_len(front, install_id);
        assert(records =~= front.push(last));
        lemma_filter_push(front, last, other_than(install_id));
        if exists|i: int|
            0 <= i < front.len() && (#[trigger] front[i]).install_id@ == install_id {
            let i = choose|i: int|
                0 <= i < front.len() && (#[trigger] front[i]).install_id@ == install_id;
            assert(records[i].install_id@ == install_id);
        }
        if last.install_id@ == install_id {
            assert(records[records.len() - 1].install_id@ == install_id);
        } else if exists|i: int|
            0 <= i < records.len() && (#[trigger] records[i]).install_id@ == install_id {
            let i = choose|i: int|
                0 <= i < records.len() && (#[trigger] records[i]).install_id@ == install_id;
            assert(front[i].install_id@ == install_id);
        }
    }
}

/// Whether an installation is what was installed.
#[derive(Clone, Debug, PartialEq, Eq)]
pub enum Integrity {
    Verified,
    Missing,
    Changed { expected: String, actual: String },
}

/// An [`Integrity`] with its texts as sequences.
pub enum IntegrityView {
    Verified,
    Missing,
    Changed { expected: Seq<char>, actual: Seq<char> },
}

impl View for Integrity {
    type V = IntegrityView;

    open spec fn view(&self) -> IntegrityView {
        match *self {
            Integrity::Verified => IntegrityView::Verified,
            Integrity::Missing => IntegrityView::Missing,
            Integrity::Changed { expected, actual } => IntegrityView::Changed {
                expected: expected@,
                actual: actual@,
            },
        }
    }
}

/// What a look at an installation found, each look going further than the one before.
#[derive(Clone, Debug, PartialEq, Eq)]
pub enum Finding {
    /// The directory or the executable is not there.
    Absent,
    /// The executable, free of links, lies outside the directory.
    Escaped,
    /// The executable has this digest.
    Executable { sha256: String },
    /// The executable is as it was, and the package has this snapshot.
    Package { snapshot: PackageSnapshot },
}

/// A [`Finding`] with its texts as sequences.
pub enum FindingView {
    Absent,
    Escaped,
    Executable { sha256: Seq<char> },
    Package { snapshot: SnapshotView },
}

impl View for Finding {
    type V = FindingView;

    open spec fn view(&self) -> FindingView {
        match *self {
            Finding::Absent => FindingView::Absent,
            Finding::Escaped => FindingView::Escaped,
            Finding::Executable { sha256 } => FindingView::Executable { sha256: sha256@ },
            Finding::Package { snapshot } => FindingView::Package { snapshot: snapshot@ },
        }
    }
}

/// What a look at an installation says of it.
pub open spec fn integrity_of(record: RecordView, finding: FindingView) -> Option<IntegrityView> {
    match finding {
        FindingView::Absent => Some(IntegrityView::Missing),
        FindingView::Escaped => Some(
            IntegrityView::Changed {
                expected: record.executable_sha256,
                actual: "executable escaped its generation"@,
            },
        ),
        FindingView::Executable { sha256 } => if same_but_ascii_case(
            sha256,
            record.executable_sha256,
        ) {
            None
        } else {
            Some(
                IntegrityView::Changed { expected: record.executable_sha256, actual: sha256 },
            )
        },
        FindingView::Package { snapshot } => if same_but_ascii_case(
            snapshot.sha256,
            record.package_sha256,
        ) && snapshot.file_count == record.package_file_count && snapshot.byte_count
            == record.package_byte_count {
            Some(IntegrityView::Verified)
        } else {
            Some(
                IntegrityView::Changed {
                    expected: record.package_sha256,
                    actual: snapshot.sha256,
                },
            )
        },
    }
}

/// Whether there is a record of an identifier.
pub open spec fn is_registered(records: Seq<InstallRecord>, install_id: Seq<char>) -> bool {
    exists|i: int| 0 <= i < records.len() && (#[trigger] records[i]).install_id@ == install_id
}

/// What comes of removing an installation.
pub struct Removal {
    pub registry: Registry,
    /// Whether there was such an installation.
    pub removed: bool,
    /// Whether its directory is to be deleted.
    pub delete: bool,
}

impl Removal {
    /// This is what comes of removing an installation from a registry.
    pub open spec fn removes(self, registry: Registry, install_id: Seq<char>, delete: bool) -> bool {
        &&& self.registry.schema == registry.schema
        &&& self.registry.installs@ == without(registry.installs@, install_id)
        &&& self.removed == is_registered(registry.installs@, install_id)
        &&& self.delete == delete
    }
}

proof fn lemma_without_nothing(records: Seq<InstallRecord>, install_id: Seq<char>)
    requires
        !is_registered(records, install_id),
    ensures
        without(records, install_id) == records,
    decreases records.len(),
{
    reveal(Seq::filter);
    if records.len() > 0 {
        assert forall|i: int| 0 <= i < records.len() implies (
        #[trigger] records[i]).install_id@ != install_id by {
            assert(!(records[i].install_id@ == install_id));
        }
        assert(!is_registered(records.drop_last(), install_id));
        lemma_without_nothing(records.drop_last(), install_id);
        assert(records.drop_last().push(records.last()) =~= records);
    }
}

/// Every change of an installed package is found, where SHA-256 tells the packages apart: the
/// installation is as it was made if and only if its files are those that it was made of, and has
/// changed otherwise.
pub proof fn every_change_of_a_package_is_found(
    record: RecordView,
    made: Seq<ContentView>,
    found: Seq<ContentView>,
)
    requires
        record.package_sha256 == snapshot_of(hashed_files(made)).sha256,
        record.package_file_count == snapshot_of(hashed_files(made)).file_count,
        record.package_byte_count == snapshot_of(hashed_files(made)).byte_count,
        forall|i: int| 0 <= i < made.len() ==> is_writable(hashed_file(#[trigger] made[i])),
        forall|i: int| 0 <= i < found.len() ==> is_writable(hashed_file(#[trigger] found[i])),
        packages_told_apart(found, made),
    ensures
        integrity_of(
            record,
            FindingView::Package { snapshot: snapshot_of(hashed_files(found)) },
        ) == if found == made {
            Some(IntegrityView::Verified)
        } else {
            Some(
                IntegrityView::Changed {
                    expected: record.package_sha256,
                    actual: snapshot_of(hashed_files(found)).sha256,
                },
            )
        },
{
    snapshots_tell_packages_apart(found, made);
}

/// A changed executable is found before the rest of its package is looked at, where SHA-256 tells
/// the two apart; one that is gone is missing.
pub proof fn changed_executables_are_found(record: RecordView, made: Seq<u8>, found: Seq<u8>)
    requires
        record.executable_sha256 == hex(sha256(made)),
        told_apart(found, made),
    ensures
        integrity_of(record, FindingView::Executable { sha256: hex(sha256(found)) }) == if found
            == made {
            None
        } else {
            Some(
                IntegrityView::Changed {
                    expected: record.executable_sha256,
                    actual: hex(sha256(found)),
                },
            )
        },
        integrity_of(record, FindingView::Absent) == Some(IntegrityView::Missing),
{
    hexadecimal_tells_bytes_apart(sha256(found), sha256(made));
}

/// Nothing that lies outside the directory of the installations is removed, nor that directory
/// itself.
pub proof fn only_generations_are_removed(generation: PlaceView, installs: PlaceView)
    requires
        removal_fault(generation, installs) is None,
    ensures
        generation.within(installs),
        generation.parts.len() > installs.parts.len(),
{
    if generation.parts.len() == installs.parts.len() {
        assert(generation.parts.take(installs.parts.len() as int) =~= generation.parts);
    }
}

/// After a record was added the registry holds it, no other record with its identifier, and every
/// record with another identifier that it held before.
pub proof fn added_records_are_found(
    before: Seq<InstallRecord>,
    record: InstallRecord,
    after: Seq<InstallRecord>,
    other: InstallRecord,
)
    requires
        sorted_from(after, without(before, record.install_id@).push(record)),
    ensures
        after.contains(record),
        after.contains(other) && other.install_id@ == record.install_id@ ==> other == record,
        other.install_id@ != record.install_id@ ==> (after.contains(other) <==> before.contains(
            other,
        )),
{
    let kept = without(before, record.install_id@);
    let list = kept.push(record);
    sorting_keeps_every_value(after, list, record);
    sorting_keeps_every_value(after, list, other);
    lemma_filter_keeps(before, other_than(record.install_id@), other);
    assert(list[kept.len() as int] == record);
    if list.contains(other) && other != record {
        let i = list.index_of(other);
        assert(kept[i] == other);
    }
    if kept.contains(other) {
        let i = kept.index_of(other);
        assert(list[i] == other);
    }
}

/// After a record was forgotten the registry holds no record with its identifier, and every other
/// one that it held before.
pub proof fn forgotten_records_are_gone(
    before: Seq<InstallRecord>,
    install_id: Seq<char>,
    other: InstallRecord,
)
    ensures
        without(before, install_id).contains(other) <==> before.contains(other)
            && other.install_id@ != install_id,
{
    lemma_filter_keeps(before, other_than(install_id), other);
}

/// Adding a record twice is adding it once.
pub proof fn adding_twice_is_adding_once(
    before: Seq<InstallRecord>,
    record: InstallRecord,
    once: Seq<InstallRecord>,
    twice: Seq<InstallRecord>,
)
    requires
        sorted_from(once, without(before, record.install_id@).push(record)),
        sorted_from(twice, without(once, record.install_id@).push(record)),
    ensures
        twice == once,
{
    let others = other_than(record.install_id@);
    let kept = before.filter(others);
    let again = once.filter(others);
    assert forall|one: InstallRecord| #[trigger] once.filter(ranked_as(one)) == again.push(
        record,
    ).filter(ranked_as(one)) by {
        let ranked = ranked_as(one);
        lemma_filters_commute(once, others, ranked);
        lemma_filter_push(kept, record, ranked);
        lemma_filter_push(again, record, ranked);
        assert(once.filter(ranked) == kept.push(record).filter(ranked));
        let same = kept.filter(ranked);
        assert forall|i: int| 0 <= i < same.len() implies others(#[trigger] same[i]) by {
            assert(same.contains(same[i]));
            lemma_filter_keeps(kept, ranked, same[i]);
            lemma_filter_keeps(before, others, same[i]);
        }
        lemma_filter_all(same, others);
        lemma_filter_push(same, record, others);
    }
    assert(sorted_from(once, again.push(record)));
    sorting_has_one_result(twice, once, again.push(record));
}

/// Forgetting a record twice is forgetting it once: the second time there is none.
pub proof fn forgetting_twice_is_forgetting_once(before: Seq<InstallRecord>, install_id: Seq<char>)
    ensures
        without(without(before, install_id), install_id) == without(before, install_id),
        !is_registered(without(before, install_id), install_id),
{
    let kept = without(before, install_id);
    assert forall|i: int| 0 <= i < kept.len() implies other_than(install_id)(#[trigger] kept[i]) by {
        assert(kept.contains(kept[i]));
        lemma_filter_keeps(before, other_than(install_id), kept[i]);
    }
    lemma_filter_all(kept, other_than(install_id));
}

/// A record that was added to a registry without its identifier and forgotten again leaves the
/// records that were there.
pub proof fn forgetting_undoes_adding(
    before: Seq<InstallRecord>,
    record: InstallRecord,
    after: Seq<InstallRecord>,
    other: InstallRecord,
)
    requires
        !is_registered(before, record.install_id@),
        sorted_from(after, without(before, record.install_id@).push(record)),
    ensures
        without(after, record.install_id@).contains(other) <==> before.contains(other),
        before.len() == 0 ==> without(after, record.install_id@).len() == 0,
{
    added_records_are_found(before, record, after, other);
    forgotten_records_are_gone(after, record.install_id@, other);
    if before.contains(other) {
        let i = before.index_of(other);
        assert(before[i].install_id@ != record.install_id@);
    }
    if before.len() == 0 {
        let left = without(after, record.install_id@);
        if left.len() > 0 {
            assert(left.contains(left[0]));
            added_records_are_found(before, record, after, left[0]);
            forgotten_records_are_gone(after, record.install_id@, left[0]);
        }
    }
}

/// Whether all machines agree on what the identifiers of a record are.
pub open spec fn has_agreed_ids(record: RecordView) -> bool {
    agreed_parts(record.recipe_id) is Some && agreed_parts(record.model_id) is Some && agreed_parts(
        record.version,
    ) is Some && agreed_parts(record.platform) is Some
}

/// Whether a record is where a store keeps its data, on every machine: moving it changes nothing.
pub open spec fn is_settled(store: StoreView, record: RecordView) -> bool {
    forall|names: IdNamesView|
        may_be_names(record, names) ==> #[trigger] store.rebase(record, names) == Ok::<
            RecordView,
            ErrorView,
        >(record)
}

/// A record that a store loaded is where the store keeps its data. Of a portable store this holds
/// for identifiers on which all machines agree; of any other, for every record.
pub proof fn loaded_records_are_settled(store: StoreView, record: RecordView, moved: RecordView)
    requires
        store.portable ==> has_agreed_ids(record),
        rebases_to(store, record, Ok(moved)),
    ensures
        is_settled(store, moved),
        !store.portable ==> moved == record,
{
    let names = choose|names: IdNamesView|
        {
            &&& may_be_names(record, names)
            &&& #[trigger] store.rebase(record, names) == Ok::<RecordView, ErrorView>(moved)
        };
    rebasing_is_done_once(store, record, names);
    assert forall|again: IdNamesView| may_be_names(moved, again) implies #[trigger] store.rebase(
        moved,
        again,
    ) == Ok::<RecordView, ErrorView>(moved) by {
        if store.portable {
            assert(again =~= names);
        }
    }
}

/// Records that are where a store keeps its data load as they were saved.
pub proof fn settled_records_load_as_they_were(
    store: StoreView,
    saved: Seq<InstallRecord>,
    loaded: Seq<InstallRecord>,
)
    requires
        forall|i: int| 0 <= i < saved.len() ==> is_settled(store, (#[trigger] saved[i])@),
        records_moved(store, saved, loaded),
    ensures
        loaded.len() == saved.len(),
        forall|i: int| 0 <= i < saved.len() ==> (#[trigger] loaded[i])@ == saved[i]@,
{
    assert forall|i: int| 0 <= i < saved.len() implies (#[trigger] loaded[i])@ == saved[i]@ by {
        assert(is_settled(store, saved[i]@));
        assert(rebases_to(store, saved[i]@, Ok(loaded[i]@)));
    }
}

/// A store that is not portable loads the records that were saved, as they were.
pub proof fn fixed_stores_load_what_was_saved(
    store: StoreView,
    saved: Seq<InstallRecord>,
    loaded: Seq<InstallRecord>,
)
    requires
        !store.portable,
        records_moved(store, saved, loaded),
    ensures
        loaded.len() == saved.len(),
        forall|i: int| 0 <= i < saved.len() ==> (#[trigger] loaded[i])@ == saved[i]@,
{
    settled_records_load_as_they_were(store, saved, loaded);
}

/// What a store loaded and saved again, it loads as it was: the same records in the same order. Of
/// a portable store this holds for identifiers on which all machines agree.
pub proof fn stores_load_what_they_saved(
    store: StoreView,
    first: Seq<InstallRecord>,
    saved: Seq<InstallRecord>,
    loaded: Seq<InstallRecord>,
)
    requires
        store.portable ==> forall|i: int|
            0 <= i < first.len() ==> has_agreed_ids((#[trigger] first[i])@),
        records_moved(store, first, saved),
        records_moved(store, saved, loaded),
    ensures
        loaded.len() == saved.len(),
        forall|i: int| 0 <= i < saved.len() ==> (#[trigger] loaded[i])@ == saved[i]@,
{
    lemma_settled(store, first, saved);
    settled_records_load_as_they_were(store, saved, loaded);
}

proof fn lemma_settled(store: StoreView, first: Seq<InstallRecord>, loaded: Seq<InstallRecord>)
    requires
        store.portable ==> forall|i: int|
            0 <= i < first.len() ==> has_agreed_ids((#[trigger] first[i])@),
        records_moved(store, first, loaded),
    ensures
        forall|i: int| 0 <= i < loaded.len() ==> is_settled(store, (#[trigger] loaded[i])@),
{
    assert forall|i: int| 0 <= i < loaded.len() implies is_settled(store, (#[trigger] loaded[i])@) by {
        assert(first[i] == first[i]);
        assert(rebases_to(store, first[i]@, Ok(loaded[i]@)));
        loaded_records_are_settled(store, first[i]@, loaded[i]@);
    }
}

/// Once a record was forgotten and the registry saved, the store loads the other records, as they
/// were and in the same order, and forgetting it again finds none. Of a portable store this holds
/// for identifiers on which all machines agree.
pub proof fn forgetting_lasts(
    store: StoreView,
    first: Seq<InstallRecord>,
    before: Seq<InstallRecord>,
    install_id: Seq<char>,
    after: Seq<InstallRecord>,
)
    requires
        store.portable ==> forall|i: int|
            0 <= i < first.len() ==> has_agreed_ids((#[trigger] first[i])@),
        records_moved(store, first, before),
        records_moved(store, without(before, install_id), after),
    ensures
        after.len() == without(before, install_id).len(),
        forall|i: int|
            0 <= i < after.len() ==> (#[trigger] after[i])@ == without(before, install_id)[i]@,
        !is_registered(after, install_id),
{
    let kept = without(before, install_id);
    lemma_settled(store, first, before);
    assert forall|i: int| 0 <= i < kept.len() implies is_settled(store, (#[trigger] kept[i])@)
        && kept[i].install_id@ != install_id by {
        assert(kept.contains(kept[i]));
        forgotten_records_are_gone(before, install_id, kept[i]);
        let k = before.index_of(kept[i]);
        assert(is_settled(store, before[k]@));
    }
    settled_records_load_as_they_were(store, kept, after);
    assert forall|i: int| 0 <= i < after.len() implies (#[trigger] after[i]).install_id@
        != install_id by {
        assert(after[i]@ == kept[i]@);
        assert(after[i]@.install_id == after[i].install_id@);
        assert(kept[i]@.install_id == kept[i].install_id@);
    }
}

/// Where a portable application keeps its data, given where its marker stands.
pub open spec fn portable_root(
    executable: PlaceView,
    marker_beside: bool,
    marker_in_resources: bool,
) -> Option<PlaceView> {
    match executable.parent() {
        None => None,
        Some(directory) => if marker_beside {
            Some(directory.below(seq![PORTABLE_DATA_DIRECTORY@]))
        } else {
            match directory.parent() {
                None => None,
                Some(contents) => if directory.file_name() == Some("MacOS"@)
                    && marker_in_resources {
                    match contents.parent() {
                        None => None,
                        Some(bundle) => match bundle.parent() {
                            None => None,
                            Some(outside) => Some(
                                outside.below(seq![PORTABLE_DATA_DIRECTORY@]),
                            ),
                        },
                    }
                } else {
                    None
                },
            }
        },
    }
}

/// Where a portable application keeps its data: beside its executable, where the marker stands
/// there; beside its bundle, where the executable lies in `MacOS` and the marker in `Resources`.
pub fn portable_data_root(
    executable: &Place,
    marker_beside: bool,
    marker_in_resources: bool,
) -> (root: Option<Place>)
    ensures
        match root {
            Some(place) => portable_root(executable@, marker_beside, marker_in_resources) == Some(
                place@,
            ),
            None => portable_root(executable@, marker_beside, marker_in_resources) is None,
        },
{
    let directory = match executable.parent() {
        Some(directory) => directory,
        None => {
            return None;
        },
    };
    if marker_beside {
        return Some(directory.child(PORTABLE_DATA_DIRECTORY));
    }
    let contents = match directory.parent() {
        Some(contents) => contents,
        None => {
            return None;
        },
    };
    let in_bundle = match directory.file_name() {
        Some(name) => same_text(name.as_str(), "MacOS"),
        None => false,
    };
    if !in_bundle || !marker_in_resources {
        return None;
    }
    match contents.parent() {
        None => None,
        Some(bundle) => match bundle.parent() {
            None => None,
            Some(outside) => Some(outside.child(PORTABLE_DATA_DIRECTORY)),
        },
    }
}

/// Where the marker of a portable application may stand: beside its executable, and in the
/// resources of its bundle.
pub fn marker_places(executable: &Place) -> (places: (Option<Place>, Option<Place>))
    ensures
        match executable@.parent() {
            None => places.0 is None && places.1 is None,
            Some(directory) => {
                &&& places.0 matches Some(beside) && beside@ == directory.below(
                    seq![PORTABLE_MARKER@],
                )
                &&& match directory.parent() {
                    None => places.1 is None,
                    Some(contents) => places.1 matches Some(inside) && inside@ == contents.below(
                        seq!["Resources"@, PORTABLE_MARKER@],
                    ),
                }
            },
        },
{
    match executable.parent() {
        None => (None, None),
        Some(directory) => {
            let beside = directory.child(PORTABLE_MARKER);
            match directory.parent() {
                None => (Some(beside), None),
                Some(contents) => {
                    let inside = contents.child("Resources").child(PORTABLE_MARKER);
                    proof {
                        crate::place::joins_add_up(
                            contents@,
                            seq!["Resources"@],
                            seq![PORTABLE_MARKER@],
                        );
                        assert(seq!["Resources"@] + seq![PORTABLE_MARKER@] =~= seq![
                            "Resources"@,
                            PORTABLE_MARKER@,
                        ]);
                    }
                    (Some(beside), Some(inside))
                },
            }
        },
    }
}

/// What a look at an installation says: nothing yet of an executable whose digest is the recorded
/// one, that it is as it was made of a package with the recorded digest, number of files and number
/// of bytes, and that it has changed of anything else, with the recorded digest and the one that
/// was found.
pub proof fn installations_are_held_to_their_record(
    record: RecordView,
    sha256: Seq<char>,
    snapshot: SnapshotView,
)
    ensures
        integrity_of(record, FindingView::Executable { sha256: record.executable_sha256 }) is None,
        integrity_of(
            record,
            FindingView::Package {
                snapshot: (SnapshotView {
                    sha256: record.package_sha256,
                    file_count: record.package_file_count,
                    byte_count: record.package_byte_count,
                }),
            },
        ) == Some(IntegrityView::Verified),
        !same_but_ascii_case(sha256, record.executable_sha256) ==> integrity_of(
            record,
            FindingView::Executable { sha256 },
        ) == Some(
            IntegrityView::Changed { expected: record.executable_sha256, actual: sha256 },
        ),
        snapshot.file_count != record.package_file_count || snapshot.byte_count
            != record.package_byte_count || !same_but_ascii_case(
            snapshot.sha256,
            record.package_sha256,
        ) ==> integrity_of(record, FindingView::Package { snapshot }) == Some(
            IntegrityView::Changed { expected: record.package_sha256, actual: snapshot.sha256 },
        ),
        integrity_of(record, FindingView::Absent) == Some(IntegrityView::Missing),
        integrity_of(record, FindingView::Escaped) matches Some(IntegrityView::Changed { expected, .. })
            && expected == record.executable_sha256,
{
}

/// Records are ordered by name, those of one name by version, and those of one name and one version
/// by platform.
pub proof fn records_are_ordered_by_name_first(left: InstallRecord, right: InstallRecord)
    ensures
        left.name@ != right.name@ ==> left.before(right) == text_less(left.name@, right.name@),
        left.name@ == right.name@ && left.version@ != right.version@ ==> left.before(right)
            == text_less(left.version@, right.version@),
        left.name@ == right.name@ && left.version@ == right.version@ ==> left.before(right)
            == text_less(left.platform@, right.platform@),
{
    lemma_less_irreflexive(left.name@);
    lemma_less_irreflexive(left.version@);
}

/// A registry document is read if and only if it has at most 8 MiB, the JSON reader takes it, and
/// it is of the first schema.
pub proof fn registries_have_at_most_8_mib(document: RegistryDocument)
    ensures
        document_fault(document) is None <==> document.length <= 8388608 && (
        document.parsed matches Ok(registry) && registry.schema@ == "uci-grabber-registry/v1"@),
{
}

/// The directory of an installation is `installs` below that of the store, and below that recipe,
/// model, version and platform, in this order.
pub proof fn generations_have_five_names(
    store: StoreView,
    recipe: Seq<char>,
    model: Seq<char>,
    version: Seq<char>,
    platform: Seq<char>,
)
    ensures
        store.generation(recipe, model, version, platform).parts == store.data_root.parts + seq![
            PartView::Normal("installs"@),
            PartView::Normal(recipe),
            PartView::Normal(model),
            PartView::Normal(version),
            PartView::Normal(platform),
        ],
        store.installs_dir().parts == store.data_root.parts.push(PartView::Normal("installs"@)),
{
    assert(store.installs_dir().parts =~= store.data_root.parts.push(
        PartView::Normal("installs"@),
    ));
}

/// Moving a record changes its paths alone, and puts its directory where the store keeps the
/// installation of that recipe, model, version and platform.
pub proof fn rebasing_changes_paths_alone(store: StoreView, record: RecordView, names: IdNamesView)
    ensures
        store.rebase(record, names) matches Ok(moved) ==> {
            &&& moved == RecordView {
                generation_root: moved.generation_root,
                executable: moved.executable,
                working_directory: moved.working_directory,
                ..record
            }
            &&& store.portable ==> moved.generation_root.parts == store.generation(
                names.recipe->0,
                names.model->0,
                names.version->0,
                names.platform->0,
            ).parts
            &&& !store.portable ==> moved == record
        },
        store.portable && (names.recipe is None || names.model is None || names.version is None
            || names.platform is None) ==> store.rebase(record, names) is Err,
{
    if store.portable && names.recipe is Some && names.model is Some && names.version is Some
        && names.platform is Some {
        assert(store.generation_of(record, names).parts =~= store.generation(
            names.recipe->0,
            names.model->0,
            names.version->0,
            names.platform->0,
        ).parts);
    }
}

/// Components are a single name if and only if there is one, and it is a name.
pub proof fn single_names_are_single_components(name: Seq<char>, parts: Seq<PartView>)
    ensures
        single_name(parts) == Some(name) <==> parts == seq![PartView::Normal(name)],
{
    if single_name(parts) == Some(name) {
        assert(parts =~= seq![PartView::Normal(name)]);
    }
}

/// An installation is removed if and only if its directory lies below that of the installations.
pub proof fn removals_lie_below_the_installations(generation: PlaceView, installs: PlaceView)
    ensures
        removal_fault(generation, installs) is None <==> generation.parts.len()
            > installs.parts.len() && generation.parts.take(installs.parts.len() as int)
            == installs.parts,
{
    if generation.parts.len() == installs.parts.len() {
        assert(generation.parts.take(installs.parts.len() as int) =~= generation.parts);
    }
}

/// A portable application keeps its data in `UCI-Grabber-Data` beside its executable, where the
/// marker stands there; else beside its bundle, where the executable lies in the directory `MacOS`
/// of one and the marker in its resources; else it is not portable.
pub proof fn portable_data_lies_beside_the_application(
    executable: PlaceView,
    outside: Seq<PartView>,
    bundle: Seq<char>,
    contents: Seq<char>,
    directory: Seq<char>,
    name: Seq<char>,
    in_resources: bool,
)
    requires
        executable.parts == outside + seq![
            PartView::Normal(bundle),
            PartView::Normal(contents),
            PartView::Normal(directory),
            PartView::Normal(name),
        ],
    ensures
        portable_root(executable, true, in_resources) matches Some(root) && root.parts == outside
            + seq![
            PartView::Normal(bundle),
            PartView::Normal(contents),
            PartView::Normal(directory),
            PartView::Normal("UCI-Grabber-Data"@),
        ],
        directory == "MacOS"@ ==> (portable_root(executable, false, true) matches Some(root)
            && root.parts == outside.push(PartView::Normal("UCI-Grabber-Data"@))),
        directory != "MacOS"@ || !in_resources ==> portable_root(executable, false, in_resources)
            is None,
{
    let four = executable.parts;
    assert(four.last() == PartView::Normal(name));
    assert(four.drop_last().last() == PartView::Normal(directory));
    assert(four.drop_last().drop_last().last() == PartView::Normal(contents));
    assert(four.drop_last().drop_last().drop_last().last() == PartView::Normal(bundle));
    assert(four.drop_last().drop_last().drop_last().drop_last() =~= outside);
    assert(four.drop_last() + seq![PartView::Normal("UCI-Grabber-Data"@)] =~= outside + seq![
        PartView::Normal(bundle),
        PartView::Normal(contents),
        PartView::Normal(directory),
        PartView::Normal("UCI-Grabber-Data"@),
    ]);
    assert(crate::place::normal_parts(seq!["UCI-Grabber-Data"@]) =~= seq![
        PartView::Normal("UCI-Grabber-Data"@),
    ]);
    assert(outside + seq![PartView::Normal("UCI-Grabber-Data"@)] =~= outside.push(
        PartView::Normal("UCI-Grabber-Data"@),
    ));
}

/// A record is what its fields are.
pub proof fn records_are_their_fields(record: InstallRecord)
    ensures
        record@.install_id == record.install_id@,
        record@.recipe_id == record.recipe_id@,
        record@.recipe_sha256 == record.recipe_sha256@,
        record@.model_id == record.model_id@,
        record@.name == record.name@,
        record@.version == record.version@,
        record@.platform == record.platform@,
        record@.generation_root == record.generation_root@,
        record@.executable == record.executable@,
        record@.executable_sha256 == record.executable_sha256@,
        record@.package_sha256 == record.package_sha256@,
        record@.package_file_count == record.package_file_count,
        record@.package_byte_count == record.package_byte_count,
        record@.working_directory == record.working_directory@,
        record@.source == record.source,
        record@.installed_at_unix == record.installed_at_unix,
        record@.publisher == record.publisher@,
        record@.license_spdx == record.license_spdx@,
        record@.license_url == record.license_url@,
{
}

/// A record of a portable store that lies elsewhere is moved if and only if its executable lies
/// below its directory and its working directory at or below it, both by names alone.
pub proof fn records_are_moved_with_their_package(
    store: StoreView,
    record: RecordView,
    names: IdNamesView,
    executable: Seq<PartView>,
    working: Seq<PartView>,
)
    requires
        store.portable,
        names.recipe is Some && names.model is Some && names.version is Some && names.platform
            is Some,
        record.generation_root.parts != store.generation(
            names.recipe->0,
            names.model->0,
            names.version->0,
            names.platform->0,
        ).parts,
        record.executable.parts == record.generation_root.parts + executable,
        record.working_directory.parts == record.generation_root.parts + working,
    ensures
        store.rebase(record, names) is Ok <==> {
            &&& executable.len() > 0
            &&& forall|i: int| 0 <= i < executable.len() ==> (#[trigger] executable[i]) is Normal
            &&& forall|i: int| 0 <= i < working.len() ==> (#[trigger] working[i]) is Normal
        },
{
    let root = record.generation_root;
    crate::place::paths_within_go_on_behind(root, record.executable, executable);
    crate::place::paths_within_go_on_behind(root, record.working_directory, working);
    assert(store.generation_of(record, names).parts =~= store.generation(
        names.recipe->0,
        names.model->0,
        names.version->0,
        names.platform->0,
    ).parts);
}

/// A record of a portable store that lies elsewhere is not moved where its executable or its
/// working directory lies outside its directory.
pub proof fn records_that_leave_their_package_are_refused(
    store: StoreView,
    record: RecordView,
    names: IdNamesView,
)
    requires
        store.portable,
        names.recipe is Some && names.model is Some && names.version is Some && names.platform
            is Some,
        record.generation_root.parts != store.generation(
            names.recipe->0,
            names.model->0,
            names.version->0,
            names.platform->0,
        ).parts,
        !record.executable.within(record.generation_root) || !record.working_directory.within(
            record.generation_root,
        ),
    ensures
        store.rebase(record, names) is Err,
{
    assert(store.generation_of(record, names).parts =~= store.generation(
        names.recipe->0,
        names.model->0,
        names.version->0,
        names.platform->0,
    ).parts);
}

} // verus!
