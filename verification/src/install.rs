//! What is installed where, what an installation is recorded as, and how interrupted ones are
//! recovered.

use vstd::prelude::*;
use vstd::slice::slice_subrange;
use crate::digest::{hex, hexadecimal_tells_bytes_apart, sha256, sha256_text, told_apart};
use crate::download::HttpDownloader;
use crate::error::{fails_with, settles, Error, ErrorView};
use crate::extract::NameCase;
use crate::package::{PackageSnapshot, SnapshotView, INSTALL_RECORD_FILE};
use crate::place::{normal_parts, texts_view, PartView, Place, PlaceView};
use crate::registry::{
    added_records_are_found, forgotten_records_are_gone, generations_have_five_names, integrity_of,
    is_registered, without, FindingView, InstallRecord, InstallSource, Integrity, IntegrityView,
    RecordView, Registry, RegistryStore, StoreView,
};
use crate::schema::{
    accepted_recipes_obey_every_rule, current_platform, declared_bytes, https_urls, model_taken,
    model_valid, package_valid, platform_name, platform_taken, recipe_fault, ArchiveFormat,
    Artifact, Model, Package, Recipe, MAX_PACKAGE_DOWNLOAD_BYTES,
};
use crate::sorting::{
    lemma_filter_all, lemma_filter_keeps, lemma_filter_none, lemma_filter_push,
    lemma_filters_commute, ranked_as, sorted_from, Ranked,
};
use crate::text::{
    begins_with, chars_of, decimal, decimal_text, find_last, join2, join3, join4,
    joined_texts_fall_apart_again, joined_with, last_at, lowercase, pieces, same_but_ascii_case,
    same_text, split_chars, split_on, text_of, text_starts_with, the_last_separator_is_found,
    to_lower, wide_decimal_text,
};
use crate::uci::ValidationTimeouts;

verus! {

/// The beginning of the name of a directory in which an installation is made.
pub const STAGING_PREFIX: &'static str = ".staging-";

/// How an engine is to be installed.
#[derive(Clone, Debug, PartialEq, Eq)]
pub struct InstallOptions {
    pub source: InstallSource,
    pub approve_unreviewed: bool,
    pub platform: Option<String>,
    pub validation_timeouts: ValidationTimeouts,
}

impl Default for InstallOptions {
    fn default() -> (options: InstallOptions)
        ensures
            options.source == InstallSource::UnreviewedRecipe,
            !options.approve_unreviewed,
            options.platform is None,
            options.validation_timeouts == (ValidationTimeouts {
                uci: 10_000_000_000,
                ready: 600_000_000_000,
                search: 15_000_000_000,
                quit: 2_000_000_000,
            }),
    {
        InstallOptions {
            source: InstallSource::UnreviewedRecipe,
            approve_unreviewed: false,
            platform: None,
            validation_timeouts: ValidationTimeouts::default(),
        }
    }
}

/// Installs engines into a store.
pub struct Installer {
    store: RegistryStore,
    downloader: HttpDownloader,
}

/// What recovering a store came to.
#[derive(Clone, Copy, Debug, PartialEq, Eq, Structural)]
pub struct RecoveryReport {
    pub cleaned_staging: usize,
    pub repaired_records: usize,
}

impl Default for RecoveryReport {
    fn default() -> (report: RecoveryReport)
        ensures
            report == (RecoveryReport { cleaned_staging: 0, repaired_records: 0 }),
    {
        RecoveryReport { cleaned_staging: 0, repaired_records: 0 }
    }
}

/// The error of a recipe that nobody reviewed and the user did not approve.
pub open spec fn approval_error() -> ErrorView {
    ErrorView::InvalidRecipe(
        "unreviewed recipes require explicit approval: UCI testing runs the downloaded native executable with the user's account permissions and no OS sandbox"@,
    )
}

/// The platform that is installed for: the one that was asked for, or that of the machine.
pub open spec fn chosen_platform(
    asked: Option<String>,
    os: Seq<char>,
    arch: Seq<char>,
) -> Result<Seq<char>, ErrorView> {
    match asked {
        Some(platform) => Ok(platform@),
        None => match platform_name(os, arch) {
            Some(name) => Ok(name),
            None => Err(ErrorView::UnsupportedPlatform(os + "-"@ + arch)),
        },
    }
}

/// The first position from `i` on of a model with an identifier, or the number of models.
pub open spec fn model_at(models: Seq<Model>, id: Seq<char>, i: int) -> int
    decreases models.len() - i,
{
    if i >= models.len() {
        models.len() as int
    } else if models[i].id@ == id {
        i
    } else {
        model_at(models, id, i + 1)
    }
}

/// The first position from `i` on of a package for a platform, or the number of packages.
pub open spec fn package_at(packages: Seq<Package>, platform: Seq<char>, i: int) -> int
    decreases packages.len() - i,
{
    if i >= packages.len() {
        packages.len() as int
    } else if packages[i].platform@ == platform {
        i
    } else {
        package_at(packages, platform, i + 1)
    }
}

/// What stands for the destination of an artifact.
pub open spec fn destination_key(destination: Seq<char>, case: NameCase) -> Seq<char> {
    match case {
        NameCase::Folded => lowercase(destination),
        NameCase::Distinct => destination,
    }
}

/// Whether an earlier artifact goes where the one at a position does.
pub open spec fn destination_collides(artifacts: Seq<Artifact>, k: int, case: NameCase) -> bool {
    exists|j: int|
        0 <= j < k && destination_key((#[trigger] artifacts[j]).destination@, case)
            == destination_key(artifacts[k].destination@, case)
}

/// What is wrong with where the artifacts of a package go, from position `k` on.
pub open spec fn destinations_fault(package: Package, case: NameCase, k: int) -> Option<ErrorView>
    decreases package.artifacts@.len() - k,
{
    let artifacts = package.artifacts@;
    if k >= artifacts.len() {
        None
    } else if destination_collides(artifacts, k, case) {
        Some(
            ErrorView::InvalidRecipe(
                "artifact destination collision at `"@ + artifacts[k].destination@ + "`"@,
            ),
        )
    } else if artifacts[k].format != ArchiveFormat::Raw && artifacts[k].destination@
        == package.executable@ {
        Some(
            ErrorView::InvalidRecipe("archive destination cannot be the executable file"@),
        )
    } else {
        destinations_fault(package, case, k + 1)
    }
}

/// What is installed, where, and as what.
#[derive(Debug, PartialEq, Eq)]
pub struct InstallPlan {
    pub model: usize,
    pub package: usize,
    pub platform: String,
    pub install_id: String,
    pub recipe_sha256: String,
    pub generation: Place,
    pub total_bytes: u64,
}

/// An [`InstallPlan`] with its texts and paths as sequences.
#[verifier::ext_equal]
pub struct PlanView {
    pub model: int,
    pub package: int,
    pub platform: Seq<char>,
    pub install_id: Seq<char>,
    pub recipe_sha256: Seq<char>,
    pub generation: PlaceView,
    pub total_bytes: int,
}

impl View for InstallPlan {
    type V = PlanView;

    open spec fn view(&self) -> PlanView {
        PlanView {
            model: self.model as int,
            package: self.package as int,
            platform: self.platform@,
            install_id: self.install_id@,
            recipe_sha256: self.recipe_sha256@,
            generation: self.generation@,
            total_bytes: self.total_bytes as int,
        }
    }
}

/// The identifier of an installation.
pub open spec fn install_identifier(
    recipe: Recipe,
    model: Seq<char>,
    platform: Seq<char>,
) -> Seq<char> {
    recipe.id@ + ":"@ + model + ":"@ + recipe.version@ + ":"@ + platform
}

/// The plan of an installation, or why there is none; `digest` is that of the recipe as it is
/// written out.
pub open spec fn install_plan(
    store: StoreView,
    recipe: Recipe,
    model_id: Seq<char>,
    options: InstallOptions,
    platform: Result<Seq<char>, ErrorView>,
    digest: Seq<char>,
    case: NameCase,
) -> Result<PlanView, ErrorView> {
    let model = model_at(recipe.models@, model_id, 0);
    let packages = recipe.models@[model].packages@;
    let at = package_at(packages, platform->Ok_0, 0);
    let package = packages[at];
    if recipe_fault(recipe, https_urls()) is Some {
        Err(recipe_fault(recipe, https_urls())->0)
    } else if options.source == InstallSource::UnreviewedRecipe && !options.approve_unreviewed {
        Err(approval_error())
    } else if platform is Err {
        Err(platform->Err_0)
    } else if model >= recipe.models@.len() {
        Err(ErrorView::InvalidRecipe("unknown model `"@ + model_id + "`"@))
    } else if at >= packages.len() {
        Err(ErrorView::UnsupportedPlatform(platform->Ok_0))
    } else if destinations_fault(package, case, 0) is Some {
        Err(destinations_fault(package, case, 0)->0)
    } else {
        Ok(
            PlanView {
                model,
                package: at,
                platform: platform->Ok_0,
                install_id: install_identifier(recipe, model_id, platform->Ok_0),
                recipe_sha256: digest,
                generation: store.generation(
                    recipe.id@,
                    model_id,
                    recipe.version@,
                    platform->Ok_0,
                ),
                total_bytes: declared_bytes(package.artifacts@, package.artifacts@.len() as int),
            },
        )
    }
}

/// Checks where the artifacts of a package go: no two to one place, and no archive to where the
/// executable is.
pub fn validate_destination_collisions(package: &Package, case: NameCase) -> (outcome: Result<
    (),
    Error,
>)
    ensures
        settles(outcome, destinations_fault(*package, case, 0)),
{
    let mut keys: Vec<String> = Vec::new();
    for k in 0..package.artifacts.len()
        invariant
            keys@.len() == k,
            forall|j: int|
                0 <= j < k ==> (#[trigger] keys@[j])@ == destination_key(
                    package.artifacts@[j].destination@,
                    case,
                ),
            destinations_fault(*package, case, 0) == destinations_fault(*package, case, k as int),
    {
        let artifact = &package.artifacts[k];
        let key = match case {
            NameCase::Folded => to_lower(artifact.destination.as_str()),
            NameCase::Distinct => artifact.destination.clone(),
        };
        let taken = crate::schema::listed(&keys, key.as_str());
        proof {
            if destination_collides(package.artifacts@, k as int, case) {
                let j = choose|j: int|
                    0 <= j < k && destination_key(
                        (#[trigger] package.artifacts@[j]).destination@,
                        case,
                    ) == destination_key(package.artifacts@[k as int].destination@, case);
                assert(keys@[j]@ == key@);
            }
            if taken {
                let j = choose|j: int| 0 <= j < keys@.len() && (#[trigger] keys@[j])@ == key@;
                assert(destination_key(package.artifacts@[j].destination@, case) == key@);
            }
        }
        if taken {
            return Err(
                Error::InvalidRecipe(
                    join3(
                        "artifact destination collision at `",
                        artifact.destination.as_str(),
                        "`",
                    ),
                ),
            );
        }
        if artifact.format != ArchiveFormat::Raw && same_text(
            artifact.destination.as_str(),
            package.executable.as_str(),
        ) {
            return Err(
                Error::InvalidRecipe(
                    "archive destination cannot be the executable file".to_owned(),
                ),
            );
        }
        keys.push(key);
    }
    Ok(())
}

fn find_model(models: &Vec<Model>, id: &str) -> (at: usize)
    ensures
        at == model_at(models@, id@, 0),
        at <= models@.len(),
{
    for i in 0..models.len()
        invariant
            model_at(models@, id@, 0) == model_at(models@, id@, i as int),
    {
        if same_text(models[i].id.as_str(), id) {
            return i;
        }
    }
    models.len()
}

/// The first package for a platform; the number of packages where there is none.
pub fn find_package(packages: &Vec<Package>, platform: &str) -> (at: usize)
    ensures
        at == package_at(packages@, platform@, 0),
        at <= packages@.len(),
{
    for i in 0..packages.len()
        invariant
            package_at(packages@, platform@, 0) == package_at(packages@, platform@, i as int),
    {
        if same_text(packages[i].platform.as_str(), platform) {
            return i;
        }
    }
    packages.len()
}

fn total_bytes(package: &Package) -> (total: u64)
    requires
        declared_bytes(package.artifacts@, package.artifacts@.len() as int)
            <= MAX_PACKAGE_DOWNLOAD_BYTES,
    ensures
        total == declared_bytes(package.artifacts@, package.artifacts@.len() as int),
{
    let mut total: u64 = 0;
    let count = package.artifacts.len();
    for i in 0..count
        invariant
            count == package.artifacts@.len(),
            declared_bytes(package.artifacts@, count as int) <= MAX_PACKAGE_DOWNLOAD_BYTES,
            total == declared_bytes(package.artifacts@, i as int),
    {
        proof {
            crate::schema::lemma_declared_bytes_grow(package.artifacts@, i + 1, count as int);
        }
        total = total.saturating_add(package.artifacts[i].byte_count);
    }
    total
}

impl Installer {
    /// The store that is installed into.
    pub closed spec fn view(&self) -> StoreView {
        self.store@
    }

    /// The downloader.
    pub closed spec fn downloads_with(&self) -> HttpDownloader {
        self.downloader
    }

    /// An installer into a store.
    pub fn new(store: RegistryStore, downloader: HttpDownloader) -> (installer: Installer)
        ensures
            installer@ == store@,
            installer.downloads_with() == downloader,
    {
        Installer { store, downloader }
    }

    /// The installer into the default store: beside a portable application, or else where the
    /// system keeps the data of applications.
    pub fn default_store(portable: Option<Place>, system: Option<Place>) -> (outcome: Result<
        Installer,
        Error,
    >)
        ensures
            match (portable, system) {
                (Some(place), _) => outcome matches Ok(installer) && installer@ == (StoreView {
                    data_root: place@,
                    portable: true,
                }) && installer.downloads_with().nanos()
                    == crate::download::DEFAULT_TIMEOUT_NANOS,
                (None, Some(place)) => outcome matches Ok(installer) && installer@ == (StoreView {
                    data_root: place@,
                    portable: false,
                }) && installer.downloads_with().nanos()
                    == crate::download::DEFAULT_TIMEOUT_NANOS,
                (None, None) => fails_with(
                    outcome,
                    ErrorView::Other("could not determine application data directory"@),
                ),
            },
    {
        match RegistryStore::open_default(portable, system) {
            Err(error) => Err(error),
            Ok(store) => Ok(Installer::new(store, HttpDownloader::default())),
        }
    }

    /// The store that is installed into.
    pub fn store(&self) -> (store: &RegistryStore)
        ensures
            store@ == self@,
    {
        &self.store
    }

    /// The downloader.
    pub fn downloader(&self) -> (downloader: HttpDownloader)
        ensures
            downloader == self.downloads_with(),
    {
        self.downloader
    }

    /// Plans the installation of a model of a recipe. `canonical` is the recipe as it is written
    /// out; `os` and `arch` are what the machine is; `case` is how the file system treats names.
    pub fn plan(
        &self,
        recipe: &Recipe,
        model_id: &str,
        options: &InstallOptions,
        os: &str,
        arch: &str,
        canonical: &[u8],
        case: NameCase,
    ) -> (outcome: Result<InstallPlan, Error>)
        ensures
            match install_plan(
                self@,
                *recipe,
                model_id@,
                *options,
                chosen_platform(options.platform, os@, arch@),
                hex(sha256(canonical@)),
                case,
            ) {
                Ok(plan) => outcome matches Ok(found) && found@ == plan,
                Err(error) => fails_with(outcome, error),
            },
            outcome matches Ok(found) ==> {
                &&& found.model < recipe.models@.len()
                &&& found.package < recipe.models@[found.model as int].packages@.len()
                &&& found.total_bytes <= MAX_PACKAGE_DOWNLOAD_BYTES
            },
    {
        match recipe.validate() {
            Err(error) => {
                return Err(error);
            },
            Ok(()) => {},
        }
        if options.source == InstallSource::UnreviewedRecipe && !options.approve_unreviewed {
            return Err(
                Error::InvalidRecipe(
                    "unreviewed recipes require explicit approval: UCI testing runs the downloaded native executable with the user's account permissions and no OS sandbox".to_owned(),
                ),
            );
        }
        let platform = match &options.platform {
            Some(platform) => platform.clone(),
            None => match current_platform(os, arch) {
                Ok(platform) => platform,
                Err(error) => {
                    return Err(error);
                },
            },
        };
        let model = find_model(&recipe.models, model_id);
        if model >= recipe.models.len() {
            return Err(Error::InvalidRecipe(join3("unknown model `", model_id, "`")));
        }
        let packages = &recipe.models[model].packages;
        let at = find_package(packages, platform.as_str());
        if at >= packages.len() {
            return Err(Error::UnsupportedPlatform(platform));
        }
        let package = &packages[at];
        match validate_destination_collisions(package, case) {
            Err(error) => {
                return Err(error);
            },
            Ok(()) => {},
        }
        proof {
            crate::schema::accepted_recipes_obey_every_rule(*recipe, https_urls());
            let chosen = recipe.models@[model as int];
            let found = chosen.packages@[at as int];
            assert(package_valid(chosen.packages@, at as int, https_urls()));
        }
        let total = total_bytes(package);
        let head = join4(recipe.id.as_str(), ":", model_id, ":");
        let install_id = join4(head.as_str(), recipe.version.as_str(), ":", platform.as_str());
        assert(install_id@ =~= install_identifier(*recipe, model_id@, platform@));
        Ok(
            InstallPlan {
                model,
                package: at,
                install_id,
                recipe_sha256: sha256_text(canonical),
                generation: self.store.generation(
                    recipe.id.as_str(),
                    model_id,
                    recipe.version.as_str(),
                    platform.as_str(),
                ),
                platform,
                total_bytes: total,
            },
        )
    }
}

/// The error for a version that is installed already, of another recipe or from another source.
pub open spec fn conflict_error(install_id: Seq<char>) -> ErrorView {
    ErrorView::Other(
        "immutable-version conflict for "@ + install_id
            + ": the existing generation was created from different recipe bytes or trust source"@,
    )
}

/// The first record with an identifier from a position on; the number of records where there is
/// none.
pub open spec fn record_at(records: Seq<InstallRecord>, install_id: Seq<char>, i: int) -> int
    decreases records.len() - i,
{
    if i >= records.len() {
        records.len() as int
    } else if records[i].install_id@ == install_id {
        i
    } else {
        record_at(records, install_id, i + 1)
    }
}

/// The record of an installation that is there already, or why it is not used again, before it is
/// looked at: it is not registered, or was made of another recipe or from another source.
pub open spec fn existing(plan: PlanView, source: InstallSource, records: Seq<InstallRecord>) -> Result<
    InstallRecord,
    ErrorView,
> {
    let at = record_at(records, plan.install_id, 0);
    if at >= records.len() {
        Err(
            ErrorView::Other(
                "immutable generation already exists but is not registered: "@
                    + plan.generation.shown + " (run status --repair)"@,
            ),
        )
    } else if records[at].source != source || records[at].recipe_sha256@ != plan.recipe_sha256 {
        Err(conflict_error(plan.install_id))
    } else {
        Ok(records[at])
    }
}

/// What an installation comes to before anything is downloaded: it is made, where nothing stands in
/// its place; or the one that is there is used again, or it is refused. `present` are the records of
/// the registry where something stands there.
pub open spec fn install_course(
    plan: PlanView,
    source: InstallSource,
    present: Option<Seq<InstallRecord>>,
) -> Result<Option<InstallRecord>, ErrorView> {
    match present {
        None => Ok(None),
        Some(records) => match existing(plan, source, records) {
            Ok(record) => Ok(Some(record)),
            Err(error) => Err(error),
        },
    }
}

proof fn lemma_record_at(records: Seq<InstallRecord>, install_id: Seq<char>, from: int, at: int)
    requires
        0 <= from <= at <= records.len(),
        at < records.len() ==> records[at].install_id@ == install_id,
        forall|i: int| from <= i < at ==> (#[trigger] records[i]).install_id@ != install_id,
    ensures
        record_at(records, install_id, from) == at,
    decreases at - from,
{
    if from < at {
        lemma_record_at(records, install_id, from + 1, at);
    }
}

impl InstallPlan {
    /// The record of an installation that is there already, where it may be used again.
    pub fn check_existing<'a>(&self, source: InstallSource, registry: &'a Registry) -> (outcome:
        Result<&'a InstallRecord, Error>)
        ensures
            match existing(self@, source, registry.installs@) {
                Ok(record) => outcome == Ok::<&InstallRecord, Error>(&record),
                Err(error) => fails_with(outcome, error),
            },
    {
        let found = RegistryStore::find(registry, self.install_id.as_str());
        proof {
            let records = registry.installs@;
            match found {
                Some(record) => {
                    let at = choose|at: int|
                        {
                            &&& 0 <= at < records.len()
                            &&& *record == #[trigger] records[at]
                            &&& record.install_id@ == self.install_id@
                            &&& forall|h: int|
                                0 <= h < at ==> (#[trigger] records[h]).install_id@
                                    != self.install_id@
                        };
                    lemma_record_at(records, self.install_id@, 0, at);
                },
                None => {
                    lemma_record_at(records, self.install_id@, 0, records.len() as int);
                },
            }
        }
        match found {
            None => Err(
                Error::Other(
                    join3(
                        "immutable generation already exists but is not registered: ",
                        self.generation.shown.as_str(),
                        " (run status --repair)",
                    ),
                ),
            ),
            Some(record) => if record.source != source || !same_text(
                record.recipe_sha256.as_str(),
                self.recipe_sha256.as_str(),
            ) {
                Err(
                    Error::Other(
                        join3(
                            "immutable-version conflict for ",
                            self.install_id.as_str(),
                            ": the existing generation was created from different recipe bytes or trust source",
                        ),
                    ),
                )
            } else {
                Ok(record)
            },
        }
    }

    /// What the installation comes to before anything is downloaded: `None` where it is to be made,
    /// or the record of the one that is there. `present` is the registry where something stands in
    /// the place of the installation.
    pub fn course<'a>(&self, source: InstallSource, present: &'a Option<Registry>) -> (outcome:
        Result<Option<&'a InstallRecord>, Error>)
        ensures
            match install_course(
                self@,
                source,
                match *present {
                    Some(registry) => Some(registry.installs@),
                    None => None,
                },
            ) {
                Ok(Some(record)) => outcome == Ok::<Option<&InstallRecord>, Error>(Some(&record)),
                Ok(None) => outcome == Ok::<Option<&InstallRecord>, Error>(None),
                Err(error) => fails_with(outcome, error),
            },
    {
        match present {
            None => Ok(None),
            Some(registry) => match self.check_existing(source, registry) {
                Ok(record) => Ok(Some(record)),
                Err(error) => Err(error),
            },
        }
    }

    /// Checks, by what became of it, that an installation that is there already may be used again.
    pub fn check_integrity(&self, integrity: &Integrity) -> (outcome: Result<(), Error>)
        ensures
            settles(
                outcome,
                if integrity@ == IntegrityView::Verified {
                    None
                } else {
                    Some(
                        ErrorView::Other(
                            "immutable generation exists but failed integrity verification: "@
                                + self@.generation.shown,
                        ),
                    )
                },
            ),
    {
        match integrity {
            Integrity::Verified => Ok(()),
            _ => Err(
                Error::Other(
                    join2(
                        "immutable generation exists but failed integrity verification: ",
                        self.generation.shown.as_str(),
                    ),
                ),
            ),
        }
    }
}

/// The name of the directory in which an installation is made.
pub fn staging_name(process: u32, nonce: u128) -> (name: String)
    ensures
        name@ == STAGING_PREFIX@ + decimal(process as nat) + "-"@ + decimal(nonce as nat),
{
    join4(
        STAGING_PREFIX,
        decimal_text(process as u64).as_str(),
        "-",
        wide_decimal_text(nonce).as_str(),
    )
}

/// The name of the file into which the artifact at a position is downloaded.
pub fn download_name(index: usize) -> (name: String)
    ensures
        name@ == "artifact-"@ + decimal(index as nat) + ".part"@,
{
    join3("artifact-", decimal_text(index as u64).as_str(), ".part")
}

/// Whether the launcher of a recipe is bound to the rest of its package.
pub open spec fn binds_launcher(source: InstallSource, recipe_id: Seq<char>) -> bool {
    source == InstallSource::Curated && recipe_id == "maia3"@
}

/// Whether the launcher of a recipe is bound to the rest of its package.
pub fn personalizes(source: InstallSource, recipe_id: &str) -> (answer: bool)
    ensures
        answer == binds_launcher(source, recipe_id@),
{
    source == InstallSource::Curated && same_text(recipe_id, "maia3")
}

/// The names of a path with slashes between them.
pub fn path_names(path: &str) -> (names: Vec<String>)
    ensures
        texts_view(names@) == split_on(path@, '/'),
        names@.len() > 0,
{
    let parts = split_chars(chars_of(path).as_slice(), '/');
    let mut names: Vec<String> = Vec::new();
    for i in 0..parts.len()
        invariant
            texts_view(names@) == pieces(parts@).take(i as int),
    {
        let name = text_of(parts[i].as_slice());
        let ghost before = names@;
        names.push(name);
        proof {
            assert(texts_view(names@) =~= texts_view(before).push(name@));
            assert(pieces(parts@).take(i + 1) =~= pieces(parts@).take(i as int).push(
                pieces(parts@)[i as int],
            ));
        }
    }
    assert(pieces(parts@).take(parts@.len() as int) =~= pieces(parts@));
    assert(texts_view(names@).len() == names@.len());
    names
}

/// The text of the directory that holds a file of a package; nothing, for the root of the package.
pub open spec fn holder_text(path: Seq<char>) -> Seq<char> {
    if last_at(path, '/') < 0 {
        Seq::empty()
    } else {
        path.take(last_at(path, '/'))
    }
}

/// The text of the directory that holds a file of a package.
fn holder(path: &str) -> (text: String)
    ensures
        text@ == holder_text(path@),
{
    let chars = chars_of(path);
    match find_last(chars.as_slice(), '/') {
        Some(at) => {
            let front = slice_subrange(chars.as_slice(), 0, at);
            assert(front@ =~= path@.take(at as int));
            text_of(front)
        },
        None => {
            let text = String::new();
            assert(text@ =~= Seq::<char>::empty());
            text
        },
    }
}

/// The record of an installation. The path of the executable stands in the texts as the recipe
/// writes it.
pub open spec fn install_record(
    plan: PlanView,
    recipe: Recipe,
    source: InstallSource,
    executable_sha256: Seq<char>,
    snapshot: SnapshotView,
    installed_at: u64,
) -> RecordView {
    let model = recipe.models@[plan.model];
    let executable = model.packages@[plan.package].executable@;
    let names = split_on(executable, '/');
    RecordView {
        install_id: plan.install_id,
        recipe_id: recipe.id@,
        recipe_sha256: plan.recipe_sha256,
        model_id: model.id@,
        name: recipe.name@ + " — "@ + model.name@,
        version: recipe.version@,
        platform: plan.platform,
        generation_root: plan.generation,
        executable: plan.generation.joined(executable, names),
        executable_sha256,
        package_sha256: snapshot.sha256,
        package_file_count: snapshot.file_count,
        package_byte_count: snapshot.byte_count,
        working_directory: plan.generation.joined(holder_text(executable), names.drop_last()),
        source,
        installed_at_unix: installed_at,
        publisher: recipe.publisher.name@,
        license_spdx: recipe.license.spdx@,
        license_url: recipe.license.url@,
    }
}

impl InstallPlan {
    /// The record of the installation.
    pub fn record(
        &self,
        recipe: &Recipe,
        source: InstallSource,
        executable_sha256: &str,
        snapshot: &PackageSnapshot,
        installed_at: u64,
    ) -> (record: InstallRecord)
        requires
            self.model < recipe.models@.len(),
            self.package < recipe.models@[self.model as int].packages@.len(),
        ensures
            record@ == install_record(
                self@,
                *recipe,
                source,
                executable_sha256@,
                snapshot@,
                installed_at,
            ),
    {
        let model = &recipe.models[self.model];
        let package = &model.packages[self.package];
        let mut names = path_names(package.executable.as_str());
        let ghost all = texts_view(names@);
        let executable = self.generation.joined(package.executable.as_str(), &names);
        names.pop();
        assert(texts_view(names@) =~= all.drop_last());
        let working_directory = self.generation.joined(
            holder(package.executable.as_str()).as_str(),
            &names,
        );
        InstallRecord {
            install_id: self.install_id.clone(),
            recipe_id: recipe.id.clone(),
            recipe_sha256: self.recipe_sha256.clone(),
            model_id: model.id.clone(),
            name: join3(recipe.name.as_str(), " — ", model.name.as_str()),
            version: recipe.version.clone(),
            platform: self.platform.clone(),
            generation_root: self.generation.copy(),
            executable,
            executable_sha256: executable_sha256.to_owned(),
            package_sha256: snapshot.sha256.clone(),
            package_file_count: snapshot.file_count,
            package_byte_count: snapshot.byte_count,
            working_directory,
            source,
            installed_at_unix: installed_at,
            publisher: recipe.publisher.name.clone(),
            license_spdx: recipe.license.spdx.clone(),
            license_url: recipe.license.url.clone(),
        }
    }
}

/// A record lies in its generation: the executable below it, and the working directory where the
/// executable is.
pub proof fn recorded_paths_lie_in_the_generation(
    plan: PlanView,
    recipe: Recipe,
    source: InstallSource,
    executable_sha256: Seq<char>,
    snapshot: SnapshotView,
    installed_at: u64,
)
    ensures
        ({
            let record = install_record(
                plan,
                recipe,
                source,
                executable_sha256,
                snapshot,
                installed_at,
            );
            &&& record.executable.within(record.generation_root)
            &&& record.working_directory.within(record.generation_root)
            &&& record.executable.parent() matches Some(parent) && parent.parts
                == record.working_directory.parts
        }),
{
    let names = split_on(
        recipe.models@[plan.model].packages@[plan.package].executable@,
        '/',
    );
    crate::place::joined_paths_stay_below(plan.generation, names);
    crate::place::joined_paths_stay_below(plan.generation, names.drop_last());
    let parts = plan.generation.parts + crate::place::normal_parts(names);
    assert(names.len() > 0);
    assert(parts.last() == crate::place::PartView::Normal(names.last()));
    assert(parts.drop_last() =~= plan.generation.parts + crate::place::normal_parts(
        names.drop_last(),
    ));
}

/// Why the paths of a package that was unpacked are refused; all of them are free of links.
pub open spec fn staged_fault(
    root: PlaceView,
    executable: PlaceView,
    working: PlaceView,
    working_is_directory: bool,
) -> Option<ErrorView> {
    if !working_is_directory || !executable.within(root) || !working.within(root) {
        Some(
            ErrorView::InvalidRecipe(
                "executable or working directory escaped the staged package"@,
            ),
        )
    } else {
        None
    }
}

/// Checks that the executable of a package that was unpacked is a regular file.
pub fn check_executable_file(is_regular_file: bool, executable: &Place) -> (outcome: Result<
    (),
    Error,
>)
    ensures
        settles(
            outcome,
            if is_regular_file {
                None
            } else {
                Some(
                    ErrorView::InvalidRecipe(
                        "package executable is not a regular file: "@ + executable@.shown,
                    ),
                )
            },
        ),
{
    if is_regular_file {
        Ok(())
    } else {
        Err(
            Error::InvalidRecipe(
                join2("package executable is not a regular file: ", executable.shown.as_str()),
            ),
        )
    }
}

/// Checks where the executable and the working directory of a package that was unpacked are.
pub fn validate_staged_paths(
    root: &Place,
    executable: &Place,
    working: &Place,
    working_is_directory: bool,
) -> (outcome: Result<(), Error>)
    ensures
        settles(outcome, staged_fault(root@, executable@, working@, working_is_directory)),
{
    if !working_is_directory || !executable.starts_with(root) || !working.starts_with(root) {
        Err(
            Error::InvalidRecipe(
                "executable or working directory escaped the staged package".to_owned(),
            ),
        )
    } else {
        Ok(())
    }
}

/// What is done with what lies in the directory of the installations.
#[derive(Clone, Copy, Debug, PartialEq, Eq, Structural)]
pub enum RecoveryAction {
    /// Remove the directory of an installation that was interrupted.
    RemoveStaging,
    /// Read the description of an installation.
    ReadRecord,
    /// Nothing.
    Leave,
}

/// What is done with what lies in the directory of the installations, by its name.
pub open spec fn recovery_action(
    name: Option<Seq<char>>,
    is_directory: bool,
    is_file: bool,
) -> RecoveryAction {
    match name {
        None => RecoveryAction::Leave,
        Some(name) => if is_directory && begins_with(name, STAGING_PREFIX@) {
            RecoveryAction::RemoveStaging
        } else if is_file && name == INSTALL_RECORD_FILE@ {
            RecoveryAction::ReadRecord
        } else {
            RecoveryAction::Leave
        },
    }
}

/// Decides what is done with what lies in the directory of the installations.
pub fn recover_entry(name: &Option<String>, is_directory: bool, is_file: bool) -> (action:
    RecoveryAction)
    ensures
        action == recovery_action(crate::web::optional(*name), is_directory, is_file),
{
    match name {
        None => RecoveryAction::Leave,
        Some(name) => if is_directory && text_starts_with(name.as_str(), STAGING_PREFIX) {
            RecoveryAction::RemoveStaging
        } else if is_file && same_text(name.as_str(), INSTALL_RECORD_FILE) {
            RecoveryAction::ReadRecord
        } else {
            RecoveryAction::Leave
        },
    }
}

/// Every directory in which an installation is made is one that recovering removes.
pub proof fn interrupted_installations_are_removed(process: u32, nonce: u128)
    ensures
        recovery_action(
            Some(STAGING_PREFIX@ + decimal(process as nat) + "-"@ + decimal(nonce as nat)),
            true,
            false,
        ) == RecoveryAction::RemoveStaging,
{
    let name = STAGING_PREFIX@ + decimal(process as nat) + "-"@ + decimal(nonce as nat);
    assert(name.take(STAGING_PREFIX@.len() as int) =~= STAGING_PREFIX@);
}

/// Why the record in the directory `parent` is not one of an installation there; `generation` and
/// `installs` are that directory and the one of the installations, free of links.
pub open spec fn recovered_generation_fault(
    installs: PlaceView,
    generation: PlaceView,
    parent: PlaceView,
    manifest: PlaceView,
    record: RecordView,
) -> Option<ErrorView> {
    if generation.parts == installs.parts || !generation.within(installs)
        || record.generation_root.parts != parent.parts {
        Some(
            ErrorView::Other(
                "recovery record points outside its install generation: "@ + manifest.shown,
            ),
        )
    } else {
        None
    }
}

/// Checks that a record lies where it says that it was installed.
pub fn check_recovered_generation(
    installs: &Place,
    generation: &Place,
    parent: &Place,
    manifest: &Place,
    record: &InstallRecord,
) -> (outcome: Result<(), Error>)
    ensures
        settles(
            outcome,
            recovered_generation_fault(installs@, generation@, parent@, manifest@, record@),
        ),
{
    if generation.same(installs) || !generation.starts_with(installs)
        || !record.generation_root.same(parent) {
        Err(
            Error::Other(
                join2(
                    "recovery record points outside its install generation: ",
                    manifest.shown.as_str(),
                ),
            ),
        )
    } else {
        Ok(())
    }
}

/// Why the paths of a record are refused; all of them are free of links.
pub open spec fn recovered_paths_fault(
    generation: PlaceView,
    executable: PlaceView,
    executable_is_file: bool,
    working: PlaceView,
    working_is_directory: bool,
) -> Option<ErrorView> {
    if !executable_is_file || !working_is_directory || !executable.within(generation)
        || !working.within(generation) {
        Some(
            ErrorView::Other("recovery record paths escape generation "@ + generation.shown),
        )
    } else {
        None
    }
}

/// Checks that the executable and the working directory of a record lie in its generation.
pub fn check_recovered_paths(
    generation: &Place,
    executable: &Place,
    executable_is_file: bool,
    working: &Place,
    working_is_directory: bool,
) -> (outcome: Result<(), Error>)
    ensures
        settles(
            outcome,
            recovered_paths_fault(
                generation@,
                executable@,
                executable_is_file,
                working@,
                working_is_directory,
            ),
        ),
{
    if !executable_is_file || !working_is_directory || !executable.starts_with(generation)
        || !working.starts_with(generation) {
        Err(
            Error::Other(
                join2("recovery record paths escape generation ", generation.shown.as_str()),
            ),
        )
    } else {
        Ok(())
    }
}

/// Decides whether an installation that was found is looked at: it is not registered, and its
/// executable is there.
pub fn needs_check(known: &Registry, record: &InstallRecord, executable_is_file: bool) -> (answer:
    bool)
    ensures
        answer == (!is_registered(known.installs@, record.install_id@) && executable_is_file),
{
    RegistryStore::find(known, record.install_id.as_str()).is_none() && executable_is_file
}

impl Installer {
    /// Enters an installation that was found and looked at into the registry, where it is as it was
    /// made, and counts it.
    pub fn recover(
        &self,
        registry: Registry,
        record: InstallRecord,
        integrity: &Integrity,
        report: RecoveryReport,
    ) -> (outcome: (Registry, RecoveryReport))
        requires
            report.repaired_records < usize::MAX,
        ensures
            if integrity@ is Verified {
                &&& outcome.0.schema == registry.schema
                &&& sorted_from(
                    outcome.0.installs@,
                    without(registry.installs@, record.install_id@).push(record),
                )
                &&& outcome.1 == (RecoveryReport {
                    repaired_records: (report.repaired_records + 1) as usize,
                    ..report
                })
            } else {
                outcome == (registry, report)
            },
    {
        match integrity {
            Integrity::Verified => (
                self.store.add(registry, record),
                RecoveryReport {
                    cleaned_staging: report.cleaned_staging,
                    repaired_records: report.repaired_records + 1,
                },
            ),
            _ => (registry, report),
        }
    }
}

/// An installation is planned only where its recipe was accepted, and the user approved it or it
/// was reviewed.
pub proof fn unreviewed_recipes_need_approval(
    store: StoreView,
    recipe: Recipe,
    model_id: Seq<char>,
    options: InstallOptions,
    platform: Result<Seq<char>, ErrorView>,
    digest: Seq<char>,
    case: NameCase,
)
    requires
        install_plan(store, recipe, model_id, options, platform, digest, case) is Ok,
    ensures
        recipe_fault(recipe, https_urls()) is None,
        options.source == InstallSource::Curated || options.approve_unreviewed,
{
}

/// Every plan is for a place of its own below the directory of the installations, which depends on
/// the recipe, the model, the version and the platform alone.
pub proof fn generations_lie_in_the_store(
    store: StoreView,
    recipe: Recipe,
    model_id: Seq<char>,
    options: InstallOptions,
    platform: Result<Seq<char>, ErrorView>,
    digest: Seq<char>,
    case: NameCase,
)
    ensures
        install_plan(store, recipe, model_id, options, platform, digest, case) matches Ok(plan)
            ==> {
            &&& plan.generation == store.generation(
                recipe.id@,
                model_id,
                recipe.version@,
                platform->Ok_0,
            )
            &&& plan.generation.within(store.installs_dir())
            &&& plan.generation.parts.len() == store.installs_dir().parts.len() + 4
        },
{
    crate::place::joined_paths_stay_below(
        store.installs_dir(),
        seq![recipe.id@, model_id, recipe.version@, platform->Ok_0],
    );
}

/// Which records have an identifier.
pub open spec fn having(install_id: Seq<char>) -> spec_fn(InstallRecord) -> bool {
    |record: InstallRecord| record.install_id@ == install_id
}

/// Once a record was added, it is the only one with its identifier.
pub proof fn identifiers_are_registered_once(
    before: Seq<InstallRecord>,
    record: InstallRecord,
    after: Seq<InstallRecord>,
)
    requires
        sorted_from(after, without(before, record.install_id@).push(record)),
    ensures
        after.filter(having(record.install_id@)) == seq![record],
{
    let own = having(record.install_id@);
    let ranked = ranked_as(record);
    let kept = without(before, record.install_id@);
    let found = after.filter(own);
    if record.before(record) {
        InstallRecord::lemma_asymmetric(record, record);
    }
    assert forall|i: int| 0 <= i < found.len() implies ranked(#[trigger] found[i]) by {
        assert(found.contains(found[i]));
        lemma_filter_keeps(after, own, found[i]);
        added_records_are_found(before, record, after, found[i]);
    }
    lemma_filter_all(found, ranked);
    lemma_filters_commute(after, own, ranked);
    assert(after.filter(ranked) == kept.push(record).filter(ranked));
    lemma_filter_push(kept, record, ranked);
    let others = kept.filter(ranked);
    lemma_filter_push(others, record, own);
    assert forall|i: int| 0 <= i < others.len() implies !own(#[trigger] others[i]) by {
        assert(others.contains(others[i]));
        lemma_filter_keeps(kept, ranked, others[i]);
        forgotten_records_are_gone(before, record.install_id@, others[i]);
    }
    lemma_filter_none(others, own);
    assert(found =~= seq![record]);
}

proof fn lemma_found_at(records: Seq<InstallRecord>, install_id: Seq<char>, from: int)
    requires
        0 <= from <= records.len(),
    ensures
        from <= record_at(records, install_id, from) <= records.len(),
        record_at(records, install_id, from) < records.len() ==> records[record_at(
            records,
            install_id,
            from,
        )].install_id@ == install_id,
        forall|i: int|
            from <= i < record_at(records, install_id, from) ==> (
            #[trigger] records[i]).install_id@ != install_id,
    decreases records.len() - from,
{
    if from < records.len() && records[from].install_id@ != install_id {
        lemma_found_at(records, install_id, from + 1);
    }
}

proof fn lemma_added_is_found(
    before: Seq<InstallRecord>,
    record: InstallRecord,
    after: Seq<InstallRecord>,
)
    requires
        sorted_from(after, without(before, record.install_id@).push(record)),
    ensures
        ({
            let at = record_at(after, record.install_id@, 0);
            0 <= at < after.len() && after[at] == record
        }),
{
    let at = record_at(after, record.install_id@, 0);
    lemma_found_at(after, record.install_id@, 0);
    added_records_are_found(before, record, after, record);
    let i = after.index_of(record);
    assert(after[i].install_id@ == record.install_id@);
    assert(after.contains(after[at]));
    added_records_are_found(before, record, after, after[at]);
}

/// A second installation of the same plan from the same source uses the first: nothing is
/// downloaded, its record is the one that was made, and that is the only one with its identifier.
pub proof fn second_installations_use_the_first(
    plan: PlanView,
    recipe: Recipe,
    source: InstallSource,
    executable_sha256: Seq<char>,
    snapshot: SnapshotView,
    installed_at: u64,
    before: Seq<InstallRecord>,
    record: InstallRecord,
    after: Seq<InstallRecord>,
)
    requires
        record@ == install_record(
            plan,
            recipe,
            source,
            executable_sha256,
            snapshot,
            installed_at,
        ),
        sorted_from(after, without(before, record.install_id@).push(record)),
    ensures
        install_course(plan, source, Some(after)) == Ok::<Option<InstallRecord>, ErrorView>(
            Some(record),
        ),
        after.filter(having(plan.install_id)) == seq![record],
{
    lemma_added_is_found(before, record, after);
    identifiers_are_registered_once(before, record, after);
}

/// What is installed under a version does not change: another recipe under the same identifier and
/// version, or the same from another source, is refused before anything is downloaded, where
/// SHA-256 tells the recipes apart. `written` and `rewritten` are the recipes as they are written
/// out.
pub proof fn changed_recipes_conflict(
    store: StoreView,
    recipe: Recipe,
    other: Recipe,
    model_id: Seq<char>,
    options: InstallOptions,
    other_options: InstallOptions,
    platform: Result<Seq<char>, ErrorView>,
    written: Seq<u8>,
    rewritten: Seq<u8>,
    case: NameCase,
    executable_sha256: Seq<char>,
    snapshot: SnapshotView,
    installed_at: u64,
    before: Seq<InstallRecord>,
    record: InstallRecord,
    after: Seq<InstallRecord>,
)
    requires
        other.id@ == recipe.id@,
        other.version@ == recipe.version@,
        other_options.source != options.source || rewritten != written,
        told_apart(rewritten, written),
        install_plan(store, recipe, model_id, options, platform, hex(sha256(written)), case) is Ok,
        install_plan(
            store,
            other,
            model_id,
            other_options,
            platform,
            hex(sha256(rewritten)),
            case,
        ) is Ok,
        record@ == install_record(
            install_plan(
                store,
                recipe,
                model_id,
                options,
                platform,
                hex(sha256(written)),
                case,
            )->Ok_0,
            recipe,
            options.source,
            executable_sha256,
            snapshot,
            installed_at,
        ),
        sorted_from(after, without(before, record.install_id@).push(record)),
    ensures
        install_course(
            install_plan(
                store,
                other,
                model_id,
                other_options,
                platform,
                hex(sha256(rewritten)),
                case,
            )->Ok_0,
            other_options.source,
            Some(after),
        ) == Err::<Option<InstallRecord>, ErrorView>(conflict_error(record.install_id@)),
{
    lemma_added_is_found(before, record, after);
    hexadecimal_tells_bytes_apart(sha256(rewritten), sha256(written));
}

/// An installation that was found, and what was seen of it.
pub struct FoundInstall {
    pub record: InstallRecord,
    pub executable_is_file: bool,
    pub integrity: IntegrityView,
}

/// Whether an installation that was found is entered into the registry, by the records that are
/// known.
pub open spec fn is_entered(known: Seq<InstallRecord>, found: FoundInstall) -> bool {
    &&& !is_registered(known, found.record.install_id@)
    &&& found.executable_is_file
    &&& found.integrity is Verified
}

/// Whether recovering an installation leads from one registry to the next.
pub open spec fn recovery_step(
    known: Seq<InstallRecord>,
    current: Seq<InstallRecord>,
    found: FoundInstall,
    next: Seq<InstallRecord>,
) -> bool {
    if is_entered(known, found) {
        sorted_from(next, without(current, found.record.install_id@).push(found.record))
    } else {
        next == current
    }
}

/// Whether the installations that were found lead from the known records to the last of the states.
pub open spec fn recovers(
    known: Seq<InstallRecord>,
    found: Seq<FoundInstall>,
    states: Seq<Seq<InstallRecord>>,
) -> bool {
    &&& states.len() == found.len() + 1
    &&& states[0] == known
    &&& forall|i: int|
        #![trigger found[i]]
        0 <= i < found.len() ==> recovery_step(known, states[i], found[i], states[i + 1])
}

/// What recovering has come to after the first `count` installations.
proof fn lemma_recovered(
    known: Seq<InstallRecord>,
    found: Seq<FoundInstall>,
    states: Seq<Seq<InstallRecord>>,
    count: int,
)
    requires
        recovers(known, found, states),
        0 <= count <= found.len(),
    ensures
        forall|record: InstallRecord|
            known.contains(record) ==> #[trigger] states[count].contains(record),
        forall|record: InstallRecord| #[trigger]
            states[count].contains(record) ==> known.contains(record) || exists|i: int|
                0 <= i < count && (#[trigger] found[i]).record == record && is_entered(
                    known,
                    found[i],
                ),
        forall|i: int|
            0 <= i < count && is_entered(known, #[trigger] found[i]) ==> is_registered(
                states[count],
                found[i].record.install_id@,
            ),
    decreases count,
{
    if count > 0 {
        let before = states[count - 1];
        let after = states[count];
        let last = found[count - 1];
        lemma_recovered(known, found, states, count - 1);
        assert(recovery_step(known, before, last, after));
        if is_entered(known, last) {
            assert forall|record: InstallRecord| known.contains(record) implies
                #[trigger] after.contains(record) by {
                let i = known.index_of(record);
                assert(known[i].install_id@ != last.record.install_id@);
                assert(before.contains(record));
                added_records_are_found(before, last.record, after, record);
            }
            assert forall|record: InstallRecord| #[trigger]
                after.contains(record) && !known.contains(record) implies exists|i: int|
                0 <= i < count && (#[trigger] found[i]).record == record && is_entered(
                    known,
                    found[i],
                ) by {
                added_records_are_found(before, last.record, after, record);
                if record.install_id@ == last.record.install_id@ {
                    assert(found[count - 1].record == record);
                } else {
                    assert(before.contains(record));
                    let i = choose|i: int|
                        0 <= i < count - 1 && (#[trigger] found[i]).record == record
                            && is_entered(known, found[i]);
                    assert(found[i].record == record);
                }
            }
            assert forall|i: int|
                0 <= i < count && is_entered(known, #[trigger] found[i]) implies is_registered(
                after,
                found[i].record.install_id@,
            ) by {
                added_records_are_found(before, last.record, after, last.record);
                let own = after.index_of(last.record);
                assert(after[own].install_id@ == last.record.install_id@);
                if found[i].record.install_id@ != last.record.install_id@ {
                    let h = choose|h: int|
                        0 <= h < before.len() && (#[trigger] before[h]).install_id@
                            == found[i].record.install_id@;
                    assert(before.contains(before[h]));
                    added_records_are_found(before, last.record, after, before[h]);
                    let k = after.index_of(before[h]);
                    assert(after[k].install_id@ == found[i].record.install_id@);
                }
            }
        } else {
            assert forall|record: InstallRecord| #[trigger]
                after.contains(record) && !known.contains(record) implies exists|i: int|
                0 <= i < count && (#[trigger] found[i]).record == record && is_entered(
                    known,
                    found[i],
                ) by {
                let i = choose|i: int|
                    0 <= i < count - 1 && (#[trigger] found[i]).record == record && is_entered(
                        known,
                        found[i],
                    );
                assert(found[i].record == record);
            }
        }
    }
}

/// Recovering keeps every record that was registered and adds only installations that are as they
/// were made; recovering once more, of the same installations, adds nothing.
pub proof fn a_second_recovery_changes_nothing(
    known: Seq<InstallRecord>,
    found: Seq<FoundInstall>,
    states: Seq<Seq<InstallRecord>>,
    again: Seq<Seq<InstallRecord>>,
)
    requires
        recovers(known, found, states),
        recovers(states.last(), found, again),
    ensures
        forall|record: InstallRecord|
            known.contains(record) ==> #[trigger] states.last().contains(record),
        forall|record: InstallRecord| #[trigger]
            states.last().contains(record) ==> known.contains(record) || exists|i: int|
                0 <= i < found.len() && (#[trigger] found[i]).record == record
                    && found[i].executable_is_file && found[i].integrity is Verified,
        forall|i: int|
            0 <= i < found.len() ==> !is_entered(states.last(), #[trigger] found[i]),
        again.last() == states.last(),
{
    let last = states.last();
    lemma_recovered(known, found, states, found.len() as int);
    assert forall|i: int| 0 <= i < found.len() implies !is_entered(last, #[trigger] found[i]) by {
        if is_registered(known, found[i].record.install_id@) {
            let h = choose|h: int|
                0 <= h < known.len() && (#[trigger] known[h]).install_id@
                    == found[i].record.install_id@;
            assert(known.contains(known[h]));
            assert(last.contains(known[h]));
            let k = last.index_of(known[h]);
            assert(last[k].install_id@ == found[i].record.install_id@);
        }
    }
    lemma_states_stay(last, found, again, found.len() as int);
}

proof fn lemma_states_stay(
    known: Seq<InstallRecord>,
    found: Seq<FoundInstall>,
    states: Seq<Seq<InstallRecord>>,
    count: int,
)
    requires
        recovers(known, found, states),
        forall|i: int| 0 <= i < found.len() ==> !is_entered(known, #[trigger] found[i]),
        0 <= count <= found.len(),
    ensures
        states[count] == known,
    decreases count,
{
    if count > 0 {
        lemma_states_stay(known, found, states, count - 1);
        assert(recovery_step(known, states[count - 1], found[count - 1], states[count]));
    }
}

/// What is done with an entry of a tree, by its name and what it is.
pub open spec fn is_left() -> spec_fn((Option<Seq<char>>, bool, bool)) -> bool {
    |entry: (Option<Seq<char>>, bool, bool)|
        recovery_action(entry.0, entry.1, entry.2) != RecoveryAction::RemoveStaging
}

/// Of the entries that recovering leaves, recovering once more removes none.
pub proof fn a_second_recovery_removes_nothing(entries: Seq<(Option<Seq<char>>, bool, bool)>)
    ensures
        entries.filter(is_left()).filter(is_left()) == entries.filter(is_left()),
{
    let left = entries.filter(is_left());
    assert forall|i: int| 0 <= i < left.len() implies is_left()(#[trigger] left[i]) by {
        assert(left.contains(left[i]));
        lemma_filter_keeps(entries, is_left(), left[i]);
    }
    lemma_filter_all(left, is_left());
}

/// A record that recovering accepts lies in its own directory, strictly below that of the
/// installations, and its executable and its working directory within it.
pub proof fn recovered_records_lie_in_the_store(
    installs: PlaceView,
    generation: PlaceView,
    parent: PlaceView,
    manifest: PlaceView,
    record: RecordView,
    executable: PlaceView,
    executable_is_file: bool,
    working: PlaceView,
    working_is_directory: bool,
)
    requires
        recovered_generation_fault(installs, generation, parent, manifest, record) is None,
        recovered_paths_fault(
            generation,
            executable,
            executable_is_file,
            working,
            working_is_directory,
        ) is None,
    ensures
        generation.within(installs),
        generation.parts.len() > installs.parts.len(),
        record.generation_root.parts == parent.parts,
        executable.within(generation),
        working.within(generation),
{
    if generation.parts.len() == installs.parts.len() {
        assert(generation.parts.take(installs.parts.len() as int) =~= generation.parts);
    }
}

/// An installation that was just made is as it was made: a look at an executable with the digest
/// that was recorded finds nothing, and one at a package with the snapshot that was recorded finds
/// it verified. An executable with another digest has changed, as has a package with another
/// snapshot.
pub proof fn new_installations_are_verified(
    plan: PlanView,
    recipe: Recipe,
    source: InstallSource,
    executable_sha256: Seq<char>,
    snapshot: SnapshotView,
    installed_at: u64,
    other_sha256: Seq<char>,
    other: SnapshotView,
)
    ensures
        ({
            let record = install_record(
                plan,
                recipe,
                source,
                executable_sha256,
                snapshot,
                installed_at,
            );
            &&& integrity_of(record, FindingView::Executable { sha256: executable_sha256 }) is None
            &&& integrity_of(record, FindingView::Package { snapshot }) == Some(
                IntegrityView::Verified,
            )
            &&& !same_but_ascii_case(other_sha256, executable_sha256) ==> integrity_of(
                record,
                FindingView::Executable { sha256: other_sha256 },
            ) == Some(
                IntegrityView::Changed { expected: executable_sha256, actual: other_sha256 },
            )
            &&& other.file_count != snapshot.file_count || other.byte_count != snapshot.byte_count
                || !same_but_ascii_case(other.sha256, snapshot.sha256) ==> integrity_of(
                record,
                FindingView::Package { snapshot: other },
            ) == Some(IntegrityView::Changed { expected: snapshot.sha256, actual: other.sha256 })
        }),
{
}

/// A record says what was installed: which recipe, model, version and platform, from which source
/// and when, where it lies, what its executable and its package are, and whose it is under which
/// terms.
pub proof fn records_say_what_was_installed(
    plan: PlanView,
    recipe: Recipe,
    source: InstallSource,
    executable_sha256: Seq<char>,
    snapshot: SnapshotView,
    installed_at: u64,
)
    ensures
        ({
            let record = install_record(
                plan,
                recipe,
                source,
                executable_sha256,
                snapshot,
                installed_at,
            );
            let model = recipe.models@[plan.model];
            let package = model.packages@[plan.package];
            &&& record.install_id == plan.install_id
            &&& record.recipe_id == recipe.id@
            &&& record.recipe_sha256 == plan.recipe_sha256
            &&& record.model_id == model.id@
            &&& record.name == recipe.name@ + seq![' ', '\u{2014}', ' '] + model.name@
            &&& record.version == recipe.version@
            &&& record.platform == plan.platform
            &&& record.generation_root == plan.generation
            &&& record.executable.parts == plan.generation.parts + normal_parts(
                split_on(package.executable@, '/'),
            )
            &&& record.executable_sha256 == executable_sha256
            &&& record.package_sha256 == snapshot.sha256
            &&& record.package_file_count == snapshot.file_count
            &&& record.package_byte_count == snapshot.byte_count
            &&& record.working_directory.parts == record.executable.parts.drop_last()
            &&& record.source == source
            &&& record.installed_at_unix == installed_at
            &&& record.publisher == recipe.publisher.name@
            &&& record.license_spdx == recipe.license.spdx@
            &&& record.license_url == recipe.license.url@
        }),
{
    reveal_strlit(" — ");
    assert(" — "@ =~= seq![' ', '\u{2014}', ' ']);
    let names = split_on(recipe.models@[plan.model].packages@[plan.package].executable@, '/');
    assert(names.len() > 0);
    assert((plan.generation.parts + normal_parts(names)).drop_last() =~= plan.generation.parts
        + normal_parts(names.drop_last()));
}

/// The text of the directory of a file is what stands before its name and the slash before it;
/// nothing, for a file in the root of the package.
pub proof fn holders_stand_before_the_name(directory: Seq<char>, name: Seq<char>)
    requires
        !name.contains('/'),
    ensures
        holder_text(directory.push('/') + name) == directory,
        holder_text(name) == Seq::<char>::empty(),
{
    the_last_separator_is_found(directory, '/', name);
    assert((directory.push('/') + name).take(directory.len() as int) =~= directory);
}

proof fn lemma_model_at(models: Seq<Model>, id: Seq<char>, from: int)
    requires
        0 <= from <= models.len(),
    ensures
        ({
            let at = model_at(models, id, from);
            &&& from <= at <= models.len()
            &&& at < models.len() ==> models[at].id@ == id
            &&& forall|i: int| from <= i < at ==> (#[trigger] models[i]).id@ != id
        }),
    decreases models.len() - from,
{
    if from < models.len() {
        lemma_model_at(models, id, from + 1);
    }
}

proof fn lemma_package_at(packages: Seq<Package>, platform: Seq<char>, from: int)
    requires
        0 <= from <= packages.len(),
    ensures
        ({
            let at = package_at(packages, platform, from);
            &&& from <= at <= packages.len()
            &&& at < packages.len() ==> packages[at].platform@ == platform
            &&& forall|i: int| from <= i < at ==> (#[trigger] packages[i]).platform@ != platform
        }),
    decreases packages.len() - from,
{
    if from < packages.len() {
        lemma_package_at(packages, platform, from + 1);
    }
}

proof fn lemma_destinations(package: Package, case: NameCase, from: int)
    requires
        0 <= from,
    ensures
        destinations_fault(package, case, from) is None <==> {
            &&& forall|j: int, k: int|
                0 <= j < k && from <= k < package.artifacts@.len() ==> destination_key(
                    (#[trigger] package.artifacts@[j]).destination@,
                    case,
                ) != destination_key((#[trigger] package.artifacts@[k]).destination@, case)
            &&& forall|k: int|
                from <= k < package.artifacts@.len() ==> (#[trigger] package.artifacts@[k]).format
                    == ArchiveFormat::Raw || package.artifacts@[k].destination@
                    != package.executable@
        },
    decreases package.artifacts@.len() - from,
{
    let artifacts = package.artifacts@;
    if from < artifacts.len() {
        lemma_destinations(package, case, from + 1);
        if destination_collides(artifacts, from, case) {
            let j = choose|j: int|
                0 <= j < from && destination_key((#[trigger] artifacts[j]).destination@, case)
                    == destination_key(artifacts[from].destination@, case);
            assert(destination_key(artifacts[j].destination@, case) == destination_key(
                artifacts[from].destination@,
                case,
            ));
        } else {
            assert forall|j: int| 0 <= j < from implies destination_key(
                (#[trigger] artifacts[j]).destination@,
                case,
            ) != destination_key(artifacts[from].destination@, case) by {}
        }
    }
}

/// Destinations are accepted if and only if no two artifacts go to one, names that differ in case
/// being one where the file system folds them, and no archive is unpacked where the executable
/// lies.
pub proof fn artifacts_go_to_places_of_their_own(package: Package, case: NameCase)
    ensures
        destinations_fault(package, case, 0) is None <==> {
            &&& forall|j: int, k: int|
                0 <= j < k < package.artifacts@.len() ==> destination_key(
                    (#[trigger] package.artifacts@[j]).destination@,
                    case,
                ) != destination_key((#[trigger] package.artifacts@[k]).destination@, case)
            &&& forall|k: int|
                0 <= k < package.artifacts@.len() ==> (#[trigger] package.artifacts@[k]).format
                    == ArchiveFormat::Raw || package.artifacts@[k].destination@
                    != package.executable@
        },
        forall|text: Seq<char>| #[trigger] destination_key(text, NameCase::Distinct) == text,
        forall|text: Seq<char>| #[trigger]
            destination_key(text, NameCase::Folded) == lowercase(text),
{
    lemma_destinations(package, case, 0);
}

/// A plan is for the model and the platform that were asked for: the model has that identifier, its
/// package is for that platform, and the identifier, the directory and the number of bytes of the
/// installation are those of that package.
pub proof fn plans_are_for_what_was_asked(
    store: StoreView,
    recipe: Recipe,
    model_id: Seq<char>,
    options: InstallOptions,
    platform: Result<Seq<char>, ErrorView>,
    digest: Seq<char>,
    case: NameCase,
)
    ensures
        install_plan(store, recipe, model_id, options, platform, digest, case) matches Ok(plan)
            ==> {
            let package = recipe.models@[plan.model].packages@[plan.package];
            &&& platform == Ok::<Seq<char>, ErrorView>(plan.platform)
            &&& 0 <= plan.model < recipe.models@.len()
            &&& recipe.models@[plan.model].id@ == model_id
            &&& 0 <= plan.package < recipe.models@[plan.model].packages@.len()
            &&& package.platform@ == plan.platform
            &&& plan.recipe_sha256 == digest
            &&& plan.install_id == recipe.id@ + seq![':'] + model_id + seq![':'] + recipe.version@
                + seq![':'] + plan.platform
            &&& plan.generation.parts == store.data_root.parts + seq![
                PartView::Normal("installs"@),
                PartView::Normal(recipe.id@),
                PartView::Normal(model_id),
                PartView::Normal(recipe.version@),
                PartView::Normal(plan.platform),
            ]
            &&& plan.total_bytes == declared_bytes(
                package.artifacts@,
                package.artifacts@.len() as int,
            )
            &&& destinations_fault(package, case, 0) is None
        },
{
    lemma_model_at(recipe.models@, model_id, 0);
    reveal_strlit(":");
    assert(":"@ =~= seq![':']);
    match install_plan(store, recipe, model_id, options, platform, digest, case) {
        Ok(plan) => {
            lemma_package_at(recipe.models@[plan.model].packages@, plan.platform, 0);
            generations_have_five_names(
                store,
                recipe.id@,
                model_id,
                recipe.version@,
                plan.platform,
            );
        },
        Err(_) => {},
    }
}

/// There is a plan for every model of an accepted recipe that has a package for the platform with
/// artifacts that do not collide, once the recipe was reviewed or approved; there is none for any
/// other.
pub proof fn accepted_recipes_can_be_planned(
    store: StoreView,
    recipe: Recipe,
    options: InstallOptions,
    digest: Seq<char>,
    case: NameCase,
    model: int,
    package: int,
)
    requires
        recipe_fault(recipe, https_urls()) is None,
        0 <= model < recipe.models@.len(),
        0 <= package < recipe.models@[model].packages@.len(),
        options.source == InstallSource::Curated || options.approve_unreviewed,
    ensures
        ({
            let chosen = recipe.models@[model].packages@[package];
            let plan = install_plan(
                store,
                recipe,
                recipe.models@[model].id@,
                options,
                Ok(chosen.platform@),
                digest,
                case,
            );
            match destinations_fault(chosen, case, 0) {
                None => plan matches Ok(plan) && plan.model == model && plan.package == package,
                Some(error) => plan == Err::<PlanView, ErrorView>(error),
            }
        }),
{
    let models = recipe.models@;
    let id = models[model].id@;
    accepted_recipes_obey_every_rule(recipe, https_urls());
    lemma_model_at(models, id, 0);
    let at = model_at(models, id, 0);
    assert(model_valid(models, model, https_urls()));
    assert(model_valid(models, at, https_urls()));
    if at < model {
        assert(models[at].id@ == models[model].id@);
        assert(model_taken(models, model));
    }
    assert(at == model);
    let packages = models[model].packages@;
    let platform = packages[package].platform@;
    lemma_package_at(packages, platform, 0);
    let found = package_at(packages, platform, 0);
    assert(package_valid(packages, package, https_urls()));
    if found < package {
        assert(packages[found].platform@ == packages[package].platform@);
        assert(platform_taken(packages, package));
    }
}

/// No plan is made of a recipe that is not accepted, of one that nobody reviewed or approved, for a
/// platform that is not known, or for a model or a platform that the recipe does not have.
pub proof fn other_recipes_cannot_be_planned(
    store: StoreView,
    recipe: Recipe,
    model_id: Seq<char>,
    options: InstallOptions,
    platform: Result<Seq<char>, ErrorView>,
    digest: Seq<char>,
    case: NameCase,
)
    requires
        ({
            ||| recipe_fault(recipe, https_urls()) is Some
            ||| options.source == InstallSource::UnreviewedRecipe && !options.approve_unreviewed
            ||| platform is Err
            ||| forall|i: int|
                0 <= i < recipe.models@.len() ==> (#[trigger] recipe.models@[i]).id@ != model_id
            ||| forall|i: int, j: int|
                0 <= i < recipe.models@.len() && recipe.models@[i].id@ == model_id && 0 <= j
                    < recipe.models@[i].packages@.len() ==> (
                #[trigger] recipe.models@[i].packages@[j]).platform@ != platform->Ok_0
        }),
    ensures
        install_plan(store, recipe, model_id, options, platform, digest, case) is Err,
{
    plans_are_for_what_was_asked(store, recipe, model_id, options, platform, digest, case);
    match install_plan(store, recipe, model_id, options, platform, digest, case) {
        Ok(plan) => {
            let found = recipe.models@[plan.model].packages@[plan.package];
        },
        Err(_) => {},
    }
}

/// The platform that is installed for is the one that was asked for; without one, that of the
/// machine, if it has one.
pub proof fn asked_platforms_are_chosen(asked: String, os: Seq<char>, arch: Seq<char>)
    ensures
        chosen_platform(Some(asked), os, arch) == Ok::<Seq<char>, ErrorView>(asked@),
        chosen_platform(None, os, arch) == match platform_name(os, arch) {
            Some(name) => Ok::<Seq<char>, ErrorView>(name),
            None => Err(ErrorView::UnsupportedPlatform(os + seq!['-'] + arch)),
        },
{
    reveal_strlit("-");
    assert("-"@ =~= seq!['-']);
}

/// Two installations have one identifier if and only if they are of one recipe, model, version and
/// platform, none of which holds a colon.
pub proof fn identifiers_tell_installations_apart(
    left: Recipe,
    left_model: Seq<char>,
    left_platform: Seq<char>,
    right: Recipe,
    right_model: Seq<char>,
    right_platform: Seq<char>,
)
    requires
        !left.id@.contains(':'),
        !left_model.contains(':'),
        !left.version@.contains(':'),
        !left_platform.contains(':'),
        !right.id@.contains(':'),
        !right_model.contains(':'),
        !right.version@.contains(':'),
        !right_platform.contains(':'),
    ensures
        install_identifier(left, left_model, left_platform) == install_identifier(
            right,
            right_model,
            right_platform,
        ) <==> left.id@ == right.id@ && left_model == right_model && left.version@ == right.version@
            && left_platform == right_platform,
{
    let four = seq![left.id@, left_model, left.version@, left_platform];
    let others = seq![right.id@, right_model, right.version@, right_platform];
    lemma_identifier(left, left_model, left_platform);
    lemma_identifier(right, right_model, right_platform);
    joined_texts_fall_apart_again(four, ':');
    joined_texts_fall_apart_again(others, ':');
    if install_identifier(left, left_model, left_platform) == install_identifier(
        right,
        right_model,
        right_platform,
    ) {
        assert(four == others);
        assert(four[0] == others[0] && four[1] == others[1] && four[2] == others[2] && four[3]
            == others[3]);
    }
}

proof fn lemma_identifier(recipe: Recipe, model: Seq<char>, platform: Seq<char>)
    ensures
        install_identifier(recipe, model, platform) == joined_with(
            seq![recipe.id@, model, recipe.version@, platform],
            ':',
        ),
{
    reveal_strlit(":");
    assert(":"@ =~= seq![':']);
    let four = seq![recipe.id@, model, recipe.version@, platform];
    reveal_with_fuel(joined_with, 5);
    assert(four.skip(1) =~= seq![model, recipe.version@, platform]);
    assert(four.skip(1).skip(1) =~= seq![recipe.version@, platform]);
    assert(four.skip(1).skip(1).skip(1) =~= seq![platform]);
    assert(install_identifier(recipe, model, platform) =~= joined_with(four, ':'));
}

/// Nothing is used again where nothing stands in the place of an installation. Where something
/// does, it is used again if and only if the first record with the identifier of the installation
/// is of the same recipe and the same source.
pub proof fn only_equal_installations_are_used_again(
    plan: PlanView,
    source: InstallSource,
    records: Seq<InstallRecord>,
    at: int,
)
    requires
        0 <= at <= records.len(),
        forall|i: int| 0 <= i < at ==> (#[trigger] records[i]).install_id@ != plan.install_id,
        at < records.len() ==> records[at].install_id@ == plan.install_id,
    ensures
        install_course(plan, source, None) == Ok::<Option<InstallRecord>, ErrorView>(None),
        at < records.len() && records[at].source == source && records[at].recipe_sha256@
            == plan.recipe_sha256 ==> install_course(plan, source, Some(records)) == Ok::<
            Option<InstallRecord>,
            ErrorView,
        >(Some(records[at])),
        at == records.len() || records[at].source != source || records[at].recipe_sha256@
            != plan.recipe_sha256 ==> install_course(plan, source, Some(records)) is Err,
{
    lemma_record_at(records, plan.install_id, 0, at);
}

/// The launcher of a package is bound to it for the reviewed recipe `maia3`, and for no other.
pub proof fn only_maia3_is_bound(source: InstallSource, recipe_id: Seq<char>)
    ensures
        binds_launcher(source, recipe_id) <==> source == InstallSource::Curated && recipe_id
            == seq!['m', 'a', 'i', 'a', '3'],
{
    reveal_strlit("maia3");
    assert("maia3"@ =~= seq!['m', 'a', 'i', 'a', '3']);
}

/// A package that was unpacked is accepted if and only if its working directory is a directory and
/// both it and the executable lie in the package; an installation that was found, if and only if
/// its executable is a file besides, and it lies below the installations and where its record says.
pub proof fn paths_stay_in_their_package(
    root: PlaceView,
    executable: PlaceView,
    working: PlaceView,
    parent: PlaceView,
    manifest: PlaceView,
    record: RecordView,
    is_file: bool,
    is_directory: bool,
)
    ensures
        staged_fault(root, executable, working, is_directory) is None <==> is_directory
            && executable.within(root) && working.within(root),
        recovered_paths_fault(root, executable, is_file, working, is_directory) is None <==> is_file
            && is_directory && executable.within(root) && working.within(root),
        recovered_generation_fault(root, working, parent, manifest, record) is None
            <==> working.within(root) && working.parts != root.parts && record.generation_root.parts
            == parent.parts,
{
}

/// Of what lies among the installations, directories whose names begin with `.staging-` are
/// removed, files named `uci-grabber-install.json` are read, and all else is left.
pub proof fn leftovers_are_told_by_their_names(
    name: Seq<char>,
    rest: Seq<char>,
    is_directory: bool,
    is_file: bool,
)
    ensures
        recovery_action(Some(name), true, false) == RecoveryAction::RemoveStaging <==> begins_with(
            name,
            ".staging-"@,
        ),
        recovery_action(Some(".staging-"@ + rest), true, is_file) == RecoveryAction::RemoveStaging,
        recovery_action(Some(name), false, true) == RecoveryAction::ReadRecord <==> name
            == "uci-grabber-install.json"@,
        recovery_action(Some(name), false, false) == RecoveryAction::Leave,
        recovery_action(Some(name), true, false) == RecoveryAction::RemoveStaging
            || recovery_action(Some(name), true, false) == RecoveryAction::Leave,
        recovery_action(Some(name), false, true) != RecoveryAction::RemoveStaging,
        recovery_action(None, is_directory, is_file) == RecoveryAction::Leave,
{
    let staged = ".staging-"@ + rest;
    assert(staged.take(".staging-"@.len() as int) =~= ".staging-"@);
}

/// What cannot be planned fails for the first of these: what is wrong with the recipe, that nobody
/// reviewed or approved it, that the platform is not known, that there is no such model, and that
/// the model has no package for the platform.
pub proof fn refused_plans_say_why(
    store: StoreView,
    recipe: Recipe,
    model_id: Seq<char>,
    options: InstallOptions,
    platform: Result<Seq<char>, ErrorView>,
    digest: Seq<char>,
    case: NameCase,
)
    ensures
        recipe_fault(recipe, https_urls()) matches Some(error) ==> install_plan(
            store,
            recipe,
            model_id,
            options,
            platform,
            digest,
            case,
        ) == Err::<PlanView, ErrorView>(error),
        recipe_fault(recipe, https_urls()) is None && options.source
            == InstallSource::UnreviewedRecipe && !options.approve_unreviewed ==> install_plan(
            store,
            recipe,
            model_id,
            options,
            platform,
            digest,
            case,
        ) == Err::<PlanView, ErrorView>(approval_error()),
        recipe_fault(recipe, https_urls()) is None && (options.source == InstallSource::Curated
            || options.approve_unreviewed) ==> {
            &&& platform matches Err(error) ==> install_plan(
                store,
                recipe,
                model_id,
                options,
                platform,
                digest,
                case,
            ) == Err::<PlanView, ErrorView>(error)
            &&& platform is Ok && (forall|i: int|
                0 <= i < recipe.models@.len() ==> (#[trigger] recipe.models@[i]).id@ != model_id)
                ==> (install_plan(
                store,
                recipe,
                model_id,
                options,
                platform,
                digest,
                case,
            ) matches Err(error) && error is InvalidRecipe)
        },
{
    lemma_model_at(recipe.models@, model_id, 0);
}

/// A place that is taken by what is not registered is refused by what stands there; one that is
/// taken by an installation of another recipe or from another source is refused as a conflict of
/// that installation.
pub proof fn refused_places_say_why(
    plan: PlanView,
    source: InstallSource,
    records: Seq<InstallRecord>,
    at: int,
)
    requires
        0 <= at <= records.len(),
        forall|i: int| 0 <= i < at ==> (#[trigger] records[i]).install_id@ != plan.install_id,
        at < records.len() ==> records[at].install_id@ == plan.install_id,
    ensures
        at == records.len() ==> install_course(plan, source, Some(records)) == Err::<
            Option<InstallRecord>,
            ErrorView,
        >(
            ErrorView::Other(
                "immutable generation already exists but is not registered: "@
                    + plan.generation.shown + " (run status --repair)"@,
            ),
        ),
        at < records.len() && (records[at].source != source || records[at].recipe_sha256@
            != plan.recipe_sha256) ==> install_course(plan, source, Some(records)) == Err::<
            Option<InstallRecord>,
            ErrorView,
        >(conflict_error(plan.install_id)),
{
    lemma_record_at(records, plan.install_id, 0, at);
}

} // verus!
