//! Recipes and catalogs, and the rules that they obey as a whole.

use vstd::prelude::*;
use vstd::slice::slice_subrange;
use crate::error::{fails_with, settles, Error, ErrorView};
use crate::moment::{
    canonical_timestamp, civil_part, current_time, earlier, is_earlier, is_timestamp, moment_of,
    timestamp_error,
};
use crate::order::{comes_before, text_less};
use crate::portable::{is_portable_relative, relative_fault, validate_relative};
use crate::rules::{
    core_version_fault, digest_fault, is_digest, is_plain_text, is_platform, is_semver, is_slug,
    is_spdx, platform_fault, slug_fault, spdx_fault, text_fault, validate_core_version,
    validate_digest, validate_platform, validate_slug, validate_spdx, validate_text,
    validate_version, version_fault,
};
use crate::text::{
    chars_of, find_last, join2, join3, join4, join5, last_at, same_text, text_of,
    the_last_separator_is_found,
};
use crate::web::{https, https_fault, https_verdict, is_https};

verus! {

pub const RECIPE_SCHEMA: &'static str = "uci-grabber-recipe/v1";

pub const CATALOG_SCHEMA: &'static str = "uci-grabber-catalog/v1";

/// The most bytes of a recipe or catalog document.
pub const MAX_MANIFEST_BYTES: usize = 524_288;

/// The most bytes of a detached signature.
pub const MAX_SIGNATURE_BYTES: usize = 4_096;

/// The most bytes that the artifacts of one package declare together.
pub const MAX_PACKAGE_DOWNLOAD_BYTES: u64 = 2_147_483_648;

/// The most bytes that one artifact declares.
pub const MAX_ARTIFACT_BYTES: u64 = 1_073_741_824;

/// The most bytes that one model artifact declares.
pub const MAX_MODEL_ARTIFACT_BYTES: u64 = 419_430_400;

/// Complete, directly runnable UCI packages of one engine version.
#[derive(Clone, Debug, PartialEq, Eq)]
pub struct Recipe {
    pub schema: String,
    pub id: String,
    pub name: String,
    pub version: String,
    pub description: String,
    pub publisher: Publisher,
    pub license: License,
    pub homepage: String,
    pub minimum_fisheye_version: String,
    pub models: Vec<Model>,
}

/// Who publishes an engine.
#[derive(Clone, Debug, PartialEq, Eq)]
pub struct Publisher {
    pub name: String,
    pub url: String,
}

/// The terms of an engine.
#[derive(Clone, Debug, PartialEq, Eq)]
pub struct License {
    pub spdx: String,
    pub name: String,
    pub url: String,
    pub source_url: String,
}

/// One selectable variant of an engine.
#[derive(Clone, Debug, PartialEq, Eq)]
pub struct Model {
    pub id: String,
    pub name: String,
    pub description: String,
    pub packages: Vec<Package>,
}

/// What is installed on one platform.
#[derive(Clone, Debug, PartialEq, Eq)]
pub struct Package {
    pub platform: String,
    pub artifacts: Vec<Artifact>,
    pub executable: String,
    pub working_directory: String,
}

/// One downloaded file.
#[derive(Clone, Debug, PartialEq, Eq)]
pub struct Artifact {
    pub kind: ArtifactKind,
    pub url: String,
    pub byte_count: u64,
    pub sha256: String,
    pub format: ArchiveFormat,
    pub destination: String,
}

/// What an artifact is for.
#[derive(Clone, Copy, Debug, PartialEq, Eq, Structural)]
pub enum ArtifactKind {
    Runtime,
    Model,
    Other,
}

/// How an artifact is packed.
#[derive(Clone, Copy, Debug, PartialEq, Eq, Structural)]
pub enum ArchiveFormat {
    Raw,
    Zip,
    TarGz,
    TarZst,
}

/// The recipes of a release.
#[derive(Clone, Debug, PartialEq, Eq)]
pub struct Catalog {
    pub schema: String,
    pub generated_at: String,
    pub expires_at: String,
    pub recipes: Vec<Recipe>,
}

/// The first of two faults that is one.
pub open spec fn first_of(first: Option<ErrorView>, second: Option<ErrorView>) -> Option<ErrorView> {
    if first is Some {
        first
    } else {
        second
    }
}

/// The fault of a recipe that breaks a rule of its own.
pub open spec fn broken(message: Seq<char>) -> Option<ErrorView> {
    Some(ErrorView::InvalidRecipe(message))
}

/// The bytes that the first `count` artifacts declare together.
pub open spec fn declared_bytes(artifacts: Seq<Artifact>, count: int) -> int
    decreases count,
{
    if count <= 0 {
        0
    } else {
        declared_bytes(artifacts, count - 1) + artifacts[count - 1].byte_count
    }
}

/// How many of the first `count` artifacts are of a kind.
pub open spec fn count_kind(artifacts: Seq<Artifact>, kind: ArtifactKind, count: int) -> int
    decreases count,
{
    if count <= 0 {
        0
    } else {
        count_kind(artifacts, kind, count - 1) + if artifacts[count - 1].kind == kind {
            1int
        } else {
            0int
        }
    }
}

/// ``model `M` package `P` `` and what is wrong with it.
pub open spec fn package_message(
    model: Seq<char>,
    platform: Seq<char>,
    complaint: Seq<char>,
) -> Seq<char> {
    "model `"@ + model + "` package `"@ + platform + "` "@ + complaint
}

/// Whether an earlier artifact has the same destination.
pub open spec fn destination_taken(artifacts: Seq<Artifact>, k: int) -> bool {
    exists|j: int| 0 <= j < k && (#[trigger] artifacts[j]).destination@ == artifacts[k].destination@
}

/// What is wrong with one artifact.
pub open spec fn artifact_fault(
    model: Seq<char>,
    package: Package,
    k: int,
    https: spec_fn(Seq<char>) -> bool,
) -> Option<ErrorView> {
    let artifact = package.artifacts@[k];
    if !https(artifact.url@) {
        https_fault(false, "artifact URL"@)
    } else if artifact.byte_count == 0 {
        broken("artifact byte_count must be greater than zero"@)
    } else if artifact.byte_count > MAX_ARTIFACT_BYTES {
        broken("artifact byte_count exceeds 1073741824"@)
    } else if artifact.kind == ArtifactKind::Model && artifact.byte_count
        > MAX_MODEL_ARTIFACT_BYTES {
        broken("model artifact byte_count exceeds 419430400"@)
    } else if declared_bytes(package.artifacts@, k + 1) > MAX_PACKAGE_DOWNLOAD_BYTES {
        broken(
            package_message(
                model,
                package.platform@,
                "declares more than 2147483648 download bytes"@,
            ),
        )
    } else {
        first_of(
            digest_fault(artifact.sha256@),
            first_of(
                relative_fault(artifact.destination@, false, "artifact destination"@),
                if destination_taken(package.artifacts@, k) {
                    broken("duplicate artifact destination `"@ + artifact.destination@ + "`"@)
                } else {
                    None
                },
            ),
        )
    }
}

/// What is wrong with the artifacts from position `k` on.
pub open spec fn artifacts_fault(
    model: Seq<char>,
    package: Package,
    k: int,
    https: spec_fn(Seq<char>) -> bool,
) -> Option<ErrorView>
    decreases package.artifacts@.len() - k,
{
    if k >= package.artifacts@.len() {
        None
    } else {
        first_of(
            artifact_fault(model, package, k, https),
            artifacts_fault(model, package, k + 1, https),
        )
    }
}

/// The directory that holds a file of a package; `.` for the root of the package.
pub open spec fn parent_directory(path: Seq<char>) -> Seq<char> {
    if last_at(path, '/') < 0 {
        "."@
    } else {
        path.take(last_at(path, '/'))
    }
}

/// Whether an earlier package of the model is for the same platform.
pub open spec fn platform_taken(packages: Seq<Package>, j: int) -> bool {
    exists|i: int| 0 <= i < j && (#[trigger] packages[i]).platform@ == packages[j].platform@
}

/// What is wrong with one package once its artifacts are in order.
pub open spec fn layout_fault(model: Seq<char>, package: Package) -> Option<ErrorView> {
    let count = package.artifacts@.len() as int;
    if package.working_directory@ != parent_directory(package.executable@) {
        broken(
            package_message(
                model,
                package.platform@,
                "working_directory must equal executable parent `"@ + parent_directory(
                    package.executable@,
                ) + "`"@,
            ),
        )
    } else if count_kind(package.artifacts@, ArtifactKind::Runtime, count) != 1 {
        broken(
            package_message(
                model,
                package.platform@,
                "must contain exactly one runtime artifact"@,
            ),
        )
    } else if count_kind(package.artifacts@, ArtifactKind::Model, count) > 1 {
        broken(
            package_message(model, package.platform@, "contains multiple model artifacts"@),
        )
    } else {
        None
    }
}

/// What is wrong with one package.
pub open spec fn package_fault(
    model: Seq<char>,
    packages: Seq<Package>,
    j: int,
    https: spec_fn(Seq<char>) -> bool,
) -> Option<ErrorView> {
    let package = packages[j];
    first_of(
        platform_fault(package.platform@),
        if platform_taken(packages, j) {
            broken(
                "model `"@ + model + "` has duplicate platform `"@ + package.platform@ + "`"@,
            )
        } else {
            first_of(
                relative_fault(package.executable@, false, "executable"@),
                first_of(
                    relative_fault(package.working_directory@, true, "working directory"@),
                    if package.artifacts@.len() == 0 {
                        broken(package_message(model, package.platform@, "has no artifacts"@))
                    } else if package.artifacts@.len() > 16 {
                        broken(
                            package_message(
                                model,
                                package.platform@,
                                "has more than 16 artifacts"@,
                            ),
                        )
                    } else {
                        first_of(
                            artifacts_fault(model, package, 0, https),
                            layout_fault(model, package),
                        )
                    },
                ),
            )
        },
    )
}

/// What is wrong with the packages from position `j` on.
pub open spec fn packages_fault(
    model: Seq<char>,
    packages: Seq<Package>,
    j: int,
    https: spec_fn(Seq<char>) -> bool,
) -> Option<ErrorView>
    decreases packages.len() - j,
{
    if j >= packages.len() {
        None
    } else {
        first_of(
            package_fault(model, packages, j, https),
            packages_fault(model, packages, j + 1, https),
        )
    }
}

/// Whether an earlier model has the same identifier.
pub open spec fn model_taken(models: Seq<Model>, i: int) -> bool {
    exists|h: int| 0 <= h < i && (#[trigger] models[h]).id@ == models[i].id@
}

/// What is wrong with one model.
pub open spec fn model_fault(
    models: Seq<Model>,
    i: int,
    https: spec_fn(Seq<char>) -> bool,
) -> Option<ErrorView> {
    let model = models[i];
    first_of(
        slug_fault(model.id@, "model id"@),
        first_of(
            text_fault(model.name@, "model name"@, 256),
            first_of(
                text_fault(model.description@, "model description"@, 4096),
                if model_taken(models, i) {
                    broken("duplicate model id `"@ + model.id@ + "`"@)
                } else if model.packages@.len() == 0 {
                    broken("model `"@ + model.id@ + "` has no platform package"@)
                } else if model.packages@.len() > 6 {
                    broken("model `"@ + model.id@ + "` has more than 6 packages"@)
                } else {
                    packages_fault(model.id@, model.packages@, 0, https)
                },
            ),
        ),
    )
}

/// What is wrong with the models from position `i` on.
pub open spec fn models_fault(
    models: Seq<Model>,
    i: int,
    https: spec_fn(Seq<char>) -> bool,
) -> Option<ErrorView>
    decreases models.len() - i,
{
    if i >= models.len() {
        None
    } else {
        first_of(model_fault(models, i, https), models_fault(models, i + 1, https))
    }
}

/// What is wrong with the fields that describe the engine.
pub open spec fn header_fault(recipe: Recipe, https: spec_fn(Seq<char>) -> bool) -> Option<
    ErrorView,
> {
    if recipe.schema@ != RECIPE_SCHEMA@ {
        broken("unsupported schema `"@ + recipe.schema@ + "`"@)
    } else {
        first_of(
            slug_fault(recipe.id@, "recipe id"@),
            first_of(
                text_fault(recipe.name@, "name"@, 256),
                first_of(
                    version_fault(recipe.version@),
                    first_of(
                        text_fault(recipe.description@, "description"@, 4096),
                        first_of(
                            text_fault(recipe.publisher.name@, "publisher name"@, 256),
                            first_of(
                                https_fault(https(recipe.publisher.url@), "publisher URL"@),
                                terms_fault(recipe, https),
                            ),
                        ),
                    ),
                ),
            ),
        )
    }
}

/// What is wrong with the license, the homepage and the version of FishEye.
pub open spec fn terms_fault(recipe: Recipe, https: spec_fn(Seq<char>) -> bool) -> Option<
    ErrorView,
> {
    first_of(
        spdx_fault(recipe.license.spdx@),
        first_of(
            text_fault(recipe.license.name@, "license name"@, 256),
            first_of(
                https_fault(https(recipe.license.url@), "license URL"@),
                first_of(
                    https_fault(https(recipe.license.source_url@), "source URL"@),
                    first_of(
                        https_fault(https(recipe.homepage@), "homepage"@),
                        core_version_fault(
                            recipe.minimum_fisheye_version@,
                            "minimum_fisheye_version"@,
                        ),
                    ),
                ),
            ),
        ),
    )
}

/// The first thing that is wrong with a recipe, in the order of its fields, given which addresses
/// are acceptable.
pub open spec fn recipe_fault(recipe: Recipe, https: spec_fn(Seq<char>) -> bool) -> Option<
    ErrorView,
> {
    first_of(
        header_fault(recipe, https),
        if recipe.models@.len() == 0 {
            broken("at least one model is required"@)
        } else if recipe.models@.len() > 64 {
            broken("models contains more than 64 entries"@)
        } else {
            models_fault(recipe.models@, 0, https)
        },
    )
}

/// Which texts are acceptable HTTPS addresses.
pub open spec fn https_urls() -> spec_fn(Seq<char>) -> bool {
    |text: Seq<char>| is_https(text)
}

/// Whether a list holds a text.
pub open spec fn lists(texts: Seq<String>, text: Seq<char>) -> bool {
    exists|i: int| 0 <= i < texts.len() && (#[trigger] texts[i])@ == text
}

/// Which texts stand in a list.
pub open spec fn listed_urls(urls: Seq<String>) -> spec_fn(Seq<char>) -> bool {
    |text: Seq<char>| lists(urls, text)
}

/// Whether the list holds the text.
pub fn listed(texts: &Vec<String>, text: &str) -> (answer: bool)
    ensures
        answer == lists(texts@, text@),
{
    for i in 0..texts.len()
        invariant
            forall|k: int| 0 <= k < i ==> (#[trigger] texts@[k])@ != text@,
    {
        if same_text(texts[i].as_str(), text) {
            return true;
        }
    }
    false
}

fn package_complaint(model: &str, platform: &str, complaint: &str) -> (error: Error)
    ensures
        error@ == ErrorView::InvalidRecipe(package_message(model@, platform@, complaint@)),
{
    let head = join5("model `", model, "` package `", platform, "` ");
    Error::InvalidRecipe(join2(head.as_str(), complaint))
}

/// The directory that holds a file of a package; `.` for the root of the package.
pub fn executable_parent(path: &str) -> (parent: String)
    ensures
        parent@ == parent_directory(path@),
{
    let chars = chars_of(path);
    match find_last(chars.as_slice(), '/') {
        Some(at) => {
            let parent = slice_subrange(chars.as_slice(), 0, at);
            assert(parent@ =~= path@.take(at as int));
            text_of(parent)
        },
        None => ".".to_owned(),
    }
}

fn check_artifact(
    model: &str,
    package: &Package,
    k: usize,
    urls: &Vec<String>,
    declared: u64,
) -> (outcome: Result<(), Error>)
    requires
        k < package.artifacts@.len(),
        declared == declared_bytes(package.artifacts@, k as int),
        declared <= MAX_PACKAGE_DOWNLOAD_BYTES,
    ensures
        settles(outcome, artifact_fault(model@, *package, k as int, listed_urls(urls@))),
{
    let artifact = &package.artifacts[k];
    let check = https_verdict(listed(urls, artifact.url.as_str()), "artifact URL");
    if check.is_err() {
        return check;
    }
    if artifact.byte_count == 0 {
        return Err(
            Error::InvalidRecipe("artifact byte_count must be greater than zero".to_owned()),
        );
    }
    if artifact.byte_count > MAX_ARTIFACT_BYTES {
        return Err(Error::InvalidRecipe("artifact byte_count exceeds 1073741824".to_owned()));
    }
    if artifact.kind == ArtifactKind::Model && artifact.byte_count > MAX_MODEL_ARTIFACT_BYTES {
        return Err(Error::InvalidRecipe("model artifact byte_count exceeds 419430400".to_owned()));
    }
    assert(declared_bytes(package.artifacts@, k + 1) == declared + artifact.byte_count);
    if declared + artifact.byte_count > MAX_PACKAGE_DOWNLOAD_BYTES {
        return Err(
            package_complaint(
                model,
                package.platform.as_str(),
                "declares more than 2147483648 download bytes",
            ),
        );
    }
    let check = validate_digest(artifact.sha256.as_str());
    if check.is_err() {
        return check;
    }
    let check = validate_relative(artifact.destination.as_str(), false, "artifact destination");
    if check.is_err() {
        return check;
    }
    for j in 0..k
        invariant
            k < package.artifacts@.len(),
            *artifact == package.artifacts@[k as int],
            artifact_fault(model@, *package, k as int, listed_urls(urls@)) == if destination_taken(
                package.artifacts@,
                k as int,
            ) {
                broken("duplicate artifact destination `"@ + artifact.destination@ + "`"@)
            } else {
                None
            },
            forall|i: int|
                0 <= i < j ==> (#[trigger] package.artifacts@[i]).destination@
                    != artifact.destination@,
    {
        if package.artifacts[j].destination == artifact.destination {
            assert(destination_taken(package.artifacts@, k as int));
            return Err(
                Error::InvalidRecipe(
                    join3("duplicate artifact destination `", artifact.destination.as_str(), "`"),
                ),
            );
        }
    }
    Ok(())
}

fn check_package(
    model: &str,
    packages: &Vec<Package>,
    j: usize,
    urls: &Vec<String>,
) -> (outcome: Result<(), Error>)
    requires
        j < packages@.len(),
    ensures
        settles(outcome, package_fault(model@, packages@, j as int, listed_urls(urls@))),
{
    let package = &packages[j];
    let ghost https = listed_urls(urls@);
    let check = validate_platform(package.platform.as_str());
    if check.is_err() {
        return check;
    }
    if platform_repeated(packages, j) {
        return Err(
            Error::InvalidRecipe(
                join5(
                    "model `",
                    model,
                    "` has duplicate platform `",
                    package.platform.as_str(),
                    "`",
                ),
            ),
        );
    }
    let check = validate_relative(package.executable.as_str(), false, "executable");
    if check.is_err() {
        return check;
    }
    let check = validate_relative(package.working_directory.as_str(), true, "working directory");
    if check.is_err() {
        return check;
    }
    if package.artifacts.len() == 0 {
        return Err(package_complaint(model, package.platform.as_str(), "has no artifacts"));
    }
    if package.artifacts.len() > 16 {
        return Err(
            package_complaint(model, package.platform.as_str(), "has more than 16 artifacts"),
        );
    }
    let check = check_artifacts(model, package, urls);
    if check.is_err() {
        return check;
    }
    check_layout(model, package)
}

fn platform_repeated(packages: &Vec<Package>, j: usize) -> (answer: bool)
    requires
        j < packages@.len(),
    ensures
        answer == platform_taken(packages@, j as int),
{
    for i in 0..j
        invariant
            j < packages@.len(),
            forall|h: int|
                0 <= h < i ==> (#[trigger] packages@[h]).platform@
                    != packages@[j as int].platform@,
    {
        if packages[i].platform == packages[j].platform {
            return true;
        }
    }
    false
}

fn check_artifacts(model: &str, package: &Package, urls: &Vec<String>) -> (outcome: Result<
    (),
    Error,
>)
    ensures
        settles(outcome, artifacts_fault(model@, *package, 0, listed_urls(urls@))),
{
    let mut declared: u64 = 0;
    let ghost https = listed_urls(urls@);
    for k in 0..package.artifacts.len()
        invariant
            https == listed_urls(urls@),
            artifacts_fault(model@, *package, 0, https) == artifacts_fault(
                model@,
                *package,
                k as int,
                https,
            ),
            declared == declared_bytes(package.artifacts@, k as int),
            declared <= MAX_PACKAGE_DOWNLOAD_BYTES,
    {
        let check = check_artifact(model, package, k, urls, declared);
        if check.is_err() {
            return check;
        }
        assert(declared_bytes(package.artifacts@, k + 1) == declared
            + package.artifacts@[k as int].byte_count);
        declared = declared + package.artifacts[k].byte_count;
    }
    Ok(())
}

fn check_layout(model: &str, package: &Package) -> (outcome: Result<(), Error>)
    requires
        package.artifacts@.len() <= 16,
    ensures
        settles(outcome, layout_fault(model@, *package)),
{
    let expected = executable_parent(package.executable.as_str());
    if package.working_directory != expected {
        let complaint = join3(
            "working_directory must equal executable parent `",
            expected.as_str(),
            "`",
        );
        return Err(package_complaint(model, package.platform.as_str(), complaint.as_str()));
    }
    let mut runtimes: usize = 0;
    let mut models: usize = 0;
    for k in 0..package.artifacts.len()
        invariant
            package.artifacts@.len() <= 16,
            runtimes == count_kind(package.artifacts@, ArtifactKind::Runtime, k as int),
            models == count_kind(package.artifacts@, ArtifactKind::Model, k as int),
            runtimes <= k,
            models <= k,
    {
        if package.artifacts[k].kind == ArtifactKind::Runtime {
            runtimes = runtimes + 1;
        }
        if package.artifacts[k].kind == ArtifactKind::Model {
            models = models + 1;
        }
    }
    if runtimes != 1 {
        return Err(
            package_complaint(
                model,
                package.platform.as_str(),
                "must contain exactly one runtime artifact",
            ),
        );
    }
    if models > 1 {
        return Err(
            package_complaint(
                model,
                package.platform.as_str(),
                "contains multiple model artifacts",
            ),
        );
    }
    Ok(())
}

fn model_repeated(models: &Vec<Model>, i: usize) -> (answer: bool)
    requires
        i < models@.len(),
    ensures
        answer == model_taken(models@, i as int),
{
    for h in 0..i
        invariant
            i < models@.len(),
            forall|g: int| 0 <= g < h ==> (#[trigger] models@[g]).id@ != models@[i as int].id@,
    {
        if models[h].id == models[i].id {
            return true;
        }
    }
    false
}

fn check_model(models: &Vec<Model>, i: usize, urls: &Vec<String>) -> (outcome: Result<(), Error>)
    requires
        i < models@.len(),
    ensures
        settles(outcome, model_fault(models@, i as int, listed_urls(urls@))),
{
    let model = &models[i];
    let id = model.id.as_str();
    let check = validate_slug(id, "model id");
    if check.is_err() {
        return check;
    }
    let check = validate_text(model.name.as_str(), "model name", 256);
    if check.is_err() {
        return check;
    }
    let check = validate_text(model.description.as_str(), "model description", 4096);
    if check.is_err() {
        return check;
    }
    if model_repeated(models, i) {
        return Err(Error::InvalidRecipe(join3("duplicate model id `", id, "`")));
    }
    if model.packages.len() == 0 {
        return Err(Error::InvalidRecipe(join3("model `", id, "` has no platform package")));
    }
    if model.packages.len() > 6 {
        return Err(Error::InvalidRecipe(join3("model `", id, "` has more than 6 packages")));
    }
    let ghost https = listed_urls(urls@);
    for j in 0..model.packages.len()
        invariant
            https == listed_urls(urls@),
            id@ == model.id@,
            packages_fault(id@, model.packages@, 0, https) == packages_fault(
                id@,
                model.packages@,
                j as int,
                https,
            ),
            model_fault(models@, i as int, https) == packages_fault(
                id@,
                model.packages@,
                0,
                https,
            ),
    {
        let check = check_package(id, &model.packages, j, urls);
        if check.is_err() {
            return check;
        }
    }
    Ok(())
}

impl Recipe {
    fn check_header(&self, urls: &Vec<String>) -> (outcome: Result<(), Error>)
        ensures
            settles(outcome, header_fault(*self, listed_urls(urls@))),
    {
        if !same_text(self.schema.as_str(), RECIPE_SCHEMA) {
            return Err(
                Error::InvalidRecipe(join3("unsupported schema `", self.schema.as_str(), "`")),
            );
        }
        let check = validate_slug(self.id.as_str(), "recipe id");
        if check.is_err() {
            return check;
        }
        let check = validate_text(self.name.as_str(), "name", 256);
        if check.is_err() {
            return check;
        }
        let check = validate_version(self.version.as_str());
        if check.is_err() {
            return check;
        }
        let check = validate_text(self.description.as_str(), "description", 4096);
        if check.is_err() {
            return check;
        }
        let check = validate_text(self.publisher.name.as_str(), "publisher name", 256);
        if check.is_err() {
            return check;
        }
        let check = https_verdict(listed(urls, self.publisher.url.as_str()), "publisher URL");
        if check.is_err() {
            return check;
        }
        self.check_terms(urls)
    }

    fn check_terms(&self, urls: &Vec<String>) -> (outcome: Result<(), Error>)
        ensures
            settles(outcome, terms_fault(*self, listed_urls(urls@))),
    {
        let check = validate_spdx(self.license.spdx.as_str());
        if check.is_err() {
            return check;
        }
        let check = validate_text(self.license.name.as_str(), "license name", 256);
        if check.is_err() {
            return check;
        }
        let check = https_verdict(listed(urls, self.license.url.as_str()), "license URL");
        if check.is_err() {
            return check;
        }
        let check = https_verdict(listed(urls, self.license.source_url.as_str()), "source URL");
        if check.is_err() {
            return check;
        }
        let check = https_verdict(listed(urls, self.homepage.as_str()), "homepage");
        if check.is_err() {
            return check;
        }
        validate_core_version(self.minimum_fisheye_version.as_str(), "minimum_fisheye_version")
    }

    /// Checks the recipe, given the addresses that are acceptable.
    pub fn validate_given(&self, urls: &Vec<String>) -> (outcome: Result<(), Error>)
        ensures
            settles(outcome, recipe_fault(*self, listed_urls(urls@))),
    {
        let check = self.check_header(urls);
        if check.is_err() {
            return check;
        }
        if self.models.len() == 0 {
            return Err(Error::InvalidRecipe("at least one model is required".to_owned()));
        }
        if self.models.len() > 64 {
            return Err(Error::InvalidRecipe("models contains more than 64 entries".to_owned()));
        }
        let ghost https = listed_urls(urls@);
        for i in 0..self.models.len()
            invariant
                https == listed_urls(urls@),
                recipe_fault(*self, https) == models_fault(self.models@, 0, https),
                models_fault(self.models@, 0, https) == models_fault(
                    self.models@,
                    i as int,
                    https,
                ),
        {
            let check = check_model(&self.models, i, urls);
            if check.is_err() {
                return check;
            }
        }
        Ok(())
    }
}

/// Whether two opinions on addresses agree on those of one package.
pub open spec fn agree_on_package(
    package: Package,
    one: spec_fn(Seq<char>) -> bool,
    other: spec_fn(Seq<char>) -> bool,
) -> bool {
    forall|k: int|
        #![trigger package.artifacts@[k]]
        0 <= k < package.artifacts@.len() ==> one(package.artifacts@[k].url@) == other(
            package.artifacts@[k].url@,
        )
}

/// Whether two opinions on addresses agree on those of one model.
pub open spec fn agree_on_model(
    model: Model,
    one: spec_fn(Seq<char>) -> bool,
    other: spec_fn(Seq<char>) -> bool,
) -> bool {
    forall|j: int|
        #![trigger model.packages@[j]]
        0 <= j < model.packages@.len() ==> agree_on_package(model.packages@[j], one, other)
}

/// Whether two opinions on addresses agree on those of a recipe.
pub open spec fn agree_on(
    recipe: Recipe,
    one: spec_fn(Seq<char>) -> bool,
    other: spec_fn(Seq<char>) -> bool,
) -> bool {
    &&& one(recipe.publisher.url@) == other(recipe.publisher.url@)
    &&& one(recipe.license.url@) == other(recipe.license.url@)
    &&& one(recipe.license.source_url@) == other(recipe.license.source_url@)
    &&& one(recipe.homepage@) == other(recipe.homepage@)
    &&& forall|i: int|
        #![trigger recipe.models@[i]]
        0 <= i < recipe.models@.len() ==> agree_on_model(recipe.models@[i], one, other)
}

proof fn lemma_artifacts_agree(
    model: Seq<char>,
    package: Package,
    k: int,
    one: spec_fn(Seq<char>) -> bool,
    other: spec_fn(Seq<char>) -> bool,
)
    requires
        0 <= k,
        agree_on_package(package, one, other),
    ensures
        artifacts_fault(model, package, k, one) == artifacts_fault(model, package, k, other),
    decreases package.artifacts@.len() - k,
{
    if k < package.artifacts@.len() {
        assert(one(package.artifacts@[k].url@) == other(package.artifacts@[k].url@));
        lemma_artifacts_agree(model, package, k + 1, one, other);
    }
}

proof fn lemma_packages_agree(
    model: Model,
    j: int,
    one: spec_fn(Seq<char>) -> bool,
    other: spec_fn(Seq<char>) -> bool,
)
    requires
        0 <= j,
        agree_on_model(model, one, other),
    ensures
        packages_fault(model.id@, model.packages@, j, one) == packages_fault(
            model.id@,
            model.packages@,
            j,
            other,
        ),
    decreases model.packages@.len() - j,
{
    if j < model.packages@.len() {
        assert(agree_on_package(model.packages@[j], one, other));
        lemma_artifacts_agree(model.id@, model.packages@[j], 0, one, other);
        lemma_packages_agree(model, j + 1, one, other);
    }
}

proof fn lemma_models_agree(
    recipe: Recipe,
    i: int,
    one: spec_fn(Seq<char>) -> bool,
    other: spec_fn(Seq<char>) -> bool,
)
    requires
        0 <= i,
        agree_on(recipe, one, other),
    ensures
        models_fault(recipe.models@, i, one) == models_fault(recipe.models@, i, other),
    decreases recipe.models@.len() - i,
{
    if i < recipe.models@.len() {
        assert(agree_on_model(recipe.models@[i], one, other));
        lemma_packages_agree(recipe.models@[i], 0, one, other);
        lemma_models_agree(recipe, i + 1, one, other);
    }
}

/// What is wrong with a recipe depends, as far as addresses go, only on its own ones.
pub proof fn faults_depend_on_own_addresses(
    recipe: Recipe,
    one: spec_fn(Seq<char>) -> bool,
    other: spec_fn(Seq<char>) -> bool,
)
    requires
        agree_on(recipe, one, other),
    ensures
        recipe_fault(recipe, one) == recipe_fault(recipe, other),
{
    lemma_models_agree(recipe, 0, one, other);
}

/// Whether every listed text is an acceptable address.
pub open spec fn all_https(urls: Seq<String>) -> bool {
    forall|i: int| 0 <= i < urls.len() ==> is_https((#[trigger] urls[i])@)
}

/// Whether the list says of a text whether it is an acceptable address.
pub open spec fn covers(urls: Seq<String>, text: Seq<char>) -> bool {
    lists(urls, text) == is_https(text)
}

proof fn lemma_longer_list_covers(shorter: Seq<String>, longer: Seq<String>, text: Seq<char>)
    requires
        all_https(longer),
        covers(shorter, text),
        shorter.len() <= longer.len(),
        forall|i: int| 0 <= i < shorter.len() ==> longer[i] == #[trigger] shorter[i],
    ensures
        covers(longer, text),
{
    if lists(shorter, text) {
        let i = choose|i: int| 0 <= i < shorter.len() && (#[trigger] shorter[i])@ == text;
        assert(longer[i]@ == text);
    }
    if lists(longer, text) {
        let i = choose|i: int| 0 <= i < longer.len() && (#[trigger] longer[i])@ == text;
        assert(is_https(longer[i]@));
    }
}

/// Whether `longer` begins with `shorter`.
pub open spec fn extends_list(shorter: Seq<String>, longer: Seq<String>) -> bool {
    &&& shorter.len() <= longer.len()
    &&& forall|i: int| 0 <= i < shorter.len() ==> longer[i] == #[trigger] shorter[i]
}

/// Adds an address to the list where it is acceptable.
fn note_url(urls: &mut Vec<String>, url: &String)
    requires
        all_https(old(urls)@),
    ensures
        all_https(final(urls)@),
        extends_list(old(urls)@, final(urls)@),
        covers(final(urls)@, url@),
{
    let accepted = https(url.as_str());
    if accepted {
        let ghost before = urls@;
        urls.push(url.clone());
        assert(urls@[before.len() as int]@ == url@);
    }
}

/// The acceptable addresses among those of the recipe.
fn acceptable_urls(recipe: &Recipe) -> (urls: Vec<String>)
    ensures
        agree_on(*recipe, listed_urls(urls@), https_urls()),
{
    let mut urls: Vec<String> = Vec::new();
    note_url(&mut urls, &recipe.publisher.url);
    let ghost one = urls@;
    note_url(&mut urls, &recipe.license.url);
    let ghost two = urls@;
    note_url(&mut urls, &recipe.license.source_url);
    let ghost three = urls@;
    note_url(&mut urls, &recipe.homepage);
    proof {
        lemma_longer_list_covers(one, urls@, recipe.publisher.url@);
        lemma_longer_list_covers(two, urls@, recipe.license.url@);
        lemma_longer_list_covers(three, urls@, recipe.license.source_url@);
    }
    for i in 0..recipe.models.len()
        invariant
            all_https(urls@),
            covers(urls@, recipe.publisher.url@),
            covers(urls@, recipe.license.url@),
            covers(urls@, recipe.license.source_url@),
            covers(urls@, recipe.homepage@),
            forall|h: int|
                #![trigger recipe.models@[h]]
                0 <= h < i ==> covers_model(urls@, recipe.models@[h]),
    {
        let ghost before = urls@;
        note_model_urls(&mut urls, &recipe.models[i]);
        proof {
            lemma_longer_list_covers(before, urls@, recipe.publisher.url@);
            lemma_longer_list_covers(before, urls@, recipe.license.url@);
            lemma_longer_list_covers(before, urls@, recipe.license.source_url@);
            lemma_longer_list_covers(before, urls@, recipe.homepage@);
            assert forall|h: int| 0 <= h < i implies covers_model(
                urls@,
                #[trigger] recipe.models@[h],
            ) by {
                lemma_longer_list_covers_model(before, urls@, recipe.models@[h]);
            }
        }
    }
    proof {
        assert forall|i: int| 0 <= i < recipe.models@.len() implies agree_on_model(
            #[trigger] recipe.models@[i],
            listed_urls(urls@),
            https_urls(),
        ) by {
            let model = recipe.models@[i];
            assert(covers_model(urls@, model));
            assert forall|j: int| 0 <= j < model.packages@.len() implies agree_on_package(
                #[trigger] model.packages@[j],
                listed_urls(urls@),
                https_urls(),
            ) by {
                assert(covers_package(urls@, model.packages@[j]));
                assert forall|k: int|
                    #![trigger model.packages@[j].artifacts@[k]]
                    0 <= k < model.packages@[j].artifacts@.len() implies listed_urls(urls@)(
                    model.packages@[j].artifacts@[k].url@,
                ) == https_urls()(model.packages@[j].artifacts@[k].url@) by {
                    assert(covers(urls@, model.packages@[j].artifacts@[k].url@));
                }
            }
        }
    }
    urls
}

/// Whether the list covers the addresses of a package.
pub open spec fn covers_package(urls: Seq<String>, package: Package) -> bool {
    forall|k: int|
        #![trigger package.artifacts@[k]]
        0 <= k < package.artifacts@.len() ==> covers(urls, package.artifacts@[k].url@)
}

/// Whether the list covers the addresses of a model.
pub open spec fn covers_model(urls: Seq<String>, model: Model) -> bool {
    forall|j: int|
        #![trigger model.packages@[j]]
        0 <= j < model.packages@.len() ==> covers_package(urls, model.packages@[j])
}

proof fn lemma_longer_list_covers_package(
    shorter: Seq<String>,
    longer: Seq<String>,
    package: Package,
)
    requires
        all_https(longer),
        covers_package(shorter, package),
        extends_list(shorter, longer),
    ensures
        covers_package(longer, package),
{
    assert forall|k: int| 0 <= k < package.artifacts@.len() implies covers(
        longer,
        (#[trigger] package.artifacts@[k]).url@,
    ) by {
        assert(covers(shorter, package.artifacts@[k].url@));
        lemma_longer_list_covers(shorter, longer, package.artifacts@[k].url@);
    }
}

proof fn lemma_longer_list_covers_model(shorter: Seq<String>, longer: Seq<String>, model: Model)
    requires
        all_https(longer),
        covers_model(shorter, model),
        extends_list(shorter, longer),
    ensures
        covers_model(longer, model),
{
    assert forall|j: int| 0 <= j < model.packages@.len() implies covers_package(
        longer,
        #[trigger] model.packages@[j],
    ) by {
        lemma_longer_list_covers_package(shorter, longer, model.packages@[j]);
    }
}

fn note_model_urls(urls: &mut Vec<String>, model: &Model)
    requires
        all_https(old(urls)@),
    ensures
        all_https(final(urls)@),
        extends_list(old(urls)@, final(urls)@),
        covers_model(final(urls)@, *model),
{
    let ghost start = urls@;
    for j in 0..model.packages.len()
        invariant
            all_https(urls@),
            extends_list(start, urls@),
            forall|h: int|
                #![trigger model.packages@[h]]
                0 <= h < j ==> covers_package(urls@, model.packages@[h]),
    {
        let ghost before = urls@;
        note_package_urls(urls, &model.packages[j]);
        proof {
            assert forall|h: int| 0 <= h < j implies covers_package(
                urls@,
                #[trigger] model.packages@[h],
            ) by {
                lemma_longer_list_covers_package(before, urls@, model.packages@[h]);
            }
        }
    }
}

fn note_package_urls(urls: &mut Vec<String>, package: &Package)
    requires
        all_https(old(urls)@),
    ensures
        all_https(final(urls)@),
        extends_list(old(urls)@, final(urls)@),
        covers_package(final(urls)@, *package),
{
    let ghost start = urls@;
    for k in 0..package.artifacts.len()
        invariant
            all_https(urls@),
            extends_list(start, urls@),
            forall|h: int|
                #![trigger package.artifacts@[h]]
                0 <= h < k ==> covers(urls@, package.artifacts@[h].url@),
    {
        let ghost before = urls@;
        note_url(urls, &package.artifacts[k].url);
        proof {
            assert forall|h: int| 0 <= h < k implies covers(
                urls@,
                (#[trigger] package.artifacts@[h]).url@,
            ) by {
                lemma_longer_list_covers(before, urls@, package.artifacts@[h].url@);
            }
        }
    }
}

/// Whether the recipe has a model with the identifier.
pub open spec fn has_model(recipe: Recipe, id: Seq<char>) -> bool {
    exists|i: int| 0 <= i < recipe.models@.len() && (#[trigger] recipe.models@[i]).id@ == id
}

/// The error for a document that is too long.
pub open spec fn manifest_size_fault(length: nat) -> Option<ErrorView> {
    if length > MAX_MANIFEST_BYTES {
        broken("manifest exceeds 524288 bytes"@)
    } else {
        None
    }
}

/// Checks the length of a recipe document before it is read.
pub fn check_manifest_size(length: u64) -> (outcome: Result<(), Error>)
    ensures
        settles(outcome, manifest_size_fault(length as nat)),
{
    if length > MAX_MANIFEST_BYTES as u64 {
        Err(Error::InvalidRecipe("manifest exceeds 524288 bytes".to_owned()))
    } else {
        Ok(())
    }
}

impl Recipe {
    /// Accepts what the JSON reader made of a document: the document must not be too long, it must
    /// have been read, and the recipe must be valid.
    pub fn from_json(bytes: &[u8], parsed: Result<Recipe, String>) -> (outcome: Result<
        Recipe,
        Error,
    >)
        ensures
            match manifest_size_fault(bytes@.len()) {
                Some(error) => fails_with(outcome, error),
                None => match parsed {
                    Err(message) => fails_with(outcome, ErrorView::Json(message@)),
                    Ok(recipe) => match recipe_fault(recipe, https_urls()) {
                        Some(error) => fails_with(outcome, error),
                        None => outcome == Ok::<Recipe, Error>(recipe),
                    },
                },
            },
    {
        match check_manifest_size(bytes.len() as u64) {
            Err(error) => Err(error),
            Ok(()) => match parsed {
                Err(message) => Err(Error::Json(message)),
                Ok(recipe) => match recipe.validate() {
                    Err(error) => Err(error),
                    Ok(()) => Ok(recipe),
                },
            },
        }
    }

    /// Checks the recipe.
    pub fn validate(&self) -> (outcome: Result<(), Error>)
        ensures
            settles(outcome, recipe_fault(*self, https_urls())),
    {
        let urls = acceptable_urls(self);
        proof {
            faults_depend_on_own_addresses(*self, listed_urls(urls@), https_urls());
        }
        self.validate_given(&urls)
    }

    /// The first model with the identifier.
    pub fn model(&self, id: &str) -> (outcome: Result<&Model, Error>)
        ensures
            match outcome {
                Ok(model) => exists|i: int|
                    {
                        &&& 0 <= i < self.models@.len()
                        &&& *model == #[trigger] self.models@[i]
                        &&& model.id@ == id@
                        &&& forall|h: int| 0 <= h < i ==> (#[trigger] self.models@[h]).id@ != id@
                    },
                Err(error) => !has_model(*self, id@) && error@ == ErrorView::InvalidRecipe(
                    "unknown model `"@ + id@ + "`"@,
                ),
            },
    {
        for i in 0..self.models.len()
            invariant
                forall|h: int| 0 <= h < i ==> (#[trigger] self.models@[h]).id@ != id@,
        {
            if same_text(self.models[i].id.as_str(), id) {
                return Ok(&self.models[i]);
            }
        }
        Err(Error::InvalidRecipe(join3("unknown model `", id, "`")))
    }
}

/// A package that breaks no rule.
pub open spec fn package_valid(
    packages: Seq<Package>,
    j: int,
    https: spec_fn(Seq<char>) -> bool,
) -> bool {
    let package = packages[j];
    let artifacts = package.artifacts@;
    let count = artifacts.len() as int;
    &&& is_platform(package.platform@)
    &&& !platform_taken(packages, j)
    &&& package.executable@.len() <= 512 && is_portable_relative(package.executable@, false)
    &&& package.working_directory@.len() <= 512 && is_portable_relative(
        package.working_directory@,
        true,
    )
    &&& package.working_directory@ == parent_directory(package.executable@)
    &&& 1 <= count <= 16
    &&& count_kind(artifacts, ArtifactKind::Runtime, count) == 1
    &&& count_kind(artifacts, ArtifactKind::Model, count) <= 1
    &&& forall|k: int|
        #![trigger artifacts[k]]
        0 <= k < count ==> {
            &&& https(artifacts[k].url@)
            &&& 0 < artifacts[k].byte_count <= MAX_ARTIFACT_BYTES
            &&& artifacts[k].kind == ArtifactKind::Model ==> artifacts[k].byte_count
                <= MAX_MODEL_ARTIFACT_BYTES
            &&& is_digest(artifacts[k].sha256@)
            &&& artifacts[k].destination@.len() <= 512 && is_portable_relative(
                artifacts[k].destination@,
                false,
            )
            &&& !destination_taken(artifacts, k)
        }
    &&& declared_bytes(artifacts, count) <= MAX_PACKAGE_DOWNLOAD_BYTES
}

/// A model that breaks no rule.
pub open spec fn model_valid(
    models: Seq<Model>,
    i: int,
    https: spec_fn(Seq<char>) -> bool,
) -> bool {
    let model = models[i];
    &&& is_slug(model.id@)
    &&& is_plain_text(model.name@, 256)
    &&& is_plain_text(model.description@, 4096)
    &&& !model_taken(models, i)
    &&& 1 <= model.packages@.len() <= 6
    &&& forall|j: int|
        #![trigger model.packages@[j]]
        0 <= j < model.packages@.len() ==> package_valid(model.packages@, j, https)
}

impl Recipe {
    /// A recipe that breaks no rule, given which texts are acceptable addresses.
    pub open spec fn valid(&self, https: spec_fn(Seq<char>) -> bool) -> bool {
        &&& self.schema@ == RECIPE_SCHEMA@
        &&& is_slug(self.id@)
        &&& is_plain_text(self.name@, 256)
        &&& self.version@.len() <= 80 && is_semver(self.version@, true)
        &&& is_plain_text(self.description@, 4096)
        &&& is_plain_text(self.publisher.name@, 256)
        &&& https(self.publisher.url@)
        &&& is_spdx(self.license.spdx@)
        &&& is_plain_text(self.license.name@, 256)
        &&& https(self.license.url@)
        &&& https(self.license.source_url@)
        &&& https(self.homepage@)
        &&& self.minimum_fisheye_version@.len() <= 64 && is_semver(
            self.minimum_fisheye_version@,
            false,
        )
        &&& 1 <= self.models@.len() <= 64
        &&& forall|i: int|
            #![trigger self.models@[i]]
            0 <= i < self.models@.len() ==> model_valid(self.models@, i, https)
    }
}

pub(crate) proof fn lemma_declared_bytes_grow(artifacts: Seq<Artifact>, few: int, many: int)
    requires
        0 <= few <= many <= artifacts.len(),
    ensures
        declared_bytes(artifacts, few) <= declared_bytes(artifacts, many),
    decreases many,
{
    if few < many {
        lemma_declared_bytes_grow(artifacts, few, many - 1);
    }
}

proof fn lemma_artifacts_in_order(
    model: Seq<char>,
    package: Package,
    k: int,
    https: spec_fn(Seq<char>) -> bool,
)
    requires
        0 <= k,
    ensures
        artifacts_fault(model, package, k, https) is None <==> forall|h: int|
            k <= h < package.artifacts@.len() ==> #[trigger] artifact_fault(
                model,
                package,
                h,
                https,
            ) is None,
    decreases package.artifacts@.len() - k,
{
    if k < package.artifacts@.len() {
        lemma_artifacts_in_order(model, package, k + 1, https);
        assert(artifact_fault(model, package, k, https) is None || artifact_fault(
            model,
            package,
            k,
            https,
        ) is Some);
    }
}

proof fn lemma_package_in_order(
    model: Seq<char>,
    packages: Seq<Package>,
    j: int,
    https: spec_fn(Seq<char>) -> bool,
)
    requires
        0 <= j < packages.len(),
    ensures
        package_fault(model, packages, j, https) is None <==> package_valid(packages, j, https),
{
    let package = packages[j];
    let artifacts = package.artifacts@;
    let count = artifacts.len() as int;
    lemma_artifacts_in_order(model, package, 0, https);
    if artifacts_fault(model, package, 0, https) is None && count >= 1 {
        assert(artifact_fault(model, package, count - 1, https) is None);
        assert(declared_bytes(artifacts, count) <= MAX_PACKAGE_DOWNLOAD_BYTES);
        assert forall|k: int| 0 <= k < count implies {
            &&& https((#[trigger] artifacts[k]).url@)
            &&& 0 < artifacts[k].byte_count <= MAX_ARTIFACT_BYTES
            &&& artifacts[k].kind == ArtifactKind::Model ==> artifacts[k].byte_count
                <= MAX_MODEL_ARTIFACT_BYTES
            &&& is_digest(artifacts[k].sha256@)
            &&& artifacts[k].destination@.len() <= 512 && is_portable_relative(
                artifacts[k].destination@,
                false,
            )
            &&& !destination_taken(artifacts, k)
        } by {
            assert(artifact_fault(model, package, k, https) is None);
        }
    }
    if package_valid(packages, j, https) {
        assert forall|k: int| 0 <= k < count implies #[trigger] artifact_fault(
            model,
            package,
            k,
            https,
        ) is None by {
            assert(https(artifacts[k].url@));
            lemma_declared_bytes_grow(artifacts, k + 1, count);
        }
    }
}

proof fn lemma_packages_in_order(
    model: Seq<char>,
    packages: Seq<Package>,
    j: int,
    https: spec_fn(Seq<char>) -> bool,
)
    requires
        0 <= j,
    ensures
        packages_fault(model, packages, j, https) is None <==> forall|h: int|
            #![trigger packages[h]]
            j <= h < packages.len() ==> package_valid(packages, h, https),
    decreases packages.len() - j,
{
    if j < packages.len() {
        lemma_package_in_order(model, packages, j, https);
        lemma_packages_in_order(model, packages, j + 1, https);
        assert(package_valid(packages, j, https) || packages_fault(model, packages, j, https)
            is Some);
        if packages_fault(model, packages, j, https) is None {
            assert forall|h: int| j <= h < packages.len() implies package_valid(
                packages,
                h,
                https,
            ) by {
                if h > j {
                    let later = packages[h];
                }
            }
        } else if forall|h: int|
            #![trigger packages[h]]
            j <= h < packages.len() ==> package_valid(packages, h, https) {
            let here = packages[j];
        }
    }
}

proof fn lemma_models_in_order(models: Seq<Model>, i: int, https: spec_fn(Seq<char>) -> bool)
    requires
        0 <= i,
    ensures
        models_fault(models, i, https) is None <==> forall|h: int|
            #![trigger models[h]]
            i <= h < models.len() ==> model_valid(models, h, https),
    decreases models.len() - i,
{
    if i < models.len() {
        lemma_packages_in_order(models[i].id@, models[i].packages@, 0, https);
        assert(model_fault(models, i, https) is None <==> model_valid(models, i, https));
        lemma_models_in_order(models, i + 1, https);
        if models_fault(models, i, https) is None {
            assert forall|h: int| i <= h < models.len() implies model_valid(models, h, https) by {
                if h > i {
                    let later = models[h];
                }
            }
        } else if forall|h: int|
            #![trigger models[h]]
            i <= h < models.len() ==> model_valid(models, h, https) {
            let here = models[i];
        }
    }
}

/// A recipe is accepted if and only if every rule holds: of its fields, of each model, of each
/// package and of each artifact.
pub proof fn accepted_recipes_obey_every_rule(recipe: Recipe, https: spec_fn(Seq<char>) -> bool)
    ensures
        recipe_fault(recipe, https) is None <==> recipe.valid(https),
{
    lemma_models_in_order(recipe.models@, 0, https);
}

/// Whether an earlier recipe has the same identifier.
pub open spec fn recipe_taken(recipes: Seq<Recipe>, i: int) -> bool {
    exists|h: int| 0 <= h < i && (#[trigger] recipes[h]).id@ == recipes[i].id@
}

/// What is wrong with one recipe of a catalog.
pub open spec fn entry_fault(
    recipes: Seq<Recipe>,
    i: int,
    https: spec_fn(Seq<char>) -> bool,
) -> Option<ErrorView> {
    match recipe_fault(recipes[i], https) {
        Some(error) => Some(
            ErrorView::InvalidCatalog("recipe `"@ + recipes[i].id@ + "`: "@ + error.message()),
        ),
        None => if recipe_taken(recipes, i) {
            Some(ErrorView::InvalidCatalog("duplicate recipe id `"@ + recipes[i].id@ + "`"@))
        } else {
            None
        },
    }
}

/// What is wrong with the recipes of a catalog from position `i` on.
pub open spec fn entries_fault(
    recipes: Seq<Recipe>,
    i: int,
    https: spec_fn(Seq<char>) -> bool,
) -> Option<ErrorView>
    decreases recipes.len() - i,
{
    if i >= recipes.len() {
        None
    } else {
        first_of(entry_fault(recipes, i, https), entries_fault(recipes, i + 1, https))
    }
}

/// What is wrong with the period in which a catalog holds.
pub open spec fn period_fault(generated: Seq<char>, expires: Seq<char>) -> Option<ErrorView> {
    if generated.len() == 0 || expires.len() == 0 {
        Some(ErrorView::InvalidCatalog("generated_at and expires_at are required"@))
    } else if !is_timestamp(generated) {
        Some(timestamp_error(generated, "generated_at"@))
    } else if !is_timestamp(expires) {
        Some(timestamp_error(expires, "expires_at"@))
    } else if !is_earlier(moment_of(civil_part(generated)), moment_of(civil_part(expires))) {
        Some(ErrorView::InvalidCatalog("expires_at must be later than generated_at"@))
    } else {
        None
    }
}

/// The first thing that is wrong with a catalog, given which addresses are acceptable.
pub open spec fn catalog_fault(catalog: Catalog, https: spec_fn(Seq<char>) -> bool) -> Option<
    ErrorView,
> {
    if catalog.schema@ != CATALOG_SCHEMA@ {
        Some(ErrorView::InvalidCatalog("unsupported schema `"@ + catalog.schema@ + "`"@))
    } else {
        first_of(
            period_fault(catalog.generated_at@, catalog.expires_at@),
            if catalog.recipes@.len() > 1024 {
                Some(ErrorView::InvalidCatalog("catalog contains more than 1024 recipes"@))
            } else {
                entries_fault(catalog.recipes@, 0, https)
            },
        )
    }
}

/// The error for a catalog document that is too long.
pub open spec fn catalog_size_fault(length: nat) -> Option<ErrorView> {
    if length > MAX_MANIFEST_BYTES {
        Some(ErrorView::InvalidCatalog("catalog exceeds 524288 bytes"@))
    } else {
        None
    }
}

/// Checks the length of a catalog document before it is read.
pub fn check_catalog_size(length: u64) -> (outcome: Result<(), Error>)
    ensures
        settles(outcome, catalog_size_fault(length as nat)),
{
    if length > MAX_MANIFEST_BYTES as u64 {
        Err(Error::InvalidCatalog("catalog exceeds 524288 bytes".to_owned()))
    } else {
        Ok(())
    }
}

/// The error for a catalog that has expired.
pub open spec fn expired_error(expires: Seq<char>) -> ErrorView {
    ErrorView::InvalidCatalog("catalog expired at "@ + expires)
}

/// What is wrong with an expiry time at a point in time, which has the form of a timestamp.
pub open spec fn expiry_fault(expires: Seq<char>, now: Seq<char>) -> Option<ErrorView> {
    if !is_timestamp(expires) {
        Some(timestamp_error(expires, "expires_at"@))
    } else if text_less(now, expires) {
        None
    } else {
        Some(expired_error(expires))
    }
}

fn check_period(generated_at: &str, expires_at: &str) -> (outcome: Result<(), Error>)
    ensures
        settles(outcome, period_fault(generated_at@, expires_at@)),
{
    if chars_of(generated_at).len() == 0 || chars_of(expires_at).len() == 0 {
        return Err(Error::InvalidCatalog("generated_at and expires_at are required".to_owned()));
    }
    match canonical_timestamp(generated_at, "generated_at") {
        Err(error) => Err(error),
        Ok(generated) => match canonical_timestamp(expires_at, "expires_at") {
            Err(error) => Err(error),
            Ok(expires) => if earlier(generated, expires) {
                Ok(())
            } else {
                Err(Error::InvalidCatalog("expires_at must be later than generated_at".to_owned()))
            },
        },
    }
}

fn recipe_repeated(recipes: &Vec<Recipe>, i: usize) -> (answer: bool)
    requires
        i < recipes@.len(),
    ensures
        answer == recipe_taken(recipes@, i as int),
{
    for h in 0..i
        invariant
            i < recipes@.len(),
            forall|k: int| 0 <= k < h ==> (#[trigger] recipes@[k]).id@ != recipes@[i as int].id@,
    {
        if same_text(recipes[h].id.as_str(), recipes[i].id.as_str()) {
            return true;
        }
    }
    false
}

impl Catalog {
    /// Accepts what the JSON reader made of a document: the document must not be too long, it must
    /// have been read, and the catalog must be valid.
    pub fn from_json(bytes: &[u8], parsed: Result<Catalog, String>) -> (outcome: Result<
        Catalog,
        Error,
    >)
        ensures
            match catalog_size_fault(bytes@.len()) {
                Some(error) => fails_with(outcome, error),
                None => match parsed {
                    Err(message) => fails_with(outcome, ErrorView::Json(message@)),
                    Ok(catalog) => match catalog_fault(catalog, https_urls()) {
                        Some(error) => fails_with(outcome, error),
                        None => outcome == Ok::<Catalog, Error>(catalog),
                    },
                },
            },
    {
        match check_catalog_size(bytes.len() as u64) {
            Err(error) => Err(error),
            Ok(()) => match parsed {
                Err(message) => Err(Error::Json(message)),
                Ok(catalog) => match catalog.validate() {
                    Err(error) => Err(error),
                    Ok(()) => Ok(catalog),
                },
            },
        }
    }

    /// Checks the catalog.
    pub fn validate(&self) -> (outcome: Result<(), Error>)
        ensures
            settles(outcome, catalog_fault(*self, https_urls())),
    {
        if !same_text(self.schema.as_str(), CATALOG_SCHEMA) {
            return Err(
                Error::InvalidCatalog(join3("unsupported schema `", self.schema.as_str(), "`")),
            );
        }
        let check = check_period(self.generated_at.as_str(), self.expires_at.as_str());
        if check.is_err() {
            return check;
        }
        if self.recipes.len() > 1024 {
            return Err(
                Error::InvalidCatalog("catalog contains more than 1024 recipes".to_owned()),
            );
        }
        for i in 0..self.recipes.len()
            invariant
                entries_fault(self.recipes@, 0, https_urls()) == entries_fault(
                    self.recipes@,
                    i as int,
                    https_urls(),
                ),
                catalog_fault(*self, https_urls()) == entries_fault(
                    self.recipes@,
                    0,
                    https_urls(),
                ),
        {
            match self.recipes[i].validate() {
                Err(error) => {
                    return Err(
                        Error::InvalidCatalog(
                            join4(
                                "recipe `",
                                self.recipes[i].id.as_str(),
                                "`: ",
                                error.message().as_str(),
                            ),
                        ),
                    );
                },
                Ok(()) => {},
            }
            if recipe_repeated(&self.recipes, i) {
                return Err(
                    Error::InvalidCatalog(
                        join3("duplicate recipe id `", self.recipes[i].id.as_str(), "`"),
                    ),
                );
            }
        }
        Ok(())
    }

    /// Checks that the catalog has not expired at the time `now`, which has the form of a
    /// timestamp.
    pub fn ensure_not_expired_at(&self, now: &str) -> (outcome: Result<(), Error>)
        ensures
            settles(outcome, expiry_fault(self.expires_at@, now@)),
    {
        match canonical_timestamp(self.expires_at.as_str(), "expires_at") {
            Err(error) => Err(error),
            Ok(_) => if comes_before(now, self.expires_at.as_str()) {
                Ok(())
            } else {
                Err(
                    Error::InvalidCatalog(join2("catalog expired at ", self.expires_at.as_str())),
                )
            },
        }
    }

    /// Checks that the catalog has not expired by now: [`Catalog::ensure_not_expired_at`] for the
    /// time that the clock shows.
    pub fn ensure_not_expired(&self) -> (outcome: Result<(), Error>)
        ensures
            exists|now: Seq<char>| settles(outcome, #[trigger] expiry_fault(self.expires_at@, now)),
            !is_timestamp(self.expires_at@) ==> fails_with(
                outcome,
                timestamp_error(self.expires_at@, "expires_at"@),
            ),
    {
        let now = current_time();
        self.ensure_not_expired_at(now.as_str())
    }
}

/// The name of the platform that an operating system and an architecture make.
pub open spec fn platform_name(os: Seq<char>, arch: Seq<char>) -> Option<Seq<char>> {
    if (os == "linux"@ || os == "macos"@ || os == "windows"@) && (arch == "x86_64"@ || arch
        == "aarch64"@) {
        Some(os + "-"@ + arch)
    } else {
        None
    }
}

/// The platform of a machine, by the names that std gives its operating system and its
/// architecture.
pub fn current_platform(os: &str, arch: &str) -> (outcome: Result<String, Error>)
    ensures
        match platform_name(os@, arch@) {
            Some(name) => outcome matches Ok(platform) && platform@ == name,
            None => fails_with(outcome, ErrorView::UnsupportedPlatform(os@ + "-"@ + arch@)),
        },
{
    let name = join3(os, "-", arch);
    let known_os = same_text(os, "linux") || same_text(os, "macos") || same_text(os, "windows");
    let known_arch = same_text(arch, "x86_64") || same_text(arch, "aarch64");
    if known_os && known_arch {
        Ok(name)
    } else {
        Err(Error::UnsupportedPlatform(name))
    }
}

/// Every platform that a machine can have is one that a recipe may name, and no other is.
pub proof fn machine_platforms_are_recipe_platforms(name: Seq<char>)
    ensures
        is_platform(name) <==> exists|os: Seq<char>, arch: Seq<char>|
            #[trigger] platform_name(os, arch) == Some(name),
{
    reveal_strlit("linux");
    reveal_strlit("macos");
    reveal_strlit("windows");
    reveal_strlit("x86_64");
    reveal_strlit("aarch64");
    reveal_strlit("-");
    reveal_strlit("linux-x86_64");
    reveal_strlit("linux-aarch64");
    reveal_strlit("macos-x86_64");
    reveal_strlit("macos-aarch64");
    reveal_strlit("windows-x86_64");
    reveal_strlit("windows-aarch64");
    assert("linux"@ + "-"@ + "x86_64"@ =~= "linux-x86_64"@);
    assert("linux"@ + "-"@ + "aarch64"@ =~= "linux-aarch64"@);
    assert("macos"@ + "-"@ + "x86_64"@ =~= "macos-x86_64"@);
    assert("macos"@ + "-"@ + "aarch64"@ =~= "macos-aarch64"@);
    assert("windows"@ + "-"@ + "x86_64"@ =~= "windows-x86_64"@);
    assert("windows"@ + "-"@ + "aarch64"@ =~= "windows-aarch64"@);
    if is_platform(name) {
        assert(platform_name("linux"@, "x86_64"@) == Some("linux-x86_64"@));
        assert(platform_name("linux"@, "aarch64"@) == Some("linux-aarch64"@));
        assert(platform_name("macos"@, "x86_64"@) == Some("macos-x86_64"@));
        assert(platform_name("macos"@, "aarch64"@) == Some("macos-aarch64"@));
        assert(platform_name("windows"@, "x86_64"@) == Some("windows-x86_64"@));
        assert(platform_name("windows"@, "aarch64"@) == Some("windows-aarch64"@));
    }
}

proof fn lemma_entries_in_order(recipes: Seq<Recipe>, i: int, https: spec_fn(Seq<char>) -> bool)
    requires
        0 <= i,
    ensures
        entries_fault(recipes, i, https) is None <==> forall|h: int|
            #![trigger recipes[h]]
            i <= h < recipes.len() ==> recipes[h].valid(https) && !recipe_taken(recipes, h),
    decreases recipes.len() - i,
{
    if i < recipes.len() {
        accepted_recipes_obey_every_rule(recipes[i], https);
        lemma_entries_in_order(recipes, i + 1, https);
        if entries_fault(recipes, i, https) is None {
            assert forall|h: int| i <= h < recipes.len() implies (#[trigger] recipes[h]).valid(
                https,
            ) && !recipe_taken(recipes, h) by {
                if h > i {
                    let later = recipes[h];
                }
            }
        } else if forall|h: int|
            #![trigger recipes[h]]
            i <= h < recipes.len() ==> recipes[h].valid(https) && !recipe_taken(recipes, h) {
            let here = recipes[i];
        }
    }
}

/// A catalog is accepted if and only if it has the right schema, holds for a period that ends after
/// it begins, and lists at most 1024 recipes, each of them valid and no two with one identifier.
pub proof fn accepted_catalogs_obey_every_rule(catalog: Catalog, https: spec_fn(Seq<char>) -> bool)
    ensures
        catalog_fault(catalog, https) is None <==> {
            &&& catalog.schema@ == CATALOG_SCHEMA@
            &&& is_timestamp(catalog.generated_at@)
            &&& is_timestamp(catalog.expires_at@)
            &&& is_earlier(
                moment_of(civil_part(catalog.generated_at@)),
                moment_of(civil_part(catalog.expires_at@)),
            )
            &&& catalog.recipes@.len() <= 1024
            &&& forall|i: int|
                #![trigger catalog.recipes@[i]]
                0 <= i < catalog.recipes@.len() ==> catalog.recipes@[i].valid(https)
                    && !recipe_taken(catalog.recipes@, i)
        },
{
    lemma_entries_in_order(catalog.recipes@, 0, https);
}

/// A catalog that has expired stays expired.
pub proof fn expiry_is_final(expires: Seq<char>, now: Seq<char>, later: Seq<char>)
    requires
        expiry_fault(expires, now) is Some,
        now == later || text_less(now, later),
    ensures
        expiry_fault(expires, later) == expiry_fault(expires, now),
{
    if is_timestamp(expires) && text_less(later, expires) && now != later {
        crate::order::lemma_less_transitive(now, later, expires);
    }
}

/// The platform of a machine is its operating system and its architecture with a hyphen between
/// them: these six, and no other machine has one.
pub proof fn platforms_name_their_machine(os: Seq<char>, arch: Seq<char>)
    ensures
        platform_name(os, arch) matches Some(name) ==> name == os + seq!['-'] + arch,
        platform_name(os, arch) is Some <==> (os == "linux"@ || os == "macos"@ || os == "windows"@)
            && (arch == "x86_64"@ || arch == "aarch64"@),
        platform_name("linux"@, "x86_64"@) == Some("linux-x86_64"@),
        platform_name("linux"@, "aarch64"@) == Some("linux-aarch64"@),
        platform_name("macos"@, "x86_64"@) == Some("macos-x86_64"@),
        platform_name("macos"@, "aarch64"@) == Some("macos-aarch64"@),
        platform_name("windows"@, "x86_64"@) == Some("windows-x86_64"@),
        platform_name("windows"@, "aarch64"@) == Some("windows-aarch64"@),
{
    reveal_strlit("linux");
    reveal_strlit("macos");
    reveal_strlit("windows");
    reveal_strlit("x86_64");
    reveal_strlit("aarch64");
    reveal_strlit("-");
    reveal_strlit("linux-x86_64");
    reveal_strlit("linux-aarch64");
    reveal_strlit("macos-x86_64");
    reveal_strlit("macos-aarch64");
    reveal_strlit("windows-x86_64");
    reveal_strlit("windows-aarch64");
    assert("-"@ =~= seq!['-']);
    assert("linux"@ + "-"@ + "x86_64"@ =~= "linux-x86_64"@);
    assert("linux"@ + "-"@ + "aarch64"@ =~= "linux-aarch64"@);
    assert("macos"@ + "-"@ + "x86_64"@ =~= "macos-x86_64"@);
    assert("macos"@ + "-"@ + "aarch64"@ =~= "macos-aarch64"@);
    assert("windows"@ + "-"@ + "x86_64"@ =~= "windows-x86_64"@);
    assert("windows"@ + "-"@ + "aarch64"@ =~= "windows-aarch64"@);
}

/// A file in the root of a package lies in `.`, and every other file in what stands before its name
/// and the slash before it.
pub proof fn files_lie_in_their_parent(directory: Seq<char>, name: Seq<char>)
    requires
        !name.contains('/'),
    ensures
        parent_directory(name) == seq!['.'],
        parent_directory(directory.push('/') + name) == directory,
{
    reveal_strlit(".");
    assert("."@ =~= seq!['.']);
    the_last_separator_is_found(directory, '/', name);
    assert((directory.push('/') + name).take(directory.len() as int) =~= directory);
}

/// The bytes of artifacts are those of each of them added up.
pub proof fn bytes_of_artifacts_add_up(left: Seq<Artifact>, right: Seq<Artifact>, one: Artifact)
    ensures
        declared_bytes(Seq::empty(), 0) == 0,
        declared_bytes(seq![one], 1) == one.byte_count,
        declared_bytes(left + right, (left.len() + right.len()) as int) == declared_bytes(
            left,
            left.len() as int,
        ) + declared_bytes(right, right.len() as int),
    decreases right.len(),
{
    reveal_with_fuel(declared_bytes, 2);
    if right.len() > 0 {
        bytes_of_artifacts_add_up(left, right.drop_last(), one);
        lemma_same_bytes(
            left + right,
            left + right.drop_last(),
            (left.len() + right.len() - 1) as int,
        );
        lemma_same_bytes(right, right.drop_last(), right.len() - 1);
    } else {
        assert(left + right =~= left);
    }
}

proof fn lemma_same_bytes(left: Seq<Artifact>, right: Seq<Artifact>, count: int)
    requires
        0 <= count <= left.len(),
        count <= right.len(),
        forall|i: int| 0 <= i < count ==> #[trigger] left[i] == right[i],
    ensures
        declared_bytes(left, count) == declared_bytes(right, count),
    decreases count,
{
    if count > 0 {
        lemma_same_bytes(left, right, count - 1);
        assert(left[count - 1] == right[count - 1]);
    }
}

proof fn lemma_count_kind(artifacts: Seq<Artifact>, kind: ArtifactKind, count: int)
    requires
        0 <= count <= artifacts.len(),
    ensures
        count_kind(artifacts, kind, count) >= 0,
        count_kind(artifacts, kind, count) == 0 <==> forall|k: int|
            0 <= k < count ==> (#[trigger] artifacts[k]).kind != kind,
        count_kind(artifacts, kind, count) <= 1 <==> forall|k: int, l: int|
            0 <= k < l < count ==> !((#[trigger] artifacts[k]).kind == kind && (
            #[trigger] artifacts[l]).kind == kind),
    decreases count,
{
    if count > 0 {
        lemma_count_kind(artifacts, kind, count - 1);
        let last = artifacts[count - 1];
        if last.kind == kind && count_kind(artifacts, kind, count - 1) > 0 {
            let k = choose|k: int| 0 <= k < count - 1 && (#[trigger] artifacts[k]).kind == kind;
            assert(artifacts[k].kind == kind && artifacts[count - 1].kind == kind);
        }
    }
}

/// An artifact passes if and only if its address is acceptable, it has 1 to 1073741824 bytes, and
/// no more than 419430400 for a model, the package has come to no more than 2147483648 with it, its
/// digest is one, and its destination is a portable path of up to 512 characters that no earlier
/// artifact has.
pub proof fn artifacts_keep_their_limits(
    model: Seq<char>,
    package: Package,
    k: int,
    https: spec_fn(Seq<char>) -> bool,
)
    requires
        0 <= k < package.artifacts@.len(),
    ensures
        artifact_fault(model, package, k, https) is None <==> {
            let artifact = package.artifacts@[k];
            &&& https(artifact.url@)
            &&& 1 <= artifact.byte_count <= 1073741824
            &&& artifact.kind == ArtifactKind::Model ==> artifact.byte_count <= 419430400
            &&& declared_bytes(package.artifacts@, k + 1) <= 2147483648
            &&& is_digest(artifact.sha256@)
            &&& artifact.destination@.len() <= 512
            &&& is_portable_relative(artifact.destination@, false)
            &&& forall|j: int|
                0 <= j < k ==> (#[trigger] package.artifacts@[j]).destination@
                    != artifact.destination@
        },
{
}

/// A package passes if and only if its platform is one that no earlier package of the model has,
/// its executable is a portable path and its working directory the directory of that, it has 1 to
/// 16 artifacts that pass, and of these one and no other is the runtime and no two are models.
pub proof fn packages_keep_their_limits(
    model: Seq<char>,
    packages: Seq<Package>,
    j: int,
    https: spec_fn(Seq<char>) -> bool,
)
    requires
        0 <= j < packages.len(),
    ensures
        package_fault(model, packages, j, https) is None <==> {
            let package = packages[j];
            let artifacts = package.artifacts@;
            &&& is_platform(package.platform@)
            &&& forall|i: int| 0 <= i < j ==> (#[trigger] packages[i]).platform@ != package.platform@
            &&& package.executable@.len() <= 512 && is_portable_relative(package.executable@, false)
            &&& package.working_directory@.len() <= 512 && is_portable_relative(
                package.working_directory@,
                true,
            )
            &&& package.working_directory@ == parent_directory(package.executable@)
            &&& 1 <= artifacts.len() <= 16
            &&& forall|k: int|
                #![trigger artifacts[k]]
                0 <= k < artifacts.len() ==> artifact_fault(model, package, k, https) is None
            &&& exists|k: int|
                0 <= k < artifacts.len() && (#[trigger] artifacts[k]).kind == ArtifactKind::Runtime
            &&& forall|k: int, l: int|
                0 <= k < l < artifacts.len() ==> {
                    &&& !((#[trigger] artifacts[k]).kind == ArtifactKind::Runtime && (
                    #[trigger] artifacts[l]).kind == ArtifactKind::Runtime)
                    &&& !(artifacts[k].kind == ArtifactKind::Model && artifacts[l].kind
                        == ArtifactKind::Model)
                }
        },
{
    let package = packages[j];
    let count = package.artifacts@.len() as int;
    lemma_count_kind(package.artifacts@, ArtifactKind::Runtime, count);
    lemma_count_kind(package.artifacts@, ArtifactKind::Model, count);
    lemma_artifacts_pass(model, package, 0, https);
}

proof fn lemma_artifacts_pass(
    model: Seq<char>,
    package: Package,
    from: int,
    https: spec_fn(Seq<char>) -> bool,
)
    requires
        0 <= from,
    ensures
        artifacts_fault(model, package, from, https) is None <==> forall|k: int|
            #![trigger package.artifacts@[k]]
            from <= k < package.artifacts@.len() ==> artifact_fault(model, package, k, https)
                is None,
    decreases package.artifacts@.len() - from,
{
    if from < package.artifacts@.len() {
        lemma_artifacts_pass(model, package, from + 1, https);
        let first = package.artifacts@[from];
        if artifacts_fault(model, package, from, https) is None {
            assert forall|k: int|
                #![trigger package.artifacts@[k]]
                from <= k < package.artifacts@.len() implies artifact_fault(
                model,
                package,
                k,
                https,
            ) is None by {
                if k > from {
                    assert(artifacts_fault(model, package, from + 1, https) is None);
                }
            }
        }
    }
}

/// A model passes if and only if its identifier is one that no earlier model has, its name and its
/// description are texts of up to 256 and 4096 characters, and it has 1 to 6 packages that pass.
pub proof fn models_keep_their_limits(
    models: Seq<Model>,
    i: int,
    https: spec_fn(Seq<char>) -> bool,
)
    requires
        0 <= i < models.len(),
    ensures
        model_fault(models, i, https) is None <==> {
            let model = models[i];
            &&& is_slug(model.id@)
            &&& is_plain_text(model.name@, 256)
            &&& is_plain_text(model.description@, 4096)
            &&& forall|h: int| 0 <= h < i ==> (#[trigger] models[h]).id@ != model.id@
            &&& 1 <= model.packages@.len() <= 6
            &&& forall|j: int|
                #![trigger model.packages@[j]]
                0 <= j < model.packages@.len() ==> package_fault(
                    model.id@,
                    model.packages@,
                    j,
                    https,
                ) is None
        },
{
    lemma_packages_pass(models[i].id@, models[i].packages@, 0, https);
}

proof fn lemma_packages_pass(
    model: Seq<char>,
    packages: Seq<Package>,
    from: int,
    https: spec_fn(Seq<char>) -> bool,
)
    requires
        0 <= from,
    ensures
        packages_fault(model, packages, from, https) is None <==> forall|j: int|
            #![trigger packages[j]]
            from <= j < packages.len() ==> package_fault(model, packages, j, https) is None,
    decreases packages.len() - from,
{
    if from < packages.len() {
        lemma_packages_pass(model, packages, from + 1, https);
        let first = packages[from];
        if packages_fault(model, packages, from, https) is None {
            assert forall|j: int|
                #![trigger packages[j]]
                from <= j < packages.len() implies package_fault(model, packages, j, https)
                is None by {
                if j > from {
                    assert(packages_fault(model, packages, from + 1, https) is None);
                }
            }
        }
    }
}

proof fn lemma_models_pass(models: Seq<Model>, from: int, https: spec_fn(Seq<char>) -> bool)
    requires
        0 <= from,
    ensures
        models_fault(models, from, https) is None <==> forall|i: int|
            #![trigger models[i]]
            from <= i < models.len() ==> model_fault(models, i, https) is None,
    decreases models.len() - from,
{
    if from < models.len() {
        lemma_models_pass(models, from + 1, https);
        let first = models[from];
        if models_fault(models, from, https) is None {
            assert forall|i: int|
                #![trigger models[i]]
                from <= i < models.len() implies model_fault(models, i, https) is None by {
                if i > from {
                    assert(models_fault(models, from + 1, https) is None);
                }
            }
        }
    }
}

/// A recipe passes if and only if it is of the first schema, its identifier, its version, its
/// license and the version of FishEye that it needs have their forms, its texts are no longer than
/// 256 characters and its description than 4096, its four addresses are acceptable, and it has 1 to
/// 64 models that pass.
pub proof fn recipes_keep_their_limits(recipe: Recipe, https: spec_fn(Seq<char>) -> bool)
    ensures
        recipe_fault(recipe, https) is None <==> {
            &&& recipe.schema@ == "uci-grabber-recipe/v1"@
            &&& is_slug(recipe.id@)
            &&& is_plain_text(recipe.name@, 256)
            &&& recipe.version@.len() <= 80 && is_semver(recipe.version@, true)
            &&& is_plain_text(recipe.description@, 4096)
            &&& is_plain_text(recipe.publisher.name@, 256)
            &&& https(recipe.publisher.url@)
            &&& is_spdx(recipe.license.spdx@)
            &&& is_plain_text(recipe.license.name@, 256)
            &&& https(recipe.license.url@)
            &&& https(recipe.license.source_url@)
            &&& https(recipe.homepage@)
            &&& recipe.minimum_fisheye_version@.len() <= 64 && is_semver(
                recipe.minimum_fisheye_version@,
                false,
            )
            &&& 1 <= recipe.models@.len() <= 64
            &&& forall|i: int|
                #![trigger recipe.models@[i]]
                0 <= i < recipe.models@.len() ==> model_fault(recipe.models@, i, https) is None
        },
        recipe_fault(recipe, https) matches Some(error) ==> error is InvalidRecipe,
{
    lemma_models_pass(recipe.models@, 0, https);
    lemma_recipe_errors(recipe, https);
}

proof fn lemma_recipe_errors(recipe: Recipe, https: spec_fn(Seq<char>) -> bool)
    ensures
        recipe_fault(recipe, https) matches Some(error) ==> error is InvalidRecipe,
{
    lemma_model_errors(recipe.models@, 0, https);
}

proof fn lemma_model_errors(models: Seq<Model>, from: int, https: spec_fn(Seq<char>) -> bool)
    requires
        0 <= from,
    ensures
        models_fault(models, from, https) matches Some(error) ==> error is InvalidRecipe,
    decreases models.len() - from,
{
    if from < models.len() {
        lemma_package_errors(models[from].id@, models[from].packages@, 0, https);
        lemma_model_errors(models, from + 1, https);
    }
}

proof fn lemma_package_errors(
    model: Seq<char>,
    packages: Seq<Package>,
    from: int,
    https: spec_fn(Seq<char>) -> bool,
)
    requires
        0 <= from,
    ensures
        packages_fault(model, packages, from, https) matches Some(error) ==> error is InvalidRecipe,
    decreases packages.len() - from,
{
    if from < packages.len() {
        lemma_artifact_errors(model, packages[from], 0, https);
        lemma_package_errors(model, packages, from + 1, https);
    }
}

proof fn lemma_artifact_errors(
    model: Seq<char>,
    package: Package,
    from: int,
    https: spec_fn(Seq<char>) -> bool,
)
    requires
        0 <= from,
    ensures
        artifacts_fault(model, package, from, https) matches Some(error) ==> error is InvalidRecipe,
    decreases package.artifacts@.len() - from,
{
    if from < package.artifacts@.len() {
        lemma_artifact_errors(model, package, from + 1, https);
    }
}

/// A catalog passes if and only if it is of the first schema, it expires after it was made, and it
/// lists at most 1024 recipes that pass, no two with one identifier.
pub proof fn catalogs_keep_their_limits(catalog: Catalog, https: spec_fn(Seq<char>) -> bool)
    ensures
        catalog_fault(catalog, https) is None <==> {
            &&& catalog.schema@ == "uci-grabber-catalog/v1"@
            &&& period_fault(catalog.generated_at@, catalog.expires_at@) is None
            &&& catalog.recipes@.len() <= 1024
            &&& forall|i: int|
                #![trigger catalog.recipes@[i]]
                0 <= i < catalog.recipes@.len() ==> recipe_fault(catalog.recipes@[i], https) is None
            &&& forall|h: int, i: int|
                0 <= h < i < catalog.recipes@.len() ==> (#[trigger] catalog.recipes@[h]).id@ != (
                #[trigger] catalog.recipes@[i]).id@
        },
        period_fault(catalog.generated_at@, catalog.expires_at@) is None <==> {
            &&& is_timestamp(catalog.generated_at@)
            &&& is_timestamp(catalog.expires_at@)
            &&& is_earlier(
                moment_of(civil_part(catalog.generated_at@)),
                moment_of(civil_part(catalog.expires_at@)),
            )
        },
        catalog_fault(catalog, https) matches Some(error) ==> error is InvalidCatalog,
{
    let recipes = catalog.recipes@;
    accepted_catalogs_obey_every_rule(catalog, https);
    lemma_entry_errors(recipes, 0, https);
    assert forall|i: int| 0 <= i < recipes.len() implies (#[trigger] recipes[i]).valid(https) == (
    recipe_fault(recipes[i], https) is None) by {
        accepted_recipes_obey_every_rule(recipes[i], https);
    }
    if catalog_fault(catalog, https) is None {
        assert forall|h: int, i: int| 0 <= h < i < recipes.len() implies (#[trigger] recipes[h]).id@
            != (#[trigger] recipes[i]).id@ by {
            assert(!recipe_taken(recipes, i));
        }
    }
}

proof fn lemma_entry_errors(recipes: Seq<Recipe>, from: int, https: spec_fn(Seq<char>) -> bool)
    requires
        0 <= from,
    ensures
        entries_fault(recipes, from, https) matches Some(error) ==> error is InvalidCatalog,
    decreases recipes.len() - from,
{
    if from < recipes.len() {
        lemma_entry_errors(recipes, from + 1, https);
    }
}

/// Documents have at most 512 KiB.
pub proof fn documents_have_at_most_512_kib(length: nat)
    ensures
        manifest_size_fault(length) is None <==> length <= 524288,
        catalog_size_fault(length) is None <==> length <= 524288,
{
}

/// A catalog holds before the time at which it expires, and from that time on no more.
pub proof fn catalogs_hold_until_they_expire(expires: Seq<char>, now: Seq<char>)
    requires
        is_timestamp(expires),
    ensures
        expiry_fault(expires, now) is None <==> text_less(now, expires),
        expiry_fault(expires, expires) is Some,
{
    crate::order::lemma_less_irreflexive(expires);
}

/// What is reported of a recipe whose own fields are in order is what is wrong with its first model
/// that is not.
pub proof fn the_first_faulty_model_is_reported(
    recipe: Recipe,
    https: spec_fn(Seq<char>) -> bool,
    i: int,
)
    requires
        header_fault(recipe, https) is None,
        1 <= recipe.models@.len() <= 64,
        0 <= i < recipe.models@.len(),
        forall|h: int| 0 <= h < i ==> model_fault(recipe.models@, h, https) is None,
        model_fault(recipe.models@, i, https) is Some,
    ensures
        recipe_fault(recipe, https) == model_fault(recipe.models@, i, https),
{
    lemma_first_model(recipe.models@, 0, i, https);
}

proof fn lemma_first_model(
    models: Seq<Model>,
    from: int,
    i: int,
    https: spec_fn(Seq<char>) -> bool,
)
    requires
        0 <= from <= i < models.len(),
        forall|h: int| 0 <= h < i ==> model_fault(models, h, https) is None,
        model_fault(models, i, https) is Some,
    ensures
        models_fault(models, from, https) == model_fault(models, i, https),
    decreases i - from,
{
    if from < i {
        assert(model_fault(models, from, https) is None);
        lemma_first_model(models, from + 1, i, https);
    }
}

/// What is reported of packages is what is wrong with the first that is not in order, and of
/// artifacts the same.
pub proof fn the_first_faulty_part_is_reported(
    model: Seq<char>,
    packages: Seq<Package>,
    j: int,
    package: Package,
    k: int,
    https: spec_fn(Seq<char>) -> bool,
)
    requires
        0 <= j < packages.len(),
        forall|h: int| 0 <= h < j ==> package_fault(model, packages, h, https) is None,
        package_fault(model, packages, j, https) is Some,
        0 <= k < package.artifacts@.len(),
        forall|h: int| 0 <= h < k ==> artifact_fault(model, package, h, https) is None,
        artifact_fault(model, package, k, https) is Some,
    ensures
        packages_fault(model, packages, 0, https) == package_fault(model, packages, j, https),
        artifacts_fault(model, package, 0, https) == artifact_fault(model, package, k, https),
{
    lemma_first_package(model, packages, 0, j, https);
    lemma_first_artifact(model, package, 0, k, https);
}

proof fn lemma_first_package(
    model: Seq<char>,
    packages: Seq<Package>,
    from: int,
    j: int,
    https: spec_fn(Seq<char>) -> bool,
)
    requires
        0 <= from <= j < packages.len(),
        forall|h: int| 0 <= h < j ==> package_fault(model, packages, h, https) is None,
        package_fault(model, packages, j, https) is Some,
    ensures
        packages_fault(model, packages, from, https) == package_fault(model, packages, j, https),
    decreases j - from,
{
    if from < j {
        assert(package_fault(model, packages, from, https) is None);
        lemma_first_package(model, packages, from + 1, j, https);
    }
}

proof fn lemma_first_artifact(
    model: Seq<char>,
    package: Package,
    from: int,
    k: int,
    https: spec_fn(Seq<char>) -> bool,
)
    requires
        0 <= from <= k < package.artifacts@.len(),
        forall|h: int| 0 <= h < k ==> artifact_fault(model, package, h, https) is None,
        artifact_fault(model, package, k, https) is Some,
    ensures
        artifacts_fault(model, package, from, https) == artifact_fault(model, package, k, https),
    decreases k - from,
{
    if from < k {
        assert(artifact_fault(model, package, from, https) is None);
        lemma_first_artifact(model, package, from + 1, k, https);
    }
}

/// What is reported of a catalog is about its first recipe that is not accepted, or that repeats
/// the identifier of an earlier one, by that identifier.
pub proof fn the_first_faulty_recipe_is_reported(
    catalog: Catalog,
    https: spec_fn(Seq<char>) -> bool,
    i: int,
)
    requires
        catalog.schema@ == "uci-grabber-catalog/v1"@,
        period_fault(catalog.generated_at@, catalog.expires_at@) is None,
        0 <= i < catalog.recipes@.len() <= 1024,
        forall|h: int| 0 <= h < i ==> entry_fault(catalog.recipes@, h, https) is None,
        entry_fault(catalog.recipes@, i, https) is Some,
    ensures
        catalog_fault(catalog, https) == entry_fault(catalog.recipes@, i, https),
        recipe_fault(catalog.recipes@[i], https) matches Some(error) ==> catalog_fault(
            catalog,
            https,
        ) == Some(
            ErrorView::InvalidCatalog(
                "recipe `"@ + catalog.recipes@[i].id@ + "`: "@ + error.message(),
            ),
        ),
        recipe_fault(catalog.recipes@[i], https) is None ==> catalog_fault(catalog, https) == Some(
            ErrorView::InvalidCatalog(
                "duplicate recipe id `"@ + catalog.recipes@[i].id@ + "`"@,
            ),
        ),
{
    lemma_first_entry(catalog.recipes@, 0, i, https);
}

proof fn lemma_first_entry(
    recipes: Seq<Recipe>,
    from: int,
    i: int,
    https: spec_fn(Seq<char>) -> bool,
)
    requires
        0 <= from <= i < recipes.len(),
        forall|h: int| 0 <= h < i ==> entry_fault(recipes, h, https) is None,
        entry_fault(recipes, i, https) is Some,
    ensures
        entries_fault(recipes, from, https) == entry_fault(recipes, i, https),
    decreases i - from,
{
    if from < i {
        assert(entry_fault(recipes, from, https) is None);
        lemma_first_entry(recipes, from + 1, i, https);
    }
}

} // verus!
