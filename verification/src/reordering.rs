//! Recipes that differ in the order of their parts.

use vstd::prelude::*;
use crate::portable::is_portable_relative;
use crate::rules::{is_digest, is_plain_text, is_platform, is_slug};
use crate::schema::{
    accepted_recipes_obey_every_rule, count_kind, declared_bytes, destination_taken, model_taken,
    model_valid, package_valid, parent_directory, platform_taken, recipe_fault, Artifact,
    ArtifactKind, Model, Package, Recipe, MAX_ARTIFACT_BYTES, MAX_MODEL_ARTIFACT_BYTES,
    MAX_PACKAGE_DOWNLOAD_BYTES,
};

verus! {

/// Whether positions are those of a list of a length, each once, in some order.
pub open spec fn is_order(order: Seq<int>, count: nat) -> bool {
    &&& order.len() == count
    &&& forall|i: int| 0 <= i < count ==> 0 <= #[trigger] order[i] < count
    &&& forall|i: int, j: int|
        0 <= i < j < count ==> #[trigger] order[i] != #[trigger] order[j]
}

/// Whether artifacts are others in an order.
pub open spec fn artifacts_by(
    artifacts: Seq<Artifact>,
    others: Seq<Artifact>,
    order: Seq<int>,
) -> bool {
    &&& is_order(order, artifacts.len())
    &&& others.len() == artifacts.len()
    &&& forall|i: int| 0 <= i < others.len() ==> #[trigger] others[i] == artifacts[order[i]]
}

/// Whether packages differ in the order of their artifacts at the most.
pub open spec fn same_package(package: Package, other: Package) -> bool {
    &&& other.platform@ == package.platform@
    &&& other.executable@ == package.executable@
    &&& other.working_directory@ == package.working_directory@
    &&& exists|order: Seq<int>| #[trigger]
        artifacts_by(package.artifacts@, other.artifacts@, order)
}

/// Whether packages are others in an order, the order of their artifacts aside.
pub open spec fn packages_by(
    packages: Seq<Package>,
    others: Seq<Package>,
    order: Seq<int>,
) -> bool {
    &&& is_order(order, packages.len())
    &&& others.len() == packages.len()
    &&& forall|i: int|
        0 <= i < others.len() ==> same_package(packages[order[i]], #[trigger] others[i])
}

/// Whether models differ in the order of their packages and of their artifacts at the most.
pub open spec fn same_model(model: Model, other: Model) -> bool {
    &&& other.id@ == model.id@
    &&& other.name@ == model.name@
    &&& other.description@ == model.description@
    &&& exists|order: Seq<int>| #[trigger] packages_by(model.packages@, other.packages@, order)
}

/// Whether models are others in an order, the order of their parts aside.
pub open spec fn models_by(models: Seq<Model>, others: Seq<Model>, order: Seq<int>) -> bool {
    &&& is_order(order, models.len())
    &&& others.len() == models.len()
    &&& forall|i: int| 0 <= i < others.len() ==> same_model(models[order[i]], #[trigger] others[i])
}

/// Whether recipes differ in the order of their models, of the packages of a model and of the
/// artifacts of a package at the most.
pub open spec fn reordered(recipe: Recipe, other: Recipe) -> bool {
    &&& other.schema@ == recipe.schema@
    &&& other.id@ == recipe.id@
    &&& other.name@ == recipe.name@
    &&& other.version@ == recipe.version@
    &&& other.description@ == recipe.description@
    &&& other.publisher.name@ == recipe.publisher.name@
    &&& other.publisher.url@ == recipe.publisher.url@
    &&& other.license.spdx@ == recipe.license.spdx@
    &&& other.license.name@ == recipe.license.name@
    &&& other.license.url@ == recipe.license.url@
    &&& other.license.source_url@ == recipe.license.source_url@
    &&& other.homepage@ == recipe.homepage@
    &&& other.minimum_fisheye_version@ == recipe.minimum_fisheye_version@
    &&& exists|order: Seq<int>| #[trigger] models_by(recipe.models@, other.models@, order)
}

/// Every position is reached.
proof fn lemma_reaches(order: Seq<int>, count: nat, position: int) -> (i: int)
    requires
        is_order(order, count),
        0 <= position < count,
    ensures
        0 <= i < count,
        order[i] == position,
{
    let all = vstd::set_lib::set_int_range(0, count as int);
    vstd::set_lib::lemma_int_range(0, count as int);
    let pick = |i: int| order[i];
    let reached = all.map(pick);
    assert forall|a: int, b: int|
        #![trigger pick(a), pick(b)]
        all.contains(a) && all.contains(b) && pick(a) == pick(b) implies a == b by {
        if a < b {
            assert(order[a] != order[b]);
        } else if b < a {
            assert(order[b] != order[a]);
        }
    }
    assert forall|a: int| #[trigger] all.contains(a) implies reached.contains(pick(a)) by {}
    vstd::set_lib::lemma_map_size(all, reached, pick);
    assert(reached.subset_of(all));
    vstd::set_lib::lemma_subset_equality(reached, all);
    assert(reached.contains(position));
    choose|i: int| all.contains(i) && position == pick(i)
}

spec fn sum(values: Seq<int>) -> int
    decreases values.len(),
{
    if values.len() == 0 {
        0
    } else {
        sum(values.drop_last()) + values.last()
    }
}

proof fn lemma_sum_without(values: Seq<int>, at: int)
    requires
        0 <= at < values.len(),
    ensures
        sum(values) == sum(values.remove(at)) + values[at],
    decreases values.len(),
{
    let front = values.drop_last();
    if at == values.len() - 1 {
        assert(values.remove(at) =~= front);
    } else {
        lemma_sum_without(front, at);
        assert(values.remove(at).drop_last() =~= front.remove(at));
        assert(values.remove(at).last() == values.last());
    }
}

proof fn lemma_sum_of_order(values: Seq<int>, others: Seq<int>, order: Seq<int>)
    requires
        is_order(order, values.len()),
        others.len() == values.len(),
        forall|i: int| 0 <= i < others.len() ==> #[trigger] others[i] == values[order[i]],
    ensures
        sum(others) == sum(values),
    decreases values.len(),
{
    if values.len() > 0 {
        let last = values.len() - 1;
        let at = order[last];
        let rest = Seq::new(
            last as nat,
            |i: int|
                if order[i] > at {
                    order[i] - 1
                } else {
                    order[i]
                },
        );
        assert forall|i: int| 0 <= i < last implies order[i] != at by {
            assert(order[i] != order[last]);
        }
        assert forall|i: int| 0 <= i < last implies 0 <= #[trigger] rest[i] < last by {
            assert(0 <= order[i] < values.len());
        }
        assert forall|i: int, j: int| 0 <= i < j < last implies #[trigger] rest[i]
            != #[trigger] rest[j] by {
            assert(order[i] != order[j]);
        }
        assert forall|i: int| 0 <= i < last implies #[trigger] others.drop_last()[i]
            == values.remove(at)[rest[i]] by {
            assert(others[i] == values[order[i]]);
        }
        lemma_sum_without(values, at);
        lemma_sum_of_order(values.remove(at), others.drop_last(), rest);
    }
}

spec fn byte_counts(artifacts: Seq<Artifact>) -> Seq<int> {
    artifacts.map_values(|artifact: Artifact| artifact.byte_count as int)
}

spec fn kinds(artifacts: Seq<Artifact>, kind: ArtifactKind) -> Seq<int> {
    artifacts.map_values(
        |artifact: Artifact|
            if artifact.kind == kind {
                1int
            } else {
                0int
            },
    )
}

proof fn lemma_sums(artifacts: Seq<Artifact>, kind: ArtifactKind, count: int)
    requires
        0 <= count <= artifacts.len(),
    ensures
        declared_bytes(artifacts, count) == sum(byte_counts(artifacts).take(count)),
        count_kind(artifacts, kind, count) == sum(kinds(artifacts, kind).take(count)),
    decreases count,
{
    if count > 0 {
        lemma_sums(artifacts, kind, count - 1);
        assert(byte_counts(artifacts).take(count).drop_last() =~= byte_counts(artifacts).take(
            count - 1,
        ));
        assert(kinds(artifacts, kind).take(count).drop_last() =~= kinds(artifacts, kind).take(
            count - 1,
        ));
    }
}

proof fn lemma_same_sums(
    artifacts: Seq<Artifact>,
    others: Seq<Artifact>,
    order: Seq<int>,
    kind: ArtifactKind,
)
    requires
        artifacts_by(artifacts, others, order),
    ensures
        declared_bytes(others, others.len() as int) == declared_bytes(
            artifacts,
            artifacts.len() as int,
        ),
        count_kind(others, kind, others.len() as int) == count_kind(
            artifacts,
            kind,
            artifacts.len() as int,
        ),
{
    let count = artifacts.len() as int;
    lemma_sums(artifacts, kind, count);
    lemma_sums(others, kind, count);
    assert(byte_counts(artifacts).take(count) =~= byte_counts(artifacts));
    assert(byte_counts(others).take(count) =~= byte_counts(others));
    assert(kinds(artifacts, kind).take(count) =~= kinds(artifacts, kind));
    assert(kinds(others, kind).take(count) =~= kinds(others, kind));
    assert forall|i: int| 0 <= i < count implies #[trigger] byte_counts(others)[i] == byte_counts(
        artifacts,
    )[order[i]] by {
        assert(others[i] == artifacts[order[i]]);
    }
    assert forall|i: int| 0 <= i < count implies #[trigger] kinds(others, kind)[i] == kinds(
        artifacts,
        kind,
    )[order[i]] by {
        assert(others[i] == artifacts[order[i]]);
    }
    lemma_sum_of_order(byte_counts(artifacts), byte_counts(others), order);
    lemma_sum_of_order(kinds(artifacts, kind), kinds(others, kind), order);
}

spec fn distinct(keys: Seq<Seq<char>>) -> bool {
    forall|i: int, j: int| 0 <= i < j < keys.len() ==> #[trigger] keys[i] != #[trigger] keys[j]
}

proof fn lemma_distinct_in_order(keys: Seq<Seq<char>>, others: Seq<Seq<char>>, order: Seq<int>)
    requires
        is_order(order, keys.len()),
        others.len() == keys.len(),
        forall|i: int| 0 <= i < others.len() ==> #[trigger] others[i] == keys[order[i]],
    ensures
        distinct(others) <==> distinct(keys),
{
    if distinct(keys) {
        assert forall|i: int, j: int| 0 <= i < j < others.len() implies #[trigger] others[i]
            != #[trigger] others[j] by {
            assert(order[i] != order[j]);
            if order[i] < order[j] {
                assert(keys[order[i]] != keys[order[j]]);
            } else {
                assert(keys[order[j]] != keys[order[i]]);
            }
        }
    }
    if distinct(others) {
        assert forall|i: int, j: int| 0 <= i < j < keys.len() implies #[trigger] keys[i]
            != #[trigger] keys[j] by {
            let a = lemma_reaches(order, keys.len(), i);
            let b = lemma_reaches(order, keys.len(), j);
            if a < b {
                assert(others[a] != others[b]);
            } else {
                assert(others[b] != others[a]);
            }
        }
    }
}

spec fn destinations(artifacts: Seq<Artifact>) -> Seq<Seq<char>> {
    artifacts.map_values(|artifact: Artifact| artifact.destination@)
}

proof fn lemma_destinations(artifacts: Seq<Artifact>)
    ensures
        distinct(destinations(artifacts)) <==> forall|k: int|
            0 <= k < artifacts.len() ==> !#[trigger] destination_taken(artifacts, k),
{
    let keys = destinations(artifacts);
    if distinct(keys) {
        assert forall|k: int| 0 <= k < artifacts.len() implies !#[trigger] destination_taken(
            artifacts,
            k,
        ) by {
            if destination_taken(artifacts, k) {
                let j = choose|j: int|
                    0 <= j < k && (#[trigger] artifacts[j]).destination@
                        == artifacts[k].destination@;
                assert(keys[j] != keys[k]);
            }
        }
    } else {
        let (i, j) = choose|i: int, j: int|
            0 <= i < j < keys.len() && #[trigger] keys[i] == #[trigger] keys[j];
        assert(artifacts[i].destination@ == artifacts[j].destination@);
        assert(destination_taken(artifacts, j));
    }
}

spec fn artifact_ok(artifact: Artifact, https: spec_fn(Seq<char>) -> bool) -> bool {
    &&& https(artifact.url@)
    &&& 0 < artifact.byte_count <= MAX_ARTIFACT_BYTES
    &&& artifact.kind == ArtifactKind::Model ==> artifact.byte_count <= MAX_MODEL_ARTIFACT_BYTES
    &&& is_digest(artifact.sha256@)
    &&& artifact.destination@.len() <= 512 && is_portable_relative(artifact.destination@, false)
}

spec fn artifacts_ok(artifacts: Seq<Artifact>, https: spec_fn(Seq<char>) -> bool) -> bool {
    let count = artifacts.len() as int;
    &&& 1 <= count <= 16
    &&& count_kind(artifacts, ArtifactKind::Runtime, count) == 1
    &&& count_kind(artifacts, ArtifactKind::Model, count) <= 1
    &&& declared_bytes(artifacts, count) <= MAX_PACKAGE_DOWNLOAD_BYTES
    &&& distinct(destinations(artifacts))
    &&& forall|k: int| 0 <= k < count ==> artifact_ok(#[trigger] artifacts[k], https)
}

proof fn lemma_artifacts_ok(
    artifacts: Seq<Artifact>,
    others: Seq<Artifact>,
    order: Seq<int>,
    https: spec_fn(Seq<char>) -> bool,
)
    requires
        artifacts_by(artifacts, others, order),
    ensures
        artifacts_ok(others, https) <==> artifacts_ok(artifacts, https),
{
    lemma_same_sums(artifacts, others, order, ArtifactKind::Runtime);
    lemma_same_sums(artifacts, others, order, ArtifactKind::Model);
    assert forall|i: int| 0 <= i < others.len() implies #[trigger] destinations(others)[i]
        == destinations(artifacts)[order[i]] by {
        assert(others[i] == artifacts[order[i]]);
    }
    lemma_distinct_in_order(destinations(artifacts), destinations(others), order);
    if artifacts_ok(others, https) {
        assert forall|k: int| 0 <= k < artifacts.len() implies artifact_ok(
            #[trigger] artifacts[k],
            https,
        ) by {
            let i = lemma_reaches(order, artifacts.len(), k);
            assert(others[i] == artifacts[order[i]]);
        }
    }
    if artifacts_ok(artifacts, https) {
        assert forall|i: int| 0 <= i < others.len() implies artifact_ok(
            #[trigger] others[i],
            https,
        ) by {
            assert(others[i] == artifacts[order[i]]);
        }
    }
}

spec fn package_ok(package: Package, https: spec_fn(Seq<char>) -> bool) -> bool {
    &&& is_platform(package.platform@)
    &&& package.executable@.len() <= 512 && is_portable_relative(package.executable@, false)
    &&& package.working_directory@.len() <= 512 && is_portable_relative(
        package.working_directory@,
        true,
    )
    &&& package.working_directory@ == parent_directory(package.executable@)
    &&& artifacts_ok(package.artifacts@, https)
}

proof fn lemma_package_valid(packages: Seq<Package>, j: int, https: spec_fn(Seq<char>) -> bool)
    ensures
        package_valid(packages, j, https) <==> package_ok(packages[j], https) && !platform_taken(
            packages,
            j,
        ),
{
    let artifacts = packages[j].artifacts@;
    lemma_destinations(artifacts);
    if package_valid(packages, j, https) {
        assert forall|k: int| 0 <= k < artifacts.len() implies artifact_ok(
            #[trigger] artifacts[k],
            https,
        ) && !destination_taken(artifacts, k) by {}
        assert forall|k: int| 0 <= k < artifacts.len() implies !#[trigger] destination_taken(
            artifacts,
            k,
        ) by {
            assert(artifact_ok(artifacts[k], https));
        }
    }
    if package_ok(packages[j], https) {
        assert forall|k: int| 0 <= k < artifacts.len() implies artifact_ok(
            #[trigger] artifacts[k],
            https,
        ) && !destination_taken(artifacts, k) by {}
    }
}

spec fn platforms(packages: Seq<Package>) -> Seq<Seq<char>> {
    packages.map_values(|package: Package| package.platform@)
}

spec fn packages_ok(packages: Seq<Package>, https: spec_fn(Seq<char>) -> bool) -> bool {
    &&& distinct(platforms(packages))
    &&& forall|j: int| 0 <= j < packages.len() ==> package_ok(#[trigger] packages[j], https)
}

proof fn lemma_packages_valid(packages: Seq<Package>, https: spec_fn(Seq<char>) -> bool)
    ensures
        (forall|j: int|
            #![trigger packages[j]]
            0 <= j < packages.len() ==> package_valid(packages, j, https)) <==> packages_ok(
            packages,
            https,
        ),
{
    let keys = platforms(packages);
    if packages_ok(packages, https) {
        assert forall|j: int| #![trigger packages[j]] 0 <= j < packages.len() implies package_valid(
            packages,
            j,
            https,
        ) by {
            lemma_package_valid(packages, j, https);
            if platform_taken(packages, j) {
                let i = choose|i: int|
                    0 <= i < j && (#[trigger] packages[i]).platform@ == packages[j].platform@;
                assert(keys[i] != keys[j]);
            }
        }
    }
    if forall|j: int|
        #![trigger packages[j]]
        0 <= j < packages.len() ==> package_valid(packages, j, https) {
        assert forall|j: int| 0 <= j < packages.len() implies package_ok(
            #[trigger] packages[j],
            https,
        ) by {
            lemma_package_valid(packages, j, https);
        }
        assert forall|i: int, j: int| 0 <= i < j < keys.len() implies #[trigger] keys[i]
            != #[trigger] keys[j] by {
            lemma_package_valid(packages, j, https);
            assert(package_valid(packages, j, https)) by {
                assert(packages[j] == packages[j]);
            }
            assert(packages[i].platform@ == keys[i]);
            assert(packages[j].platform@ == keys[j]);
        }
    }
}

proof fn lemma_packages_ok(
    packages: Seq<Package>,
    others: Seq<Package>,
    order: Seq<int>,
    https: spec_fn(Seq<char>) -> bool,
)
    requires
        packages_by(packages, others, order),
    ensures
        packages_ok(others, https) <==> packages_ok(packages, https),
{
    assert forall|i: int| 0 <= i < others.len() implies package_ok(#[trigger] others[i], https)
        == package_ok(packages[order[i]], https) by {
        let package = packages[order[i]];
        assert(same_package(package, others[i]));
        let inner = choose|inner: Seq<int>| #[trigger]
            artifacts_by(package.artifacts@, others[i].artifacts@, inner);
        lemma_artifacts_ok(package.artifacts@, others[i].artifacts@, inner, https);
    }
    assert forall|i: int| 0 <= i < others.len() implies #[trigger] platforms(others)[i]
        == platforms(packages)[order[i]] by {
        assert(same_package(packages[order[i]], others[i]));
    }
    lemma_distinct_in_order(platforms(packages), platforms(others), order);
    if packages_ok(others, https) {
        assert forall|j: int| 0 <= j < packages.len() implies package_ok(
            #[trigger] packages[j],
            https,
        ) by {
            let i = lemma_reaches(order, packages.len(), j);
            assert(package_ok(others[i], https) == package_ok(packages[order[i]], https));
        }
    }
}

spec fn model_ok(model: Model, https: spec_fn(Seq<char>) -> bool) -> bool {
    &&& is_slug(model.id@)
    &&& is_plain_text(model.name@, 256)
    &&& is_plain_text(model.description@, 4096)
    &&& 1 <= model.packages@.len() <= 6
    &&& packages_ok(model.packages@, https)
}

spec fn identifiers(models: Seq<Model>) -> Seq<Seq<char>> {
    models.map_values(|model: Model| model.id@)
}

spec fn models_ok(models: Seq<Model>, https: spec_fn(Seq<char>) -> bool) -> bool {
    &&& distinct(identifiers(models))
    &&& forall|i: int| 0 <= i < models.len() ==> model_ok(#[trigger] models[i], https)
}

proof fn lemma_models_valid(models: Seq<Model>, https: spec_fn(Seq<char>) -> bool)
    ensures
        (forall|i: int|
            #![trigger models[i]]
            0 <= i < models.len() ==> model_valid(models, i, https)) <==> models_ok(models, https),
{
    let keys = identifiers(models);
    assert forall|i: int| 0 <= i < models.len() implies (model_valid(models, i, https) <==> model_ok(
        #[trigger] models[i],
        https,
    ) && !model_taken(models, i)) by {
        lemma_packages_valid(models[i].packages@, https);
    }
    if models_ok(models, https) {
        assert forall|i: int| #![trigger models[i]] 0 <= i < models.len() implies model_valid(
            models,
            i,
            https,
        ) by {
            if model_taken(models, i) {
                let h = choose|h: int| 0 <= h < i && (#[trigger] models[h]).id@ == models[i].id@;
                assert(keys[h] != keys[i]);
            }
        }
    }
    if forall|i: int|
        #![trigger models[i]]
        0 <= i < models.len() ==> model_valid(models, i, https) {
        assert forall|h: int, i: int| 0 <= h < i < keys.len() implies #[trigger] keys[h]
            != #[trigger] keys[i] by {
            assert(model_valid(models, i, https)) by {
                assert(models[i] == models[i]);
            }
            assert(models[h].id@ == keys[h]);
            assert(models[i].id@ == keys[i]);
        }
    }
}

proof fn lemma_models_ok(
    models: Seq<Model>,
    others: Seq<Model>,
    order: Seq<int>,
    https: spec_fn(Seq<char>) -> bool,
)
    requires
        models_by(models, others, order),
    ensures
        models_ok(others, https) <==> models_ok(models, https),
{
    assert forall|i: int| 0 <= i < others.len() implies model_ok(#[trigger] others[i], https)
        == model_ok(models[order[i]], https) by {
        let model = models[order[i]];
        assert(same_model(model, others[i]));
        let inner = choose|inner: Seq<int>| #[trigger]
            packages_by(model.packages@, others[i].packages@, inner);
        lemma_packages_ok(model.packages@, others[i].packages@, inner, https);
    }
    assert forall|i: int| 0 <= i < others.len() implies #[trigger] identifiers(others)[i]
        == identifiers(models)[order[i]] by {
        assert(same_model(models[order[i]], others[i]));
    }
    lemma_distinct_in_order(identifiers(models), identifiers(others), order);
    if models_ok(others, https) {
        assert forall|j: int| 0 <= j < models.len() implies model_ok(#[trigger] models[j], https) by {
            let i = lemma_reaches(order, models.len(), j);
            assert(model_ok(others[i], https) == model_ok(models[order[i]], https));
        }
    }
}

/// Whether a recipe is accepted does not depend on the order of its models, of the packages of a
/// model and of the artifacts of a package.
pub proof fn acceptance_ignores_order(
    recipe: Recipe,
    other: Recipe,
    https: spec_fn(Seq<char>) -> bool,
)
    requires
        reordered(recipe, other),
    ensures
        recipe_fault(other, https) is None <==> recipe_fault(recipe, https) is None,
{
    accepted_recipes_obey_every_rule(recipe, https);
    accepted_recipes_obey_every_rule(other, https);
    lemma_models_valid(recipe.models@, https);
    lemma_models_valid(other.models@, https);
    let order = choose|order: Seq<int>| #[trigger]
        models_by(recipe.models@, other.models@, order);
    lemma_models_ok(recipe.models@, other.models@, order, https);
}

} // verus!
