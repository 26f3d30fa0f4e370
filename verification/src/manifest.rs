//! The merger: combines the embedded descriptor (or the default one) with
//! the inferred dependency set into one canonical project descriptor.
//! Explicit entries always win over inference; inferred names enter with
//! an unresolved version; the binary target defaults to one entry named
//! after the script stem.

use crate::code_utils::names_view;
use crate::toml_utils::deps_sorted;
use crate::toml_utils::deps_view;
use crate::toml_utils::insert_dep;
use crate::toml_utils::lemma_insert_dep_preserves;
use crate::toml_utils::lex_lt;
use crate::toml_utils::spec_insert_dep;
use crate::toml_utils::CargoManifest;
use crate::toml_utils::Dependency;
use crate::toml_utils::DependencyDetail;
use crate::toml_utils::DependencyDetailView;
use crate::toml_utils::DependencyView;
use crate::toml_utils::ManifestView;
use crate::toml_utils::Product;
use crate::toml_utils::ProductView;
use vstd::prelude::*;

verus! {

/// The entry an inferred name gets: no version constraint yet, no
/// features — a later external step resolves the version.
pub open spec fn unresolved_dep() -> DependencyView {
    DependencyView::Detailed(DependencyDetailView { version: None, features: Seq::empty() })
}

/// The dependency mapping after the inferred names are folded in: a name
/// already declared keeps its declared entry, a new name enters
/// unresolved.
pub open spec fn spec_merge_deps(
    deps: Seq<(Seq<char>, DependencyView)>,
    inferred: Seq<Seq<char>>,
) -> Seq<(Seq<char>, DependencyView)>
    decreases inferred.len(),
{
    if inferred.len() == 0 {
        deps
    } else {
        let next = match spec_insert_dep(deps, inferred[0], unresolved_dep()) {
            Some(r) => r,
            None => deps,
        };
        spec_merge_deps(next, inferred.skip(1))
    }
}

/// The merged descriptor: the embedded package block, edition and
/// workspace marker always win; dependencies are the embedded mapping with
/// the inferred names folded in; the binary-target list defaults to one
/// entry named after the script stem, pointing at the generated source
/// path, unless the embedded descriptor has its own.
pub open spec fn spec_merge_manifest(
    embedded: ManifestView,
    inferred: Seq<Seq<char>>,
    stem: Seq<char>,
    gen_source_path: Seq<char>,
) -> ManifestView {
    ManifestView {
        package: embedded.package,
        dependencies: spec_merge_deps(embedded.dependencies, inferred),
        edition: embedded.edition,
        workspace: embedded.workspace,
        bin: if embedded.bin.len() > 0 {
            embedded.bin
        } else {
            seq![
                ProductView {
                    path: Some(gen_source_path),
                    name: Some(stem),
                    required_features: None,
                },
            ]
        },
    }
}

/// Looks a name up in the dependency mapping.
pub open spec fn dep_lookup(deps: Seq<(Seq<char>, DependencyView)>, k: Seq<char>) -> Option<
    DependencyView,
>
    decreases deps.len(),
{
    if deps.len() == 0 {
        None
    } else if deps[0].0 == k {
        Some(deps[0].1)
    } else {
        dep_lookup(deps.skip(1), k)
    }
}

/// In a sorted mapping, insertion answers lookups for the inserted name
/// and leaves every other lookup alone.
proof fn lemma_insert_dep_lookup(
    deps: Seq<(Seq<char>, DependencyView)>,
    k: Seq<char>,
    d: DependencyView,
    q: Seq<char>,
)
    ensures
        spec_insert_dep(deps, k, d) matches Some(r) ==> dep_lookup(r, q) == (if q == k {
            Some(d)
        } else {
            dep_lookup(deps, q)
        }),
    decreases deps.len(),
{
    if deps.len() == 0 {
        let r = seq![(k, d)];
        assert(r.skip(1) =~= Seq::<(Seq<char>, DependencyView)>::empty());
    } else if lex_lt(k, deps[0].0) {
        let r = seq![(k, d)] + deps;
        assert(r.skip(1) =~= deps);
    } else if k == deps[0].0 {
    } else {
        lemma_insert_dep_lookup(deps.skip(1), k, d, q);
        match spec_insert_dep(deps.skip(1), k, d) {
            Some(rt) => {
                let r = seq![deps[0]] + rt;
                assert(r.skip(1) =~= rt);
                assert(r[0] == deps[0]);
            },
            None => {},
        }
    }
}

/// A lookup answers exactly when some entry carries the name.
proof fn lemma_dep_lookup_exists(deps: Seq<(Seq<char>, DependencyView)>, k: Seq<char>)
    ensures
        (dep_lookup(deps, k) is Some) <==> (exists|i: int|
            0 <= i < deps.len() && #[trigger] deps[i].0 == k),
    decreases deps.len(),
{
    if deps.len() > 0 && deps[0].0 != k {
        let t = deps.skip(1);
        lemma_dep_lookup_exists(t, k);
        if dep_lookup(deps, k) is Some {
            let w = choose|w: int| 0 <= w < t.len() && #[trigger] t[w].0 == k;
            assert(deps[w + 1].0 == k);
        }
        if exists|i: int| 0 <= i < deps.len() && #[trigger] deps[i].0 == k {
            let w = choose|w: int| 0 <= w < deps.len() && #[trigger] deps[w].0 == k;
            assert(t[w - 1].0 == k);
        }
    }
}

/// Duplicate insertion leaves lookups alone as well, so folding the
/// inferred names in respects every declared entry.
proof fn lemma_merge_deps_lookup(
    deps: Seq<(Seq<char>, DependencyView)>,
    inferred: Seq<Seq<char>>,
    q: Seq<char>,
)
    requires
        deps_sorted(deps),
    ensures
        dep_lookup(spec_merge_deps(deps, inferred), q) == (if dep_lookup(deps, q) is Some {
            dep_lookup(deps, q)
        } else if inferred.contains(q) {
            Some(unresolved_dep())
        } else {
            None
        }),
    decreases inferred.len(),
{
    if inferred.len() == 0 {
        assert(!inferred.contains(q));
    } else {
        let k = inferred[0];
        lemma_insert_dep_preserves(deps, k, unresolved_dep());
        lemma_dep_lookup_exists(deps, k);
        lemma_dep_lookup_exists(deps, q);
        let next = match spec_insert_dep(deps, k, unresolved_dep()) {
            Some(r) => r,
            None => deps,
        };
        lemma_insert_dep_lookup(deps, k, unresolved_dep(), q);
        assert(deps_sorted(next));
        lemma_merge_deps_lookup(next, inferred.skip(1), q);
        assert(inferred.contains(q) == (q == k || inferred.skip(1).contains(q))) by {
            if inferred.contains(q) {
                let w = choose|w: int| 0 <= w < inferred.len() && inferred[w] == q;
                if w > 0 {
                    assert(inferred.skip(1)[w - 1] == q);
                }
            }
            if inferred.skip(1).contains(q) {
                let w = choose|w: int| 0 <= w < inferred.skip(1).len() && inferred.skip(1)[w] == q;
                assert(inferred[w + 1] == q);
            }
        }
        if spec_insert_dep(deps, k, unresolved_dep()) is None {
            assert(dep_lookup(deps, k) is Some);
        }
    }
}

/// Merge precedence, stated over lookups: a declared dependency keeps its
/// declared entry whatever was inferred; an inferred name not declared
/// enters with an unresolved version; nothing else appears.
pub proof fn lemma_merge_precedence(
    embedded: ManifestView,
    inferred: Seq<Seq<char>>,
    stem: Seq<char>,
    gen_source_path: Seq<char>,
    q: Seq<char>,
)
    requires
        deps_sorted(embedded.dependencies),
    ensures
        dep_lookup(embedded.dependencies, q) is Some ==> dep_lookup(
            spec_merge_manifest(embedded, inferred, stem, gen_source_path).dependencies,
            q,
        ) == dep_lookup(embedded.dependencies, q),
        dep_lookup(embedded.dependencies, q) is None && inferred.contains(q) ==> dep_lookup(
            spec_merge_manifest(embedded, inferred, stem, gen_source_path).dependencies,
            q,
        ) == Some(unresolved_dep()),
        dep_lookup(embedded.dependencies, q) is None && !inferred.contains(q) ==> dep_lookup(
            spec_merge_manifest(embedded, inferred, stem, gen_source_path).dependencies,
            q,
        ) is None,
{
    lemma_merge_deps_lookup(embedded.dependencies, inferred, q);
}

/// Merges the embedded descriptor with the inferred dependency set.
/// Deterministic: the result is a function of the inputs, and inference
/// never overrides a declared entry.
pub fn merge_manifest(
    embedded: &CargoManifest,
    inferred: &Vec<String>,
    stem: &String,
    gen_source_path: &String,
) -> (r: CargoManifest)
    ensures
        r@ == spec_merge_manifest(
            embedded@,
            names_view(inferred@),
            stem@,
            gen_source_path@,
        ),
{
    let mut merged = CargoManifest {
        package: clone_package(embedded),
        dependencies: clone_deps(embedded),
        edition: embedded.edition.clone(),
        workspace: embedded.workspace,
        bin: Vec::new(),
    };
    let n = inferred.len();
    let mut i: usize = 0;
    proof {
        assert(names_view(inferred@).skip(0) =~= names_view(inferred@));
    }
    while i < n
        invariant
            n == inferred@.len(),
            i <= n,
            merged@.package == embedded@.package,
            merged@.edition == embedded@.edition,
            merged@.workspace == embedded@.workspace,
            merged.bin@.len() == 0,
            spec_merge_deps(deps_view(embedded.dependencies@), names_view(inferred@))
                == spec_merge_deps(
                deps_view(merged.dependencies@),
                names_view(inferred@).skip(i as int),
            ),
        decreases n - i,
    {
        let name = inferred[i].clone();
        let detail = DependencyDetail { version: None, features: Vec::new() };
        let ghost before = deps_view(merged.dependencies@);
        proof {
            assert(names_view(inferred@).skip(i as int)[0] == inferred@[i as int]@);
            assert(detail@.features =~= Seq::<Seq<char>>::empty());
            assert(detail@ == (DependencyDetailView { version: None, features: Seq::empty() }));
        }
        let inserted = insert_dep(&mut merged.dependencies, name, Dependency::Detailed(detail));
        i = i + 1;
        proof {
            assert(names_view(inferred@).skip(i - 1).skip(1) =~= names_view(inferred@).skip(
                i as int,
            ));
            if !inserted {
                assert(deps_view(merged.dependencies@) == before);
            }
        }
    }
    proof {
        assert(names_view(inferred@).skip(n as int).len() == 0);
    }
    if embedded.bin.len() > 0 {
        merged.bin = clone_bins(embedded);
    } else {
        merged.bin.push(
            Product {
                path: Some(gen_source_path.clone()),
                name: Some(stem.clone()),
                required_features: None,
            },
        );
        proof {
            assert(merged.bin@.len() == 1);
            assert(crate::toml_utils::bins_view(merged.bin@)[0] == merged.bin@[0]@);
            assert(merged.bin@[0]@ == (ProductView {
                path: Some(gen_source_path@),
                name: Some(stem@),
                required_features: None,
            }));
            assert(embedded@.bin.len() == 0);
            assert(crate::toml_utils::bins_view(merged.bin@) =~= spec_merge_manifest(
                embedded@,
                names_view(inferred@),
                stem@,
                gen_source_path@,
            ).bin);
        }
    }
    proof {
        if embedded.bin@.len() > 0 {
            assert(embedded@.bin.len() > 0);
        }
    }
    merged
}

/// Copies the package block, keeping its model.
fn clone_package(m: &CargoManifest) -> (r: crate::toml_utils::Package)
    ensures
        r@ == m@.package,
{
    crate::toml_utils::Package {
        name: m.package.name.clone(),
        version: m.package.version.clone(),
    }
}

/// Copies one dependency entry, keeping its model.
fn clone_dep(d: &Dependency) -> (r: Dependency)
    ensures
        r@ == d@,
{
    match d {
        Dependency::Simple(v) => Dependency::Simple(v.clone()),
        Dependency::Detailed(dd) => {
            let version = match &dd.version {
                Some(v) => Some(v.clone()),
                None => None,
            };
            let features = clone_strings(&dd.features);
            Dependency::Detailed(DependencyDetail { version, features })
        },
    }
}

/// Copies a string list, keeping the sequence of views.
fn clone_strings(xs: &Vec<String>) -> (r: Vec<String>)
    ensures
        r.deep_view() == xs.deep_view(),
{
    let mut r: Vec<String> = Vec::new();
    let mut i: usize = 0;
    while i < xs.len()
        invariant
            i <= xs@.len(),
            r@.len() == i,
            forall|j: int| 0 <= j < i ==> r@[j]@ == xs@[j]@,
        decreases xs@.len() - i,
    {
        r.push(xs[i].clone());
        i = i + 1;
    }
    proof {
        assert forall|j: int|
            0 <= j < r.deep_view().len() implies r.deep_view()[j] == xs.deep_view()[j] by {
            assert(r.deep_view()[j] == r@[j]@);
            assert(xs.deep_view()[j] == xs@[j]@);
        }
        assert(r.deep_view() =~= xs.deep_view());
    }
    r
}

/// Copies the dependency mapping, keeping its model.
fn clone_deps(m: &CargoManifest) -> (r: Vec<(String, Dependency)>)
    ensures
        deps_view(r@) == deps_view(m.dependencies@),
{
    let mut r: Vec<(String, Dependency)> = Vec::new();
    let mut i: usize = 0;
    while i < m.dependencies.len()
        invariant
            i <= m.dependencies@.len(),
            r@.len() == i,
            forall|j: int|
                0 <= j < i ==> #[trigger] deps_view(r@)[j] == deps_view(m.dependencies@)[j],
        decreases m.dependencies@.len() - i,
    {
        let name = m.dependencies[i].0.clone();
        let dep = clone_dep(&m.dependencies[i].1);
        let ghost r0 = r@;
        let ghost name_v = name@;
        let ghost dep_v = dep@;
        r.push((name, dep));
        i = i + 1;
        proof {
            assert forall|j: int|
                0 <= j < i implies #[trigger] deps_view(r@)[j] == deps_view(
                m.dependencies@,
            )[j] by {
                assert(deps_view(r@)[j] == (r@[j].0@, r@[j].1@));
                assert(deps_view(m.dependencies@)[j] == (
                    m.dependencies@[j].0@,
                    m.dependencies@[j].1@,
                ));
                if j < i - 1 {
                    assert(r@[j] == r0[j]);
                    assert(deps_view(r0)[j] == (r0[j].0@, r0[j].1@));
                } else {
                    assert(r@[j] == (r0.push((r@[j].0, r@[j].1)))[j]);
                    assert((r@[j].0@, r@[j].1@) == (name_v, dep_v));
                }
            }
        }
    }
    proof {
        assert(deps_view(r@) =~= deps_view(m.dependencies@));
    }
    r
}

/// Copies one binary target, keeping its model.
fn clone_product(p: &Product) -> (r: Product)
    ensures
        r@ == p@,
{
    let path = match &p.path {
        Some(v) => Some(v.clone()),
        None => None,
    };
    let name = match &p.name {
        Some(v) => Some(v.clone()),
        None => None,
    };
    let required_features = match &p.required_features {
        Some(v) => Some(clone_strings(v)),
        None => None,
    };
    Product { path, name, required_features }
}

/// Copies the binary-target list, keeping its model.
fn clone_bins(m: &CargoManifest) -> (r: Vec<Product>)
    ensures
        crate::toml_utils::bins_view(r@) == crate::toml_utils::bins_view(m.bin@),
{
    let mut r: Vec<Product> = Vec::new();
    let mut i: usize = 0;
    while i < m.bin.len()
        invariant
            i <= m.bin@.len(),
            r@.len() == i,
            forall|j: int|
                0 <= j < i ==> #[trigger] crate::toml_utils::bins_view(r@)[j]
                    == crate::toml_utils::bins_view(m.bin@)[j],
        decreases m.bin@.len() - i,
    {
        let p = clone_product(&m.bin[i]);
        let ghost r0 = r@;
        let ghost p_v = p@;
        r.push(p);
        i = i + 1;
        proof {
            assert forall|j: int|
                0 <= j < i implies #[trigger] crate::toml_utils::bins_view(r@)[j]
                    == crate::toml_utils::bins_view(m.bin@)[j] by {
                assert(crate::toml_utils::bins_view(r@)[j] == r@[j]@);
                assert(crate::toml_utils::bins_view(m.bin@)[j] == m.bin@[j]@);
                if j < i - 1 {
                    assert(r@[j] == r0[j]);
                    assert(crate::toml_utils::bins_view(r0)[j] == r0[j]@);
                } else {
                    assert(r@[j]@ == p_v);
                }
            }
        }
    }
    proof {
        assert(crate::toml_utils::bins_view(r@) =~= crate::toml_utils::bins_view(m.bin@));
    }
    r
}

} // verus!
