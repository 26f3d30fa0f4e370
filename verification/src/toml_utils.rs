//! The canonical project descriptor: package metadata, a dependency
//! mapping, an edition, an optional workspace marker and binary-target
//! records. The descriptor has a text form, rendered and parsed
//! symmetrically by [`crate::toml_fmt`]; `rs_extract_toml` pulls the
//! embedded descriptor out of a script's specially marked comment lines.

use crate::errors::BuildRunError;
use crate::text::chars_to_string;
use crate::text::join_lines;
use crate::text::lines_view;
use crate::text::str_to_chars;
use vstd::prelude::*;
use vstd::string::StrSliceExecFns;
use vstd::string::StringExecFns;

verus! {

/// A dependency given as more than a bare version string: the version may
/// be absent (a feature-only declaration is legal) and a feature list may
/// be requested.
#[derive(Debug, Clone, PartialEq)]
pub struct DependencyDetail {
    pub version: Option<String>,
    pub features: Vec<String>,
}

/// One entry of the dependency mapping: a bare version-constraint string,
/// or a detailed record.
#[derive(Debug, Clone, PartialEq)]
pub enum Dependency {
    Simple(String),
    Detailed(DependencyDetail),
}

/// A binary target: executable name, source path and required features.
#[derive(Debug, Clone, PartialEq)]
pub struct Product {
    pub path: Option<String>,
    pub name: Option<String>,
    pub required_features: Option<Vec<String>>,
}

/// The package block: name and version.
#[derive(Debug, Clone, PartialEq)]
pub struct Package {
    pub name: String,
    pub version: String,
}

/// The canonical project descriptor. The dependency mapping is kept
/// strictly sorted by name, so names are unique and merging is
/// order-independent.
#[derive(Debug, Clone, PartialEq)]
pub struct CargoManifest {
    pub package: Package,
    pub dependencies: Vec<(String, Dependency)>,
    pub edition: String,
    pub workspace: bool,
    pub bin: Vec<Product>,
}

/// Mathematical model of [`DependencyDetail`].
pub struct DependencyDetailView {
    pub version: Option<Seq<char>>,
    pub features: Seq<Seq<char>>,
}

/// Mathematical model of [`Dependency`].
pub enum DependencyView {
    Simple(Seq<char>),
    Detailed(DependencyDetailView),
}

/// Mathematical model of [`Product`].
pub struct ProductView {
    pub path: Option<Seq<char>>,
    pub name: Option<Seq<char>>,
    pub required_features: Option<Seq<Seq<char>>>,
}

/// Mathematical model of [`Package`].
pub struct PackageView {
    pub name: Seq<char>,
    pub version: Seq<char>,
}

/// Mathematical model of [`CargoManifest`].
pub struct ManifestView {
    pub package: PackageView,
    pub dependencies: Seq<(Seq<char>, DependencyView)>,
    pub edition: Seq<char>,
    pub workspace: bool,
    pub bin: Seq<ProductView>,
}

pub open spec fn view_opt_string(o: Option<String>) -> Option<Seq<char>> {
    match o {
        Some(s) => Some(s@),
        None => None,
    }
}

impl View for DependencyDetail {
    type V = DependencyDetailView;

    open spec fn view(&self) -> DependencyDetailView {
        DependencyDetailView {
            version: view_opt_string(self.version),
            features: self.features.deep_view(),
        }
    }
}

impl View for Dependency {
    type V = DependencyView;

    open spec fn view(&self) -> DependencyView {
        match self {
            Dependency::Simple(v) => DependencyView::Simple(v@),
            Dependency::Detailed(d) => DependencyView::Detailed(d@),
        }
    }
}

impl View for Product {
    type V = ProductView;

    open spec fn view(&self) -> ProductView {
        ProductView {
            path: view_opt_string(self.path),
            name: view_opt_string(self.name),
            required_features: match self.required_features {
                Some(fs) => Some(fs.deep_view()),
                None => None,
            },
        }
    }
}

impl View for Package {
    type V = PackageView;

    open spec fn view(&self) -> PackageView {
        PackageView { name: self.name@, version: self.version@ }
    }
}

/// The model of a dependency list.
pub open spec fn deps_view(deps: Seq<(String, Dependency)>) -> Seq<(Seq<char>, DependencyView)> {
    deps.map_values(|p: (String, Dependency)| (p.0@, p.1@))
}

/// The model of a binary-target list.
pub open spec fn bins_view(bins: Seq<Product>) -> Seq<ProductView> {
    bins.map_values(|b: Product| b@)
}

impl View for CargoManifest {
    type V = ManifestView;

    open spec fn view(&self) -> ManifestView {
        ManifestView {
            package: self.package@,
            dependencies: deps_view(self.dependencies@),
            edition: self.edition@,
            workspace: self.workspace,
            bin: bins_view(self.bin@),
        }
    }
}

/// A character that may stand inside a quoted string of the text form
/// without an escape: anything but the quote, the backslash and the line
/// separators.
pub open spec fn plain_char(c: char) -> bool {
    c != '"' && c != '\\' && c != '\n' && c != '\r'
}

/// A string that the text form can hold verbatim between quotes.
pub open spec fn plain_str(s: Seq<char>) -> bool {
    forall|i: int| 0 <= i < s.len() ==> plain_char(s[i])
}

/// A character allowed in a bare key of the text form.
pub open spec fn bare_key_char(c: char) -> bool {
    ('a' <= c && c <= 'z') || ('A' <= c && c <= 'Z') || ('0' <= c && c <= '9') || c == '-' || c
        == '_'
}

/// Executable mirror of [`bare_key_char`].
pub fn is_bare_key_char(c: char) -> (r: bool)
    ensures
        r == bare_key_char(c),
{
    ('a' <= c && c <= 'z') || ('A' <= c && c <= 'Z') || ('0' <= c && c <= '9') || c == '-' || c
        == '_'
}

/// A non-empty name written without quotes: dependency names and section
/// names.
pub open spec fn bare_key(s: Seq<char>) -> bool {
    s.len() > 0 && forall|i: int| 0 <= i < s.len() ==> bare_key_char(s[i])
}

/// Strict lexicographic order on character sequences, by code point.
pub open spec fn lex_lt(a: Seq<char>, b: Seq<char>) -> bool
    decreases a.len(),
{
    if b.len() == 0 {
        false
    } else if a.len() == 0 {
        true
    } else if a[0] < b[0] {
        true
    } else if b[0] < a[0] {
        false
    } else {
        lex_lt(a.skip(1), b.skip(1))
    }
}

/// Exactly one of `lex_lt(a, b)`, `a == b`, `lex_lt(b, a)` holds.
pub proof fn lemma_lex_lt_trichotomy(a: Seq<char>, b: Seq<char>)
    ensures
        lex_lt(a, b) || a == b || lex_lt(b, a),
        lex_lt(a, b) ==> a != b && !lex_lt(b, a),
        lex_lt(b, a) ==> a != b && !lex_lt(a, b),
    decreases a.len(),
{
    if a.len() == 0 || b.len() == 0 {
        if a.len() == 0 && b.len() == 0 {
            assert(a =~= b);
        }
    } else if a[0] == b[0] {
        lemma_lex_lt_trichotomy(a.skip(1), b.skip(1));
        if a.skip(1) == b.skip(1) {
            assert forall|i: int| 0 <= i < a.len() implies a[i] == b[i] by {
                if i > 0 {
                    assert(a.skip(1)[i - 1] == b.skip(1)[i - 1]);
                }
            }
            assert(a =~= b);
        }
        if a == b {
            assert(a.skip(1) =~= b.skip(1));
        }
    }
}

pub proof fn lemma_lex_lt_trans(a: Seq<char>, b: Seq<char>, c: Seq<char>)
    requires
        lex_lt(a, b),
        lex_lt(b, c),
    ensures
        lex_lt(a, c),
    decreases a.len(),
{
    if a.len() == 0 {
        assert(b.len() > 0);
        assert(c.len() > 0);
    } else {
        assert(b.len() > 0 && c.len() > 0);
        if a[0] == b[0] && b[0] == c[0] {
            lemma_lex_lt_trans(a.skip(1), b.skip(1), c.skip(1));
        }
    }
}

/// `lex_lt` looks only at the part after a common prefix.
pub proof fn lemma_lex_lt_skip(a: Seq<char>, b: Seq<char>, i: int)
    requires
        0 <= i <= a.len(),
        i <= b.len(),
        forall|j: int| 0 <= j < i ==> a[j] == b[j],
    ensures
        lex_lt(a, b) == lex_lt(a.skip(i), b.skip(i)),
    decreases i,
{
    if i == 0 {
        assert(a.skip(0) =~= a);
        assert(b.skip(0) =~= b);
    } else {
        assert(a[0] == b[0]);
        let a1 = a.skip(1);
        let b1 = b.skip(1);
        assert forall|j: int| 0 <= j < i - 1 implies a1[j] == b1[j] by {
            assert(a1[j] == a[j + 1]);
            assert(b1[j] == b[j + 1]);
        }
        lemma_lex_lt_skip(a1, b1, i - 1);
        assert(a1.skip(i - 1) =~= a.skip(i));
        assert(b1.skip(i - 1) =~= b.skip(i));
    }
}

/// Strict lexicographic comparison of two strings.
pub fn str_lex_lt(a: &str, b: &str) -> (r: bool)
    ensures
        r == lex_lt(a@, b@),
{
    let an = a.unicode_len();
    let bn = b.unicode_len();
    let mut i: usize = 0;
    while i < an && i < bn
        invariant
            an == a@.len(),
            bn == b@.len(),
            i <= an,
            i <= bn,
            forall|j: int| 0 <= j < i ==> a@[j] == b@[j],
        decreases an - i,
    {
        let ca = a.get_char(i);
        let cb = b.get_char(i);
        if ca != cb {
            proof {
                lemma_lex_lt_skip(a@, b@, i as int);
                assert(a@.skip(i as int)[0] == ca);
                assert(b@.skip(i as int)[0] == cb);
            }
            return ca < cb;
        }
        i = i + 1;
    }
    proof {
        lemma_lex_lt_skip(a@, b@, i as int);
    }
    an < bn
}

/// The dependency mapping is strictly sorted by name.
pub open spec fn deps_sorted(deps: Seq<(Seq<char>, DependencyView)>) -> bool {
    forall|i: int, j: int|
        0 <= i < j < deps.len() ==> lex_lt(#[trigger] deps[i].0, #[trigger] deps[j].0)
}

/// Inserts a dependency into the sorted mapping; `None` on a duplicate
/// name.
pub open spec fn spec_insert_dep(
    deps: Seq<(Seq<char>, DependencyView)>,
    k: Seq<char>,
    d: DependencyView,
) -> Option<Seq<(Seq<char>, DependencyView)>>
    decreases deps.len(),
{
    if deps.len() == 0 {
        Some(seq![(k, d)])
    } else if lex_lt(k, deps[0].0) {
        Some(seq![(k, d)] + deps)
    } else if k == deps[0].0 {
        None
    } else {
        match spec_insert_dep(deps.skip(1), k, d) {
            Some(t) => Some(seq![deps[0]] + t),
            None => None,
        }
    }
}

/// Where the insertion lands: given the position `p` of the first entry
/// not below `k`, insertion either reports the duplicate at `p` or splices
/// the new entry in at `p`.
pub proof fn lemma_insert_dep_at(
    deps: Seq<(Seq<char>, DependencyView)>,
    k: Seq<char>,
    d: DependencyView,
    p: int,
)
    requires
        0 <= p <= deps.len(),
        forall|i: int| 0 <= i < p ==> lex_lt(#[trigger] deps[i].0, k),
        p < deps.len() ==> !lex_lt(deps[p].0, k),
    ensures
        p < deps.len() && deps[p].0 == k ==> spec_insert_dep(deps, k, d) is None,
        !(p < deps.len() && deps[p].0 == k) ==> spec_insert_dep(deps, k, d) == Some(
            deps.take(p) + seq![(k, d)] + deps.skip(p),
        ),
    decreases deps.len(),
{
    if deps.len() == 0 {
        assert(deps.take(0) + seq![(k, d)] + deps.skip(0) =~= seq![(k, d)]);
    } else if p == 0 {
        lemma_lex_lt_trichotomy(k, deps[0].0);
        if deps[0].0 != k {
            assert(lex_lt(k, deps[0].0));
            assert(deps.take(0) + seq![(k, d)] + deps.skip(0) =~= seq![(k, d)] + deps);
        }
    } else {
        assert(lex_lt(deps[0].0, k));
        lemma_lex_lt_trichotomy(k, deps[0].0);
        let t = deps.skip(1);
        assert forall|i: int| 0 <= i < p - 1 implies lex_lt(#[trigger] t[i].0, k) by {
            assert(t[i] == deps[i + 1]);
        }
        assert(p - 1 < t.len() ==> t[p - 1] == deps[p]);
        lemma_insert_dep_at(t, k, d, p - 1);
        if p < deps.len() && deps[p].0 == k {
            assert(t[p - 1].0 == k);
        } else {
            assert(seq![deps[0]] + (t.take(p - 1) + seq![(k, d)] + t.skip(p - 1)) =~= deps.take(p)
                + seq![(k, d)] + deps.skip(p));
        }
    }
}

/// Insertion into a sorted mapping keeps it sorted, fails exactly on a
/// duplicate name, and adds nothing but the new entry.
pub proof fn lemma_insert_dep_preserves(
    deps: Seq<(Seq<char>, DependencyView)>,
    k: Seq<char>,
    d: DependencyView,
)
    requires
        deps_sorted(deps),
    ensures
        (spec_insert_dep(deps, k, d) is None) <==> (exists|i: int|
            0 <= i < deps.len() && #[trigger] deps[i].0 == k),
        spec_insert_dep(deps, k, d) matches Some(r) ==> deps_sorted(r) && r.len() == deps.len() + 1
            && (forall|i: int|
            0 <= i < r.len() ==> #[trigger] r[i] == (k, d) || deps.contains(r[i])),
    decreases deps.len(),
{
    if deps.len() == 0 {
    } else if lex_lt(k, deps[0].0) {
        let r = seq![(k, d)] + deps;
        lemma_lex_lt_trichotomy(k, deps[0].0);
        assert forall|i: int, j: int| 0 <= i < j < r.len() implies lex_lt(
            #[trigger] r[i].0,
            #[trigger] r[j].0,
        ) by {
            if i == 0 {
                if j > 1 {
                    assert(lex_lt(deps[0].0, deps[j - 1].0));
                    lemma_lex_lt_trans(k, deps[0].0, deps[j - 1].0);
                }
            } else {
                assert(r[i] == deps[i - 1]);
                assert(r[j] == deps[j - 1]);
            }
        }
        assert forall|i: int| 0 <= i < r.len() implies #[trigger] r[i] == (k, d) || deps.contains(
            r[i],
        ) by {
            if i > 0 {
                assert(r[i] == deps[i - 1]);
            }
        }
    } else if k == deps[0].0 {
    } else {
        lemma_lex_lt_trichotomy(k, deps[0].0);
        assert(lex_lt(deps[0].0, k));
        let t = deps.skip(1);
        assert forall|i: int, j: int| 0 <= i < j < t.len() implies lex_lt(
            #[trigger] t[i].0,
            #[trigger] t[j].0,
        ) by {
            assert(t[i] == deps[i + 1]);
            assert(t[j] == deps[j + 1]);
        }
        lemma_insert_dep_preserves(t, k, d);
        assert forall|i: int| 0 <= i < deps.len() && #[trigger] deps[i].0 == k implies i >= 1 by {}
        if exists|i: int| 0 <= i < deps.len() && #[trigger] deps[i].0 == k {
            let i = choose|i: int| 0 <= i < deps.len() && #[trigger] deps[i].0 == k;
            assert(t[i - 1].0 == k);
        }
        match spec_insert_dep(t, k, d) {
            Some(rt) => {
                let r = seq![deps[0]] + rt;
                assert forall|i: int, j: int| 0 <= i < j < r.len() implies lex_lt(
                    #[trigger] r[i].0,
                    #[trigger] r[j].0,
                ) by {
                    if i == 0 {
                        assert(rt[j - 1] == (k, d) || t.contains(rt[j - 1]));
                        if rt[j - 1] == (k, d) {
                        } else {
                            let w = choose|w: int| 0 <= w < t.len() && t[w] == rt[j - 1];
                            assert(deps[w + 1] == rt[j - 1]);
                        }
                    } else {
                        assert(r[i] == rt[i - 1]);
                        assert(r[j] == rt[j - 1]);
                    }
                }
                assert forall|i: int|
                    0 <= i < r.len() implies #[trigger] r[i] == (k, d) || deps.contains(r[i]) by {
                    if i == 0 {
                        assert(deps[0] == r[0]);
                        assert(deps.contains(deps[0]));
                    } else {
                        assert(r[i] == rt[i - 1]);
                        if rt[i - 1] == (k, d) {
                        } else {
                            let w = choose|w: int| 0 <= w < t.len() && t[w] == rt[i - 1];
                            assert(deps[w + 1] == rt[i - 1]);
                            assert(deps.contains(deps[w + 1]));
                        }
                    }
                }
            },
            None => {},
        }
    }
}

/// Finds the first position whose name is not below `name`.
fn lower_bound(deps: &Vec<(String, Dependency)>, name: &String) -> (p: usize)
    ensures
        p <= deps@.len(),
        forall|j: int| 0 <= j < p ==> lex_lt(#[trigger] deps_view(deps@)[j].0, name@),
        p < deps@.len() ==> !lex_lt(deps_view(deps@)[p as int].0, name@),
{
    let mut p: usize = 0;
    while p < deps.len()
        invariant
            p <= deps@.len(),
            forall|j: int| 0 <= j < p ==> lex_lt(#[trigger] deps_view(deps@)[j].0, name@),
        decreases deps@.len() - p,
    {
        if !str_lex_lt(deps[p].0.as_str(), name.as_str()) {
            return p;
        }
        p = p + 1;
    }
    p
}

/// Inserts a named dependency into the sorted mapping; returns `false` and
/// leaves the mapping unchanged when the name is already present.
pub fn insert_dep(deps: &mut Vec<(String, Dependency)>, name: String, dep: Dependency) -> (r: bool)
    ensures
        r == (spec_insert_dep(deps_view(old(deps)@), name@, dep@) is Some),
        r ==> Some(deps_view(final(deps)@)) == spec_insert_dep(
            deps_view(old(deps)@),
            name@,
            dep@,
        ),
        !r ==> final(deps)@ == old(deps)@,
{
    let ghost dv = deps_view(deps@);
    let p = lower_bound(deps, &name);
    proof {
        lemma_insert_dep_at(dv, name@, dep@, p as int);
    }
    if p < deps.len() && deps[p].0 == name {
        proof {
            assert(dv[p as int].0 == name@);
        }
        false
    } else {
        let ghost k = name@;
        let ghost d = dep@;
        deps.insert(p, (name, dep));
        proof {
            assert(deps_view(deps@) =~= dv.take(p as int) + seq![(k, d)] + dv.skip(p as int));
        }
        true
    }
}

/// Well-formedness of a detailed dependency for the text form.
pub open spec fn detail_valid(d: DependencyDetailView) -> bool {
    &&& match d.version {
        Some(v) => plain_str(v),
        None => true,
    }
    &&& forall|i: int| 0 <= i < d.features.len() ==> plain_str(#[trigger] d.features[i])
}

/// Well-formedness of one dependency entry.
pub open spec fn dep_valid(d: DependencyView) -> bool {
    match d {
        DependencyView::Simple(v) => plain_str(v),
        DependencyView::Detailed(dd) => detail_valid(dd),
    }
}

/// Well-formedness of a binary target.
pub open spec fn product_valid(p: ProductView) -> bool {
    &&& match p.path {
        Some(v) => plain_str(v),
        None => true,
    }
    &&& match p.name {
        Some(v) => plain_str(v),
        None => true,
    }
    &&& match p.required_features {
        Some(fs) => forall|i: int| 0 <= i < fs.len() ==> plain_str(#[trigger] fs[i]),
        None => true,
    }
}

/// Well-formedness of a whole descriptor: every string can stand between
/// quotes, dependency names are bare keys, and the mapping is strictly
/// sorted (hence names are unique).
pub open spec fn manifest_valid(m: ManifestView) -> bool {
    &&& plain_str(m.package.name)
    &&& plain_str(m.package.version)
    &&& plain_str(m.edition)
    &&& deps_sorted(m.dependencies)
    &&& forall|i: int|
        0 <= i < m.dependencies.len() ==> bare_key(#[trigger] m.dependencies[i].0) && dep_valid(
            m.dependencies[i].1,
        )
    &&& forall|i: int| 0 <= i < m.bin.len() ==> product_valid(#[trigger] m.bin[i])
}

impl CargoManifest {
    /// Parses descriptor text; fails with a `DescriptorParse` error when the
    /// text is not well-formed.
    pub fn from_str(s: &str) -> (r: Result<CargoManifest, BuildRunError>)
        ensures
            (r is Ok) == (crate::toml_fmt::spec_parse_manifest(s@) is Some),
            r matches Ok(m) ==> Some(m@) == crate::toml_fmt::spec_parse_manifest(s@),
            r matches Err(e) ==> e is DescriptorParse,
    {
        let v = str_to_chars(s);
        crate::toml_fmt::parse_manifest_chars(&v)
    }

    /// Renders the descriptor to its canonical text form.
    pub fn to_string(&self) -> (r: String)
        ensures
            r@ == crate::toml_fmt::spec_render_manifest(self@),
    {
        let lines = crate::toml_fmt::render_manifest_lines(self);
        let joined = join_lines(&lines);
        chars_to_string(&joined)
    }
}

/// The descriptor comment marker: `//!` at the start of the trimmed line.
pub open spec fn starts_marker(t: Seq<char>) -> bool {
    t.len() >= 3 && t[0] == '/' && t[1] == '/' && t[2] == '!'
}

/// Leading slashes removed.
pub open spec fn strip_slashes(s: Seq<char>) -> Seq<char>
    decreases s.len(),
{
    if s.len() > 0 && s[0] == '/' {
        strip_slashes(s.skip(1))
    } else {
        s
    }
}

/// Leading exclamation marks removed.
pub open spec fn strip_bangs(s: Seq<char>) -> Seq<char>
    decreases s.len(),
{
    if s.len() > 0 && s[0] == '!' {
        strip_bangs(s.skip(1))
    } else {
        s
    }
}

pub proof fn lemma_strip_leading_is(s: Seq<char>, c: char, k: int)
    requires
        0 <= k <= s.len(),
        forall|j: int| 0 <= j < k ==> s[j] == c,
        k < s.len() ==> s[k] != c,
    ensures
        c == '/' ==> strip_slashes(s) == s.skip(k),
        c == '!' ==> strip_bangs(s) == s.skip(k),
    decreases k,
{
    if k == 0 {
        assert(s.skip(0) =~= s);
    } else {
        let t = s.skip(1);
        assert forall|j: int| 0 <= j < k - 1 implies t[j] == c by {
            assert(t[j] == s[j + 1]);
        }
        assert(k - 1 < t.len() ==> t[k - 1] == s[k as int]);
        lemma_strip_leading_is(t, c, k - 1);
        assert(t.skip(k - 1) =~= s.skip(k));
    }
}

/// What one descriptor comment line contributes: the text after the
/// leading slashes and exclamation marks of the marker.
pub open spec fn spec_strip_marker(l: Seq<char>) -> Seq<char> {
    strip_bangs(strip_slashes(crate::text::spec_trim_start(l)))
}

/// The embedded descriptor fragment: every line whose trimmed content
/// starts with the marker, with the marker stripped, in original order.
pub open spec fn spec_descriptor_fragment(lines: Seq<Seq<char>>) -> Seq<Seq<char>>
    decreases lines.len(),
{
    if lines.len() == 0 {
        Seq::empty()
    } else {
        let rest = spec_descriptor_fragment(lines.skip(1));
        if starts_marker(crate::text::spec_trim_start(lines[0])) {
            seq![spec_strip_marker(lines[0])] + rest
        } else {
            rest
        }
    }
}

/// What extracting and parsing the embedded descriptor of a script yields.
pub open spec fn spec_extract_manifest(text: Seq<char>) -> Option<ManifestView> {
    crate::toml_fmt::spec_parse_manifest(
        crate::text::spec_join_lines(
            spec_descriptor_fragment(crate::text::spec_split_lines(text)),
        ),
    )
}

/// Strips the marker from one descriptor comment line.
fn strip_marker_exec(l: &Vec<char>) -> (r: Vec<char>)
    ensures
        r@ == spec_strip_marker(l@),
{
    let t = crate::text::trim_start_chars(l);
    let n = t.len();
    let mut k: usize = 0;
    while k < n && t[k] == '/'
        invariant
            k <= n,
            n == t@.len(),
            forall|j: int| 0 <= j < k ==> t@[j] == '/',
        decreases n - k,
    {
        k = k + 1;
    }
    proof {
        lemma_strip_leading_is(t@, '/', k as int);
    }
    let mut b: usize = k;
    while b < n && t[b] == '!'
        invariant
            k <= b <= n,
            n == t@.len(),
            forall|j: int| k <= j < b ==> t@[j] == '!',
        decreases n - b,
    {
        b = b + 1;
    }
    proof {
        let u = t@.skip(k as int);
        assert forall|j: int| 0 <= j < b - k implies u[j] == '!' by {
            assert(u[j] == t@[j + k]);
        }
        assert(b - k < u.len() ==> u[b - k] == t@[b as int]);
        lemma_strip_leading_is(u, '!', b - k);
        assert(u.skip(b - k) =~= t@.skip(b as int));
    }
    crate::toml_fmt::copy_range(&t, b, n)
}

/// Pulls the embedded descriptor out of a script's specially marked
/// comment lines and parses it; a script without descriptor lines yields
/// the default descriptor.
pub fn rs_extract_toml(rs_contents: &str) -> (r: Result<CargoManifest, BuildRunError>)
    ensures
        (r is Ok) == (spec_extract_manifest(rs_contents@) is Some),
        r matches Ok(m) ==> Some(m@) == spec_extract_manifest(rs_contents@),
        r matches Err(e) ==> e is DescriptorParse,
{
    let v = str_to_chars(rs_contents);
    let lines = crate::text::split_lines(&v);
    let mut fragment: Vec<Vec<char>> = Vec::new();
    let n = lines.len();
    let mut i: usize = 0;
    proof {
        assert(lines_view(lines@).skip(0) =~= lines_view(lines@));
        assert(lines_view(fragment@) =~= Seq::<Seq<char>>::empty());
    }
    while i < n
        invariant
            n == lines@.len(),
            i <= n,
            spec_descriptor_fragment(lines_view(lines@)) == lines_view(fragment@)
                + spec_descriptor_fragment(lines_view(lines@).skip(i as int)),
        decreases n - i,
    {
        let ghost frag0 = lines_view(fragment@);
        let t = crate::text::trim_start_chars(&lines[i]);
        proof {
            assert(lines_view(lines@).skip(i as int)[0] == lines@[i as int]@);
        }
        if t.len() >= 3 && t[0] == '/' && t[1] == '/' && t[2] == '!' {
            fragment.push(strip_marker_exec(&lines[i]));
            proof {
                assert(lines_view(fragment@) =~= frag0.push(spec_strip_marker(lines@[i as int]@)));
            }
        }
        i = i + 1;
        proof {
            let tail = lines_view(lines@).skip(i - 1);
            assert(tail.skip(1) =~= lines_view(lines@).skip(i as int));
            if starts_marker(crate::text::spec_trim_start(tail[0])) {
                assert(lines_view(fragment@) + spec_descriptor_fragment(tail.skip(1)) =~= frag0 + (
                seq![spec_strip_marker(tail[0])] + spec_descriptor_fragment(tail.skip(1))));
            }
        }
    }
    proof {
        assert(lines_view(lines@).skip(n as int).len() == 0);
        assert(lines_view(fragment@) + spec_descriptor_fragment(
            lines_view(lines@).skip(n as int),
        ) =~= lines_view(fragment@));
    }
    let text = crate::text::join_lines(&fragment);
    crate::toml_fmt::parse_manifest_chars(&text)
}

/// Default package metadata used when the embedded descriptor supplies no
/// package block.
pub fn default_package() -> (r: Package)
    ensures
        r@.name == "your_project_name"@,
        r@.version == "0.1.0"@,
{
    Package { name: String::from_str("your_project_name"), version: String::from_str("0.1.0") }
}

/// Default language edition.
pub fn default_edition() -> (r: String)
    ensures
        r@ == "2021"@,
{
    String::from_str("2021")
}

/// Default version for a freshly generated package.
pub fn default_package_version() -> (r: String)
    ensures
        r@ == "0.0.1"@,
{
    String::from_str("0.0.1")
}

impl Default for Package {
    /// The placeholder package block of a descriptor built from nothing.
    fn default() -> (r: Package)
        ensures
            r@.name == "your_script_name_stem"@,
            r@.version == "0.0.0"@,
    {
        Package {
            name: String::from_str("your_script_name_stem"),
            version: String::from_str("0.0.0"),
        }
    }
}

impl Default for Product {
    /// A binary target with nothing filled in.
    fn default() -> (r: Product)
        ensures
            r@.path is None,
            r@.name is None,
            r@.required_features is None,
    {
        Product { path: None, name: None, required_features: None }
    }
}

impl Default for CargoManifest {
    /// The descriptor a fresh invocation starts from before any merge.
    fn default() -> (r: CargoManifest)
        ensures
            r@.package.name == "your_script_name_stem"@,
            r@.package.version == "0.0.0"@,
            r@.dependencies.len() == 0,
            r@.edition == "2021"@,
            r@.workspace,
            r@.bin.len() == 1,
            r@.bin[0].path is None,
            r@.bin[0].name is None,
            r@.bin[0].required_features is None,
    {
        let bin_entry = Product { path: None, name: None, required_features: None };
        let r = CargoManifest {
            package: Package {
                name: String::from_str("your_script_name_stem"),
                version: String::from_str("0.0.0"),
            },
            dependencies: Vec::new(),
            edition: String::from_str("2021"),
            workspace: true,
            bin: vec![bin_entry],
        };
        proof {
            assert(r@.dependencies =~= Seq::<(Seq<char>, DependencyView)>::empty());
            assert(r@.bin[0].path is None);
        }
        r
    }
}

} // verus!
