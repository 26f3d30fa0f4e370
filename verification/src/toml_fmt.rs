//! The descriptor text format: a structured, line-oriented key/value form
//! with `[section]` headers, `[[bin]]` array headers, quoted strings,
//! string lists and inline dependency-detail tables. Rendering and parsing
//! are symmetric: parsing the canonical rendering of any well-formed
//! descriptor yields the descriptor back ([`lemma_manifest_round_trip`]).
//! Unknown sections and unknown keys are tolerated when parsing.

use crate::errors::BuildRunError;
use crate::text::chars_to_string;
use crate::text::is_ws;
use crate::text::split_lines;
use crate::text::str_to_chars;
use crate::text::is_ws_char;
use crate::text::line_ok;
use crate::text::lines_view;
use crate::text::spec_join_lines;
use crate::text::spec_split_lines;
use crate::text::spec_trim_end;
use crate::text::spec_trim_start;
use crate::text::trim_end_chars;
use crate::text::trim_start_chars;
use crate::toml_utils::bare_key;
use crate::toml_utils::bare_key_char;
use crate::toml_utils::bins_view;
use crate::toml_utils::default_edition;
use crate::toml_utils::default_package;
use crate::toml_utils::deps_view;
use crate::toml_utils::insert_dep;
use crate::toml_utils::is_bare_key_char;
use crate::toml_utils::lex_lt;
use crate::toml_utils::spec_insert_dep;
use crate::toml_utils::CargoManifest;
use crate::toml_utils::Dependency;
use crate::toml_utils::DependencyDetail;
use crate::toml_utils::DependencyDetailView;
use crate::toml_utils::DependencyView;
use crate::toml_utils::ManifestView;
use crate::toml_utils::PackageView;
use crate::toml_utils::Product;
use crate::toml_utils::ProductView;
use vstd::prelude::*;
use vstd::string::StringExecFns;

verus! {

// ---------------------------------------------------------------------
// Keywords of the text form, spelled out character by character so that
// proofs can compare them positionally.
// ---------------------------------------------------------------------
pub open spec fn kw_package() -> Seq<char> {
    seq!['p', 'a', 'c', 'k', 'a', 'g', 'e']
}

pub open spec fn kw_dependencies() -> Seq<char> {
    seq!['d', 'e', 'p', 'e', 'n', 'd', 'e', 'n', 'c', 'i', 'e', 's']
}

pub open spec fn kw_workspace() -> Seq<char> {
    seq!['w', 'o', 'r', 'k', 's', 'p', 'a', 'c', 'e']
}

pub open spec fn kw_bin() -> Seq<char> {
    seq!['b', 'i', 'n']
}

pub open spec fn kw_name() -> Seq<char> {
    seq!['n', 'a', 'm', 'e']
}

pub open spec fn kw_version() -> Seq<char> {
    seq!['v', 'e', 'r', 's', 'i', 'o', 'n']
}

pub open spec fn kw_edition() -> Seq<char> {
    seq!['e', 'd', 'i', 't', 'i', 'o', 'n']
}

pub open spec fn kw_path() -> Seq<char> {
    seq!['p', 'a', 't', 'h']
}

pub open spec fn kw_features() -> Seq<char> {
    seq!['f', 'e', 'a', 't', 'u', 'r', 'e', 's']
}

pub open spec fn kw_required_features() -> Seq<char> {
    seq!['r', 'e', 'q', 'u', 'i', 'r', 'e', 'd', '-', 'f', 'e', 'a', 't', 'u', 'r', 'e', 's']
}

// ---------------------------------------------------------------------
// Scanners: total functions that find the next occurrence of a character
// class, used by both the value grammar and its proofs.
// ---------------------------------------------------------------------
/// First index at or after `i` holding `c`, or `s.len()` if there is none.
pub open spec fn scan_to(s: Seq<char>, i: int, c: char) -> int
    decreases s.len() - i,
{
    if i < 0 || i >= s.len() {
        s.len() as int
    } else if s[i] == c {
        i
    } else {
        scan_to(s, i + 1, c)
    }
}

pub proof fn lemma_scan_to_bounds(s: Seq<char>, i: int, c: char)
    requires
        0 <= i <= s.len(),
    ensures
        i <= scan_to(s, i, c) <= s.len(),
        scan_to(s, i, c) < s.len() ==> s[scan_to(s, i, c)] == c,
        forall|j: int| i <= j < scan_to(s, i, c) ==> s[j] != c,
    decreases s.len() - i,
{
    if i < s.len() && s[i] != c {
        lemma_scan_to_bounds(s, i + 1, c);
    }
}

pub proof fn lemma_scan_to_is(s: Seq<char>, i: int, c: char, m: int)
    requires
        0 <= i <= m <= s.len(),
        forall|j: int| i <= j < m ==> s[j] != c,
        m < s.len() ==> s[m] == c,
    ensures
        scan_to(s, i, c) == m,
    decreases m - i,
{
    if i < m {
        lemma_scan_to_is(s, i + 1, c, m);
    }
}

/// First index at or after `i` holding a character that is not line-level
/// whitespace, or `s.len()`.
pub open spec fn ws_end(s: Seq<char>, i: int) -> int
    decreases s.len() - i,
{
    if i < 0 || i >= s.len() {
        s.len() as int
    } else if is_ws(s[i]) {
        ws_end(s, i + 1)
    } else {
        i
    }
}

pub proof fn lemma_ws_end_bounds(s: Seq<char>, i: int)
    requires
        0 <= i <= s.len(),
    ensures
        i <= ws_end(s, i) <= s.len(),
        ws_end(s, i) < s.len() ==> !is_ws(s[ws_end(s, i)]),
        forall|j: int| i <= j < ws_end(s, i) ==> is_ws(s[j]),
    decreases s.len() - i,
{
    if i < s.len() && is_ws(s[i]) {
        lemma_ws_end_bounds(s, i + 1);
    }
}

pub proof fn lemma_ws_end_is(s: Seq<char>, i: int, m: int)
    requires
        0 <= i <= m <= s.len(),
        forall|j: int| i <= j < m ==> is_ws(s[j]),
        m < s.len() ==> !is_ws(s[m]),
    ensures
        ws_end(s, i) == m,
    decreases m - i,
{
    if i < m {
        lemma_ws_end_is(s, i + 1, m);
    }
}

/// First index at or after `i` holding a character that cannot stand in a
/// bare key, or `s.len()`.
pub open spec fn key_end(s: Seq<char>, i: int) -> int
    decreases s.len() - i,
{
    if i < 0 || i >= s.len() {
        s.len() as int
    } else if bare_key_char(s[i]) {
        key_end(s, i + 1)
    } else {
        i
    }
}

pub proof fn lemma_key_end_bounds(s: Seq<char>, i: int)
    requires
        0 <= i <= s.len(),
    ensures
        i <= key_end(s, i) <= s.len(),
        key_end(s, i) < s.len() ==> !bare_key_char(s[key_end(s, i)]),
        forall|j: int| i <= j < key_end(s, i) ==> bare_key_char(s[j]),
    decreases s.len() - i,
{
    if i < s.len() && bare_key_char(s[i]) {
        lemma_key_end_bounds(s, i + 1);
    }
}

pub proof fn lemma_key_end_is(s: Seq<char>, i: int, m: int)
    requires
        0 <= i <= m <= s.len(),
        forall|j: int| i <= j < m ==> bare_key_char(s[j]),
        m < s.len() ==> !bare_key_char(s[m]),
    ensures
        key_end(s, i) == m,
    decreases m - i,
{
    if i < m {
        lemma_key_end_is(s, i + 1, m);
    }
}

// ---------------------------------------------------------------------
// The value grammar.
// ---------------------------------------------------------------------
/// A quoted string starting at `i`: the content between the quote at `i`
/// and the next quote, and the index just after the closing quote.
pub open spec fn parse_qstr_at(s: Seq<char>, i: int) -> Option<(Seq<char>, int)> {
    if 0 <= i < s.len() && s[i] == '"' {
        let e = scan_to(s, i + 1, '"');
        if e < s.len() {
            Some((s.subrange(i + 1, e), e + 1))
        } else {
            None
        }
    } else {
        None
    }
}

pub proof fn lemma_parse_qstr_at_bounds(s: Seq<char>, i: int)
    ensures
        parse_qstr_at(s, i) matches Some(r) ==> i + 2 <= r.1 <= s.len(),
{
    if 0 <= i < s.len() && s[i] == '"' {
        lemma_scan_to_bounds(s, i + 1, '"');
    }
}

/// Elements of a string list, after the opening bracket: whitespace,
/// quoted strings, commas, and the closing bracket.
pub open spec fn parse_elems(s: Seq<char>, i: int, acc: Seq<Seq<char>>) -> Option<
    (Seq<Seq<char>>, int),
>
    decreases s.len() - i,
    via parse_elems_dec
{
    if i < 0 || i >= s.len() {
        None
    } else if is_ws(s[i]) {
        parse_elems(s, i + 1, acc)
    } else if s[i] == ']' {
        Some((acc, i + 1))
    } else {
        match parse_qstr_at(s, i) {
            Some(r) => parse_elems_sep(s, r.1, acc.push(r.0)),
            None => None,
        }
    }
}

#[via_fn]
proof fn parse_elems_dec(s: Seq<char>, i: int, acc: Seq<Seq<char>>) {
    if 0 <= i < s.len() {
        lemma_parse_qstr_at_bounds(s, i);
    }
}

/// Between elements of a string list: whitespace, then a comma or the
/// closing bracket.
pub open spec fn parse_elems_sep(s: Seq<char>, i: int, acc: Seq<Seq<char>>) -> Option<
    (Seq<Seq<char>>, int),
>
    decreases s.len() - i,
{
    if i < 0 || i >= s.len() {
        None
    } else if is_ws(s[i]) {
        parse_elems_sep(s, i + 1, acc)
    } else if s[i] == ']' {
        Some((acc, i + 1))
    } else if s[i] == ',' {
        parse_elems(s, i + 1, acc)
    } else {
        None
    }
}

pub proof fn lemma_parse_elems_bounds(s: Seq<char>, i: int, acc: Seq<Seq<char>>)
    ensures
        parse_elems(s, i, acc) matches Some(r) ==> i < r.1 <= s.len(),
        parse_elems_sep(s, i, acc) matches Some(r) ==> i < r.1 <= s.len(),
    decreases s.len() - i,
{
    if 0 <= i < s.len() {
        if is_ws(s[i]) {
            lemma_parse_elems_bounds(s, i + 1, acc);
        } else {
            lemma_parse_qstr_at_bounds(s, i);
            match parse_qstr_at(s, i) {
                Some(q) => lemma_parse_elems_bounds(s, q.1, acc.push(q.0)),
                None => {},
            }
            lemma_parse_elems_bounds(s, i + 1, acc);
        }
    }
}

/// The empty dependency detail that pair parsing starts from.
pub open spec fn empty_detail() -> DependencyDetailView {
    DependencyDetailView { version: None, features: Seq::empty() }
}

/// Pairs of an inline dependency-detail table, after the opening brace:
/// `version = "..."` and `features = [...]` entries in either order.
pub open spec fn parse_pairs(s: Seq<char>, i: int, acc: DependencyDetailView) -> Option<
    (DependencyDetailView, int),
>
    decreases s.len() - i,
    via parse_pairs_dec
{
    if i < 0 || i >= s.len() {
        None
    } else if is_ws(s[i]) {
        parse_pairs(s, i + 1, acc)
    } else if s[i] == '}' {
        Some((acc, i + 1))
    } else if bare_key_char(s[i]) {
        let k = key_end(s, i);
        let key = s.subrange(i, k);
        let a = ws_end(s, k);
        if a < s.len() && s[a] == '=' {
            let b = ws_end(s, a + 1);
            if key == kw_version() {
                match parse_qstr_at(s, b) {
                    Some(r) => parse_pairs_sep(
                        s,
                        r.1,
                        DependencyDetailView { version: Some(r.0), features: acc.features },
                    ),
                    None => None,
                }
            } else if key == kw_features() {
                if b < s.len() && s[b] == '[' {
                    match parse_elems(s, b + 1, Seq::empty()) {
                        Some(r) => parse_pairs_sep(
                            s,
                            r.1,
                            DependencyDetailView { version: acc.version, features: r.0 },
                        ),
                        None => None,
                    }
                } else {
                    None
                }
            } else {
                None
            }
        } else {
            None
        }
    } else {
        None
    }
}

#[via_fn]
proof fn parse_pairs_dec(s: Seq<char>, i: int, acc: DependencyDetailView) {
    if 0 <= i < s.len() && !is_ws(s[i]) && s[i] != '}' && bare_key_char(s[i]) {
        lemma_key_end_bounds(s, i);
        let k = key_end(s, i);
        lemma_ws_end_bounds(s, k);
        let a = ws_end(s, k);
        if a < s.len() && s[a] == '=' {
            lemma_ws_end_bounds(s, a + 1);
            let b = ws_end(s, a + 1);
            lemma_parse_qstr_at_bounds(s, b);
            if b < s.len() && s[b] == '[' {
                lemma_parse_elems_bounds(s, b + 1, Seq::empty());
            }
        }
    }
}

/// Between pairs of an inline table: whitespace, then a comma or the
/// closing brace.
pub open spec fn parse_pairs_sep(s: Seq<char>, i: int, acc: DependencyDetailView) -> Option<
    (DependencyDetailView, int),
>
    decreases s.len() - i,
{
    if i < 0 || i >= s.len() {
        None
    } else if is_ws(s[i]) {
        parse_pairs_sep(s, i + 1, acc)
    } else if s[i] == '}' {
        Some((acc, i + 1))
    } else if s[i] == ',' {
        parse_pairs(s, i + 1, acc)
    } else {
        None
    }
}

/// A parsed value: a quoted string, a list of quoted strings, or an inline
/// dependency-detail table.
pub enum ValueView {
    VStr(Seq<char>),
    VList(Seq<Seq<char>>),
    VDetail(DependencyDetailView),
}

/// Parses a whole (already trimmed) value; the value must span the entire
/// text handed in.
pub open spec fn parse_value(v: Seq<char>) -> Option<ValueView> {
    if v.len() == 0 {
        None
    } else if v[0] == '"' {
        if v.len() >= 2 && scan_to(v, 1, '"') == v.len() - 1 {
            Some(ValueView::VStr(v.subrange(1, v.len() - 1)))
        } else {
            None
        }
    } else if v[0] == '[' {
        match parse_elems(v, 1, Seq::empty()) {
            Some(r) => if r.1 == v.len() {
                Some(ValueView::VList(r.0))
            } else {
                None
            },
            None => None,
        }
    } else if v[0] == '{' {
        match parse_pairs(v, 1, empty_detail()) {
            Some(r) => if r.1 == v.len() {
                Some(ValueView::VDetail(r.0))
            } else {
                None
            },
            None => None,
        }
    } else {
        None
    }
}

// ---------------------------------------------------------------------
// Line classification.
// ---------------------------------------------------------------------
/// What one line of the text form means.
pub enum LineView {
    Blank,
    Table(Seq<char>),
    ArrayTable(Seq<char>),
    KeyVal(Seq<char>, ValueView),
    Bad,
}

pub open spec fn classify_line(l: Seq<char>) -> LineView {
    let t = spec_trim_end(spec_trim_start(l));
    if t.len() == 0 {
        LineView::Blank
    } else if t.len() >= 4 && t[0] == '[' && t[1] == '[' && t[t.len() - 2] == ']' && t[t.len()
        - 1] == ']' {
        LineView::ArrayTable(t.subrange(2, t.len() - 2))
    } else if t.len() >= 2 && t[0] == '[' && t[t.len() - 1] == ']' {
        LineView::Table(t.subrange(1, t.len() - 1))
    } else if t[0] == '[' {
        LineView::Bad
    } else {
        let e = scan_to(t, 0, '=');
        if e < t.len() {
            let key = spec_trim_end(t.take(e));
            let val = spec_trim_start(t.skip(e + 1));
            if bare_key(key) {
                match parse_value(val) {
                    Some(v) => LineView::KeyVal(key, v),
                    None => LineView::Bad,
                }
            } else {
                LineView::Bad
            }
        } else {
            LineView::Bad
        }
    }
}

// ---------------------------------------------------------------------
// The descriptor state machine over classified lines.
// ---------------------------------------------------------------------
/// Which section the parser currently stands in.
#[derive(Clone, Copy, Debug)]
pub enum Section {
    Top,
    Package,
    Dependencies,
    Workspace,
    Bin,
    Other,
}

/// Parser state: the descriptor assembled so far and the current section.
pub struct ParseState {
    pub m: ManifestView,
    pub sec: Section,
}

/// A binary target with nothing filled in.
pub open spec fn empty_product() -> ProductView {
    ProductView { path: None, name: None, required_features: None }
}

/// The descriptor that parsing starts from: default package metadata,
/// no dependencies, the default edition, no workspace marker, no targets.
pub open spec fn init_manifest_view() -> ManifestView {
    ManifestView {
        package: PackageView { name: "your_project_name"@, version: "0.1.0"@ },
        dependencies: Seq::empty(),
        edition: "2021"@,
        workspace: false,
        bin: Seq::empty(),
    }
}

/// One key/value line applied to the state, according to the section.
/// Unknown keys are tolerated; known keys with a value of the wrong shape
/// are rejected.
pub open spec fn apply_key(st: ParseState, k: Seq<char>, v: ValueView) -> Option<ParseState> {
    match st.sec {
        Section::Top => {
            if k == kw_edition() {
                match v {
                    ValueView::VStr(s) => Some(
                        ParseState {
                            m: ManifestView { edition: s, ..st.m },
                            sec: Section::Top,
                        },
                    ),
                    _ => None,
                }
            } else {
                Some(st)
            }
        },
        Section::Package => {
            if k == kw_name() {
                match v {
                    ValueView::VStr(s) => Some(
                        ParseState {
                            m: ManifestView {
                                package: PackageView { name: s, ..st.m.package },
                                ..st.m
                            },
                            sec: Section::Package,
                        },
                    ),
                    _ => None,
                }
            } else if k == kw_version() {
                match v {
                    ValueView::VStr(s) => Some(
                        ParseState {
                            m: ManifestView {
                                package: PackageView { version: s, ..st.m.package },
                                ..st.m
                            },
                            sec: Section::Package,
                        },
                    ),
                    _ => None,
                }
            } else {
                Some(st)
            }
        },
        Section::Dependencies => {
            let dep = match v {
                ValueView::VStr(s) => Some(DependencyView::Simple(s)),
                ValueView::VDetail(dd) => Some(DependencyView::Detailed(dd)),
                ValueView::VList(_) => None,
            };
            match dep {
                Some(d) => match spec_insert_dep(st.m.dependencies, k, d) {
                    Some(deps) => Some(
                        ParseState {
                            m: ManifestView { dependencies: deps, ..st.m },
                            sec: Section::Dependencies,
                        },
                    ),
                    None => None,
                },
                None => None,
            }
        },
        Section::Workspace => Some(st),
        Section::Bin => {
            if st.m.bin.len() == 0 {
                None
            } else {
                let last = st.m.bin[st.m.bin.len() - 1];
                if k == kw_path() {
                    match v {
                        ValueView::VStr(s) => Some(
                            ParseState {
                                m: ManifestView {
                                    bin: st.m.bin.update(
                                        st.m.bin.len() - 1,
                                        ProductView { path: Some(s), ..last },
                                    ),
                                    ..st.m
                                },
                                sec: Section::Bin,
                            },
                        ),
                        _ => None,
                    }
                } else if k == kw_name() {
                    match v {
                        ValueView::VStr(s) => Some(
                            ParseState {
                                m: ManifestView {
                                    bin: st.m.bin.update(
                                        st.m.bin.len() - 1,
                                        ProductView { name: Some(s), ..last },
                                    ),
                                    ..st.m
                                },
                                sec: Section::Bin,
                            },
                        ),
                        _ => None,
                    }
                } else if k == kw_required_features() {
                    match v {
                        ValueView::VList(xs) => Some(
                            ParseState {
                                m: ManifestView {
                                    bin: st.m.bin.update(
                                        st.m.bin.len() - 1,
                                        ProductView { required_features: Some(xs), ..last },
                                    ),
                                    ..st.m
                                },
                                sec: Section::Bin,
                            },
                        ),
                        _ => None,
                    }
                } else {
                    Some(st)
                }
            }
        },
        Section::Other => Some(st),
    }
}

/// One line applied to the state.
pub open spec fn apply_line(st: ParseState, l: Seq<char>) -> Option<ParseState> {
    match classify_line(l) {
        LineView::Blank => Some(st),
        LineView::Table(name) => {
            if name == kw_package() {
                Some(ParseState { m: st.m, sec: Section::Package })
            } else if name == kw_dependencies() {
                Some(ParseState { m: st.m, sec: Section::Dependencies })
            } else if name == kw_workspace() {
                Some(
                    ParseState {
                        m: ManifestView { workspace: true, ..st.m },
                        sec: Section::Workspace,
                    },
                )
            } else {
                Some(ParseState { m: st.m, sec: Section::Other })
            }
        },
        LineView::ArrayTable(name) => {
            if name == kw_bin() {
                Some(
                    ParseState {
                        m: ManifestView { bin: st.m.bin.push(empty_product()), ..st.m },
                        sec: Section::Bin,
                    },
                )
            } else {
                Some(ParseState { m: st.m, sec: Section::Other })
            }
        },
        LineView::KeyVal(k, v) => apply_key(st, k, v),
        LineView::Bad => None,
    }
}

/// Runs the state machine over a sequence of lines.
pub open spec fn run_lines(ls: Seq<Seq<char>>, st: ParseState) -> Option<ParseState>
    decreases ls.len(),
{
    if ls.len() == 0 {
        Some(st)
    } else {
        match apply_line(st, ls[0]) {
            Some(st2) => run_lines(ls.skip(1), st2),
            None => None,
        }
    }
}

/// What parsing descriptor text yields.
pub open spec fn spec_parse_manifest(text: Seq<char>) -> Option<ManifestView> {
    match run_lines(
        spec_split_lines(text),
        ParseState { m: init_manifest_view(), sec: Section::Top },
    ) {
        Some(st) => Some(st.m),
        None => None,
    }
}

// ---------------------------------------------------------------------
// Canonical rendering.
// ---------------------------------------------------------------------
pub open spec fn render_qstr(s: Seq<char>) -> Seq<char> {
    seq!['"'] + s + seq!['"']
}

pub open spec fn render_strlist_inner(xs: Seq<Seq<char>>) -> Seq<char>
    decreases xs.len(),
{
    if xs.len() == 0 {
        Seq::empty()
    } else if xs.len() == 1 {
        render_qstr(xs[0])
    } else {
        render_qstr(xs[0]) + seq![',', ' '] + render_strlist_inner(xs.skip(1))
    }
}

pub open spec fn render_strlist(xs: Seq<Seq<char>>) -> Seq<char> {
    seq!['['] + render_strlist_inner(xs) + seq![']']
}

pub open spec fn render_detail(dd: DependencyDetailView) -> Seq<char> {
    match dd.version {
        Some(v) => if dd.features.len() > 0 {
            seq!['{', ' '] + kw_version() + seq![' ', '=', ' '] + render_qstr(v) + seq![',', ' ']
                + kw_features() + seq![' ', '=', ' '] + render_strlist(dd.features) + seq![' ', '}']
        } else {
            seq!['{', ' '] + kw_version() + seq![' ', '=', ' '] + render_qstr(v) + seq![' ', '}']
        },
        None => if dd.features.len() > 0 {
            seq!['{', ' '] + kw_features() + seq![' ', '=', ' '] + render_strlist(dd.features)
                + seq![' ', '}']
        } else {
            seq!['{', ' ', '}']
        },
    }
}

pub open spec fn render_dep(d: DependencyView) -> Seq<char> {
    match d {
        DependencyView::Simple(v) => render_qstr(v),
        DependencyView::Detailed(dd) => render_detail(dd),
    }
}

pub open spec fn render_kv(k: Seq<char>, v: Seq<char>) -> Seq<char> {
    k + seq![' ', '=', ' '] + v
}

pub open spec fn render_table_header(name: Seq<char>) -> Seq<char> {
    seq!['['] + name + seq![']']
}

pub open spec fn render_array_header(name: Seq<char>) -> Seq<char> {
    seq!['[', '['] + name + seq![']', ']']
}

pub open spec fn render_dep_lines(deps: Seq<(Seq<char>, DependencyView)>) -> Seq<Seq<char>>
    decreases deps.len(),
{
    if deps.len() == 0 {
        Seq::empty()
    } else {
        seq![render_kv(deps[0].0, render_dep(deps[0].1))] + render_dep_lines(deps.skip(1))
    }
}

pub open spec fn render_product_lines(p: ProductView) -> Seq<Seq<char>> {
    seq![render_array_header(kw_bin())] + (match p.path {
        Some(v) => seq![render_kv(kw_path(), render_qstr(v))],
        None => Seq::empty(),
    }) + (match p.name {
        Some(v) => seq![render_kv(kw_name(), render_qstr(v))],
        None => Seq::empty(),
    }) + (match p.required_features {
        Some(xs) => seq![render_kv(kw_required_features(), render_strlist(xs))],
        None => Seq::empty(),
    })
}

pub open spec fn render_bin_lines(bins: Seq<ProductView>) -> Seq<Seq<char>>
    decreases bins.len(),
{
    if bins.len() == 0 {
        Seq::empty()
    } else {
        render_product_lines(bins[0]) + render_bin_lines(bins.skip(1))
    }
}

/// The canonical rendering, line by line.
pub open spec fn spec_render_lines(m: ManifestView) -> Seq<Seq<char>> {
    seq![render_kv(kw_edition(), render_qstr(m.edition))] + seq![
        render_table_header(kw_package()),
    ] + seq![render_kv(kw_name(), render_qstr(m.package.name))] + seq![
        render_kv(kw_version(), render_qstr(m.package.version)),
    ] + seq![render_table_header(kw_dependencies())] + render_dep_lines(m.dependencies) + (
    if m.workspace {
        seq![render_table_header(kw_workspace())]
    } else {
        Seq::empty()
    }) + render_bin_lines(m.bin)
}

/// The canonical rendering as one text.
pub open spec fn spec_render_manifest(m: ManifestView) -> Seq<char> {
    spec_join_lines(spec_render_lines(m))
}

// ---------------------------------------------------------------------
// Executable parsing, mirroring the grammar above.
// ---------------------------------------------------------------------
/// Copies `s[a..b]` into a fresh vector.
pub fn copy_range(s: &Vec<char>, a: usize, b: usize) -> (r: Vec<char>)
    requires
        a <= b <= s@.len(),
    ensures
        r@ == s@.subrange(a as int, b as int),
{
    let mut r: Vec<char> = Vec::new();
    let mut i: usize = a;
    while i < b
        invariant
            a <= i <= b <= s@.len(),
            r@ == s@.subrange(a as int, i as int),
        decreases b - i,
    {
        r.push(s[i]);
        i = i + 1;
        proof {
            assert(r@ =~= s@.subrange(a as int, i as int));
        }
    }
    r
}

/// Finds the next occurrence of `c` at or after `i`.
pub fn scan_char(s: &Vec<char>, i: usize, c: char) -> (r: usize)
    requires
        i <= s@.len(),
    ensures
        r as int == scan_to(s@, i as int, c),
        i <= r <= s@.len(),
        r < s@.len() ==> s@[r as int] == c,
        forall|j: int| i <= j < r ==> s@[j] != c,
{
    let n = s.len();
    let mut j: usize = i;
    while j < n && s[j] != c
        invariant
            i <= j <= n,
            n == s@.len(),
            forall|k: int| i <= k < j ==> s@[k] != c,
        decreases n - j,
    {
        j = j + 1;
    }
    proof {
        lemma_scan_to_is(s@, i as int, c, j as int);
    }
    j
}

/// Parses a quoted string starting at `i`.
fn qstr_at(s: &Vec<char>, i: usize) -> (r: Option<(Vec<char>, usize)>)
    requires
        i <= s@.len(),
    ensures
        (r is Some) == (parse_qstr_at(s@, i as int) is Some),
        r matches Some(p) ==> parse_qstr_at(s@, i as int) == Some((p.0@, p.1 as int)) && i < p.1
            <= s@.len(),
{
    if i < s.len() && s[i] == '"' {
        let e = scan_char(s, i + 1, '"');
        if e < s.len() {
            let content = copy_range(s, i + 1, e);
            Some((content, e + 1))
        } else {
            None
        }
    } else {
        None
    }
}

/// Parses the elements of a string list, after the opening bracket.
fn elems_at(s: &Vec<char>, i: usize, acc: Vec<Vec<char>>) -> (r: Option<(Vec<Vec<char>>, usize)>)
    requires
        i <= s@.len(),
    ensures
        (r is Some) == (parse_elems(s@, i as int, lines_view(acc@)) is Some),
        r matches Some(p) ==> parse_elems(s@, i as int, lines_view(acc@)) == Some(
            (lines_view(p.0@), p.1 as int),
        ) && i < p.1 <= s@.len(),
    decreases s@.len() - i,
{
    if i >= s.len() {
        None
    } else if is_ws_char(s[i]) {
        elems_at(s, i + 1, acc)
    } else if s[i] == ']' {
        Some((acc, i + 1))
    } else {
        match qstr_at(s, i) {
            Some((v, j)) => {
                let mut acc2 = acc;
                let ghost acc_view = lines_view(acc2@);
                acc2.push(v);
                proof {
                    assert(lines_view(acc2@) =~= acc_view.push(v@));
                }
                elems_sep_at(s, j, acc2)
            },
            None => None,
        }
    }
}

/// Parses between elements of a string list.
fn elems_sep_at(s: &Vec<char>, i: usize, acc: Vec<Vec<char>>) -> (r: Option<
    (Vec<Vec<char>>, usize),
>)
    requires
        i <= s@.len(),
    ensures
        (r is Some) == (parse_elems_sep(s@, i as int, lines_view(acc@)) is Some),
        r matches Some(p) ==> parse_elems_sep(s@, i as int, lines_view(acc@)) == Some(
            (lines_view(p.0@), p.1 as int),
        ) && i < p.1 <= s@.len(),
    decreases s@.len() - i,
{
    if i >= s.len() {
        None
    } else if is_ws_char(s[i]) {
        elems_sep_at(s, i + 1, acc)
    } else if s[i] == ']' {
        Some((acc, i + 1))
    } else if s[i] == ',' {
        elems_at(s, i + 1, acc)
    } else {
        None
    }
}

/// Turns character vectors into strings, keeping the sequence of views.
fn to_strings(v: Vec<Vec<char>>) -> (r: Vec<String>)
    ensures
        r.deep_view() == lines_view(v@),
{
    let mut r: Vec<String> = Vec::new();
    let mut i: usize = 0;
    while i < v.len()
        invariant
            i <= v@.len(),
            r.deep_view() == lines_view(v@.take(i as int)),
        decreases v@.len() - i,
    {
        let ghost rprev = r@;
        let ghost dprev = r.deep_view();
        let entry = chars_to_string(&v[i]);
        r.push(entry);
        i = i + 1;
        proof {
            assert(dprev.len() == rprev.len());
            assert(rprev.len() == i - 1);
            assert(r@.len() == i);
            assert forall|j: int|
                0 <= j < i implies r.deep_view()[j] == lines_view(v@.take(i as int))[j] by {
                assert(r.deep_view()[j] == r@[j]@);
                assert(lines_view(v@.take(i as int))[j] == v@.take(i as int)[j]@);
                assert(v@.take(i as int)[j] == v@[j]);
                if j < i - 1 {
                    assert(r@[j] == rprev[j]);
                    assert(dprev[j] == rprev[j]@);
                    assert(dprev[j] == lines_view(v@.take(i - 1))[j]);
                    assert(lines_view(v@.take(i - 1))[j] == v@.take(i - 1)[j]@);
                    assert(v@.take(i - 1)[j] == v@[j]);
                }
            }
            assert(r.deep_view() =~= lines_view(v@.take(i as int)));
        }
    }
    proof {
        assert(v@.take(v@.len() as int) =~= v@);
    }
    r
}

/// Checks whether two keys are the same.
fn keys_equal(a: &Vec<char>, b: &Vec<char>) -> (r: bool)
    ensures
        r == (a@ == b@),
{
    if a.len() != b.len() {
        return false;
    }
    let mut i: usize = 0;
    while i < a.len()
        invariant
            a@.len() == b@.len(),
            i <= a@.len(),
            forall|j: int| 0 <= j < i ==> a@[j] == b@[j],
        decreases a@.len() - i,
    {
        if a[i] != b[i] {
            return false;
        }
        i = i + 1;
    }
    proof {
        assert(a@ =~= b@);
    }
    true
}

/// Parses the pairs of an inline dependency-detail table, after the
/// opening brace.
fn pairs_at(s: &Vec<char>, i: usize, acc: DependencyDetail) -> (r: Option<(DependencyDetail, usize)>)
    requires
        i <= s@.len(),
    ensures
        (r is Some) == (parse_pairs(s@, i as int, acc@) is Some),
        r matches Some(p) ==> parse_pairs(s@, i as int, acc@) == Some((p.0@, p.1 as int)) && i
            < p.1 <= s@.len(),
    decreases s@.len() - i,
{
    if i >= s.len() {
        None
    } else if is_ws_char(s[i]) {
        pairs_at(s, i + 1, acc)
    } else if s[i] == '}' {
        Some((acc, i + 1))
    } else if is_bare_key_char(s[i]) {
        let k = key_end_exec(s, i);
        let key = copy_range(s, i, k);
        let a = ws_end_exec(s, k);
        if a < s.len() && s[a] == '=' {
            let b = ws_end_exec(s, a + 1);
            let kw_v = kw_version_chars();
            let kw_f = kw_features_chars();
            if keys_equal(&key, &kw_v) {
                match qstr_at(s, b) {
                    Some((v, j)) => {
                        let acc2 = DependencyDetail {
                            version: Some(chars_to_string(&v)),
                            features: acc.features,
                        };
                        pairs_sep_at(s, j, acc2)
                    },
                    None => None,
                }
            } else if keys_equal(&key, &kw_f) {
                if b < s.len() && s[b] == '[' {
                    let fs0: Vec<Vec<char>> = Vec::new();
                    proof {
                        assert(lines_view(fs0@) =~= Seq::<Seq<char>>::empty());
                    }
                    match elems_at(s, b + 1, fs0) {
                        Some((fs, j)) => {
                            let acc2 = DependencyDetail {
                                version: acc.version,
                                features: to_strings(fs),
                            };
                            pairs_sep_at(s, j, acc2)
                        },
                        None => None,
                    }
                } else {
                    None
                }
            } else {
                None
            }
        } else {
            None
        }
    } else {
        None
    }
}

/// Parses between pairs of an inline table.
fn pairs_sep_at(s: &Vec<char>, i: usize, acc: DependencyDetail) -> (r: Option<
    (DependencyDetail, usize),
>)
    requires
        i <= s@.len(),
    ensures
        (r is Some) == (parse_pairs_sep(s@, i as int, acc@) is Some),
        r matches Some(p) ==> parse_pairs_sep(s@, i as int, acc@) == Some((p.0@, p.1 as int)) && i
            < p.1 <= s@.len(),
    decreases s@.len() - i,
{
    if i >= s.len() {
        None
    } else if is_ws_char(s[i]) {
        pairs_sep_at(s, i + 1, acc)
    } else if s[i] == '}' {
        Some((acc, i + 1))
    } else if s[i] == ',' {
        pairs_at(s, i + 1, acc)
    } else {
        None
    }
}

/// Finds the end of line-level whitespace at or after `i`.
pub fn ws_end_exec(s: &Vec<char>, i: usize) -> (r: usize)
    requires
        i <= s@.len(),
    ensures
        r as int == ws_end(s@, i as int),
        i <= r <= s@.len(),
{
    let n = s.len();
    let mut j: usize = i;
    while j < n && is_ws_char(s[j])
        invariant
            i <= j <= n,
            n == s@.len(),
            forall|k: int| i <= k < j ==> is_ws(s@[k]),
        decreases n - j,
    {
        j = j + 1;
    }
    proof {
        lemma_ws_end_is(s@, i as int, j as int);
    }
    j
}

/// Finds the end of a bare key at or after `i`.
fn key_end_exec(s: &Vec<char>, i: usize) -> (r: usize)
    requires
        i <= s@.len(),
    ensures
        r as int == key_end(s@, i as int),
        i <= r <= s@.len(),
{
    let n = s.len();
    let mut j: usize = i;
    while j < n && is_bare_key_char(s[j])
        invariant
            i <= j <= n,
            n == s@.len(),
            forall|k: int| i <= k < j ==> bare_key_char(s@[k]),
        decreases n - j,
    {
        j = j + 1;
    }
    proof {
        lemma_key_end_is(s@, i as int, j as int);
    }
    j
}

/// An executable parsed value, mirroring [`ValueView`].
pub enum Value {
    VStr(Vec<char>),
    VList(Vec<Vec<char>>),
    VDetail(DependencyDetail),
}

impl View for Value {
    type V = ValueView;

    open spec fn view(&self) -> ValueView {
        match self {
            Value::VStr(v) => ValueView::VStr(v@),
            Value::VList(xs) => ValueView::VList(lines_view(xs@)),
            Value::VDetail(dd) => ValueView::VDetail(dd@),
        }
    }
}

/// An executable classified line, mirroring [`LineView`].
pub enum LineKind {
    Blank,
    Table(Vec<char>),
    ArrayTable(Vec<char>),
    KeyVal(Vec<char>, Value),
    Bad,
}

impl View for LineKind {
    type V = LineView;

    open spec fn view(&self) -> LineView {
        match self {
            LineKind::Blank => LineView::Blank,
            LineKind::Table(n) => LineView::Table(n@),
            LineKind::ArrayTable(n) => LineView::ArrayTable(n@),
            LineKind::KeyVal(k, v) => LineView::KeyVal(k@, v@),
            LineKind::Bad => LineView::Bad,
        }
    }
}

/// Checks that the characters form a bare key.
fn is_bare_key_exec(v: &Vec<char>) -> (r: bool)
    ensures
        r == bare_key(v@),
{
    if v.len() == 0 {
        return false;
    }
    let mut i: usize = 0;
    while i < v.len()
        invariant
            i <= v@.len(),
            forall|j: int| 0 <= j < i ==> bare_key_char(v@[j]),
        decreases v@.len() - i,
    {
        if !is_bare_key_char(v[i]) {
            return false;
        }
        i = i + 1;
    }
    true
}

/// Parses a whole trimmed value.
fn parse_value_exec(v: &Vec<char>) -> (r: Option<Value>)
    ensures
        (r is Some) == (parse_value(v@) is Some),
        r matches Some(x) ==> parse_value(v@) == Some(x@),
{
    let n = v.len();
    if n == 0 {
        None
    } else if v[0] == '"' {
        let e = scan_char(v, 1, '"');
        if n >= 2 && e == n - 1 {
            Some(Value::VStr(copy_range(v, 1, n - 1)))
        } else {
            None
        }
    } else if v[0] == '[' {
        let xs0: Vec<Vec<char>> = Vec::new();
        proof {
            assert(lines_view(xs0@) =~= Seq::<Seq<char>>::empty());
        }
        match elems_at(v, 1, xs0) {
            Some((xs, j)) => {
                if j == n {
                    Some(Value::VList(xs))
                } else {
                    None
                }
            },
            None => None,
        }
    } else if v[0] == '{' {
        let acc0 = DependencyDetail { version: None, features: Vec::new() };
        proof {
            assert(acc0@.features =~= empty_detail().features);
            assert(acc0@ == empty_detail());
        }
        match pairs_at(v, 1, acc0) {
            Some((dd, j)) => {
                if j == n {
                    Some(Value::VDetail(dd))
                } else {
                    None
                }
            },
            None => None,
        }
    } else {
        None
    }
}

/// Classifies one line of the text form.
fn classify_exec(l: &Vec<char>) -> (r: LineKind)
    ensures
        r@ == classify_line(l@),
{
    let t0 = trim_start_chars(l);
    let t = trim_end_chars(&t0);
    let n = t.len();
    if n == 0 {
        LineKind::Blank
    } else if n >= 4 && t[0] == '[' && t[1] == '[' && t[n - 2] == ']' && t[n - 1] == ']' {
        LineKind::ArrayTable(copy_range(&t, 2, n - 2))
    } else if n >= 2 && t[0] == '[' && t[n - 1] == ']' {
        LineKind::Table(copy_range(&t, 1, n - 1))
    } else if t[0] == '[' {
        LineKind::Bad
    } else {
        let e = scan_char(&t, 0, '=');
        if e < n {
            let key_raw = copy_range(&t, 0, e);
            let key = trim_end_chars(&key_raw);
            let val_raw = copy_range(&t, e + 1, n);
            let val = trim_start_chars(&val_raw);
            proof {
                assert(t@.subrange(0, e as int) =~= t@.take(e as int));
                assert(t@.subrange(e + 1, n as int) =~= t@.skip(e + 1));
            }
            if is_bare_key_exec(&key) {
                match parse_value_exec(&val) {
                    Some(v) => LineKind::KeyVal(key, v),
                    None => LineKind::Bad,
                }
            } else {
                LineKind::Bad
            }
        } else {
            LineKind::Bad
        }
    }
}

/// The `package` keyword as characters.
fn kw_package_chars() -> (r: Vec<char>)
    ensures
        r@ == kw_package(),
{
    let r = vec!['p', 'a', 'c', 'k', 'a', 'g', 'e'];
    proof {
        assert(r@ =~= kw_package());
    }
    r
}

/// The `dependencies` keyword as characters.
fn kw_dependencies_chars() -> (r: Vec<char>)
    ensures
        r@ == kw_dependencies(),
{
    let r = vec!['d', 'e', 'p', 'e', 'n', 'd', 'e', 'n', 'c', 'i', 'e', 's'];
    proof {
        assert(r@ =~= kw_dependencies());
    }
    r
}

/// The `workspace` keyword as characters.
fn kw_workspace_chars() -> (r: Vec<char>)
    ensures
        r@ == kw_workspace(),
{
    let r = vec!['w', 'o', 'r', 'k', 's', 'p', 'a', 'c', 'e'];
    proof {
        assert(r@ =~= kw_workspace());
    }
    r
}

/// The `bin` keyword as characters.
fn kw_bin_chars() -> (r: Vec<char>)
    ensures
        r@ == kw_bin(),
{
    let r = vec!['b', 'i', 'n'];
    proof {
        assert(r@ =~= kw_bin());
    }
    r
}

/// The `name` keyword as characters.
fn kw_name_chars() -> (r: Vec<char>)
    ensures
        r@ == kw_name(),
{
    let r = vec!['n', 'a', 'm', 'e'];
    proof {
        assert(r@ =~= kw_name());
    }
    r
}

/// The `edition` keyword as characters.
fn kw_edition_chars() -> (r: Vec<char>)
    ensures
        r@ == kw_edition(),
{
    let r = vec!['e', 'd', 'i', 't', 'i', 'o', 'n'];
    proof {
        assert(r@ =~= kw_edition());
    }
    r
}

/// The `path` keyword as characters.
fn kw_path_chars() -> (r: Vec<char>)
    ensures
        r@ == kw_path(),
{
    let r = vec!['p', 'a', 't', 'h'];
    proof {
        assert(r@ =~= kw_path());
    }
    r
}

/// The `required-features` keyword as characters.
fn kw_required_features_chars() -> (r: Vec<char>)
    ensures
        r@ == kw_required_features(),
{
    let r = vec![
        'r',
        'e',
        'q',
        'u',
        'i',
        'r',
        'e',
        'd',
        '-',
        'f',
        'e',
        'a',
        't',
        'u',
        'r',
        'e',
        's',
    ];
    proof {
        assert(r@ =~= kw_required_features());
    }
    r
}

/// The `version` keyword as characters.
fn kw_version_chars() -> (r: Vec<char>)
    ensures
        r@ == kw_version(),
{
    let r = vec!['v', 'e', 'r', 's', 'i', 'o', 'n'];
    proof {
        assert(r@ =~= kw_version());
    }
    r
}

/// The parser's starting state.
pub open spec fn init_state() -> ParseState {
    ParseState { m: init_manifest_view(), sec: Section::Top }
}

/// One classified line applied to the executable state.
fn apply_line_exec(m: CargoManifest, sec: Section, l: &Vec<char>) -> (r: Option<
    (CargoManifest, Section),
>)
    ensures
        (r is Some) == (apply_line(ParseState { m: m@, sec: sec }, l@) is Some),
        r matches Some(p) ==> apply_line(ParseState { m: m@, sec: sec }, l@) == Some(
            ParseState { m: p.0@, sec: p.1 },
        ),
{
    let mut m = m;
    match classify_exec(l) {
        LineKind::Blank => Some((m, sec)),
        LineKind::Table(name) => {
            if keys_equal(&name, &kw_package_chars()) {
                Some((m, Section::Package))
            } else if keys_equal(&name, &kw_dependencies_chars()) {
                Some((m, Section::Dependencies))
            } else if keys_equal(&name, &kw_workspace_chars()) {
                m.workspace = true;
                Some((m, Section::Workspace))
            } else {
                Some((m, Section::Other))
            }
        },
        LineKind::ArrayTable(name) => {
            if keys_equal(&name, &kw_bin_chars()) {
                let ghost bins0 = m.bin@;
                m.bin.push(Product { path: None, name: None, required_features: None });
                proof {
                    assert(bins_view(m.bin@) =~= bins_view(bins0).push(empty_product()));
                }
                Some((m, Section::Bin))
            } else {
                Some((m, Section::Other))
            }
        },
        LineKind::KeyVal(k, v) => {
            match sec {
                Section::Top => {
                    if keys_equal(&k, &kw_edition_chars()) {
                        match v {
                            Value::VStr(s) => {
                                m.edition = chars_to_string(&s);
                                Some((m, Section::Top))
                            },
                            _ => None,
                        }
                    } else {
                        Some((m, sec))
                    }
                },
                Section::Package => {
                    if keys_equal(&k, &kw_name_chars()) {
                        match v {
                            Value::VStr(s) => {
                                m.package.name = chars_to_string(&s);
                                Some((m, Section::Package))
                            },
                            _ => None,
                        }
                    } else if keys_equal(&k, &kw_version_chars()) {
                        match v {
                            Value::VStr(s) => {
                                m.package.version = chars_to_string(&s);
                                Some((m, Section::Package))
                            },
                            _ => None,
                        }
                    } else {
                        Some((m, sec))
                    }
                },
                Section::Dependencies => {
                    let dep = match v {
                        Value::VStr(s) => Some(Dependency::Simple(chars_to_string(&s))),
                        Value::VDetail(dd) => Some(Dependency::Detailed(dd)),
                        Value::VList(_) => None,
                    };
                    match dep {
                        Some(d) => {
                            let name = chars_to_string(&k);
                            if insert_dep(&mut m.dependencies, name, d) {
                                Some((m, Section::Dependencies))
                            } else {
                                None
                            }
                        },
                        None => None,
                    }
                },
                Section::Workspace => Some((m, sec)),
                Section::Bin => {
                    if m.bin.len() == 0 {
                        None
                    } else {
                        let ghost bins0 = m.bin@;
                        if keys_equal(&k, &kw_path_chars()) {
                            match v {
                                Value::VStr(s) => {
                                    let mut last = m.bin.pop().unwrap();
                                    last.path = Some(chars_to_string(&s));
                                    m.bin.push(last);
                                    proof {
                                        assert(m.bin@.take(bins0.len() - 1) =~= bins0.take(
                                            bins0.len() - 1,
                                        ));
                                        lemma_bins_update_last(bins0, m.bin@);
                                    }
                                    Some((m, Section::Bin))
                                },
                                _ => None,
                            }
                        } else if keys_equal(&k, &kw_name_chars()) {
                            match v {
                                Value::VStr(s) => {
                                    let mut last = m.bin.pop().unwrap();
                                    last.name = Some(chars_to_string(&s));
                                    m.bin.push(last);
                                    proof {
                                        assert(m.bin@.take(bins0.len() - 1) =~= bins0.take(
                                            bins0.len() - 1,
                                        ));
                                        lemma_bins_update_last(bins0, m.bin@);
                                    }
                                    Some((m, Section::Bin))
                                },
                                _ => None,
                            }
                        } else if keys_equal(&k, &kw_required_features_chars()) {
                            match v {
                                Value::VList(xs) => {
                                    let mut last = m.bin.pop().unwrap();
                                    last.required_features = Some(to_strings(xs));
                                    m.bin.push(last);
                                    proof {
                                        assert(m.bin@.take(bins0.len() - 1) =~= bins0.take(
                                            bins0.len() - 1,
                                        ));
                                        lemma_bins_update_last(bins0, m.bin@);
                                    }
                                    Some((m, Section::Bin))
                                },
                                _ => None,
                            }
                        } else {
                            Some((m, sec))
                        }
                    }
                },
                Section::Other => Some((m, sec)),
            }
        },
        LineKind::Bad => None,
    }
}

/// Popping the last target, changing it and pushing it back is the same as
/// updating the last entry of the model.
proof fn lemma_bins_update_last(bins0: Seq<Product>, bins1: Seq<Product>)
    requires
        bins0.len() > 0,
        bins1.len() == bins0.len(),
        bins1.take(bins0.len() - 1) == bins0.take(bins0.len() - 1),
    ensures
        bins_view(bins1) == bins_view(bins0).update(
            bins0.len() - 1,
            bins1[bins1.len() - 1]@,
        ),
{
    assert forall|j: int|
        0 <= j < bins1.len() implies bins_view(bins1)[j] == bins_view(bins0).update(
        bins0.len() - 1,
        bins1[bins1.len() - 1]@,
    )[j] by {
        if j < bins0.len() - 1 {
            assert(bins0.take(bins0.len() - 1)[j] == bins0[j]);
            assert(bins1.take(bins0.len() - 1)[j] == bins1[j]);
        }
    }
    assert(bins_view(bins1) =~= bins_view(bins0).update(
        bins0.len() - 1,
        bins1[bins1.len() - 1]@,
    ));
}

/// Parses descriptor text given as characters.
pub fn parse_manifest_chars(v: &Vec<char>) -> (r: Result<CargoManifest, BuildRunError>)
    ensures
        (r is Ok) == (spec_parse_manifest(v@) is Some),
        r matches Ok(m) ==> Some(m@) == spec_parse_manifest(v@),
        r matches Err(e) ==> e is DescriptorParse,
{
    let lines = split_lines(v);
    let mut m = CargoManifest {
        package: default_package(),
        dependencies: Vec::new(),
        edition: default_edition(),
        workspace: false,
        bin: Vec::new(),
    };
    let mut sec = Section::Top;
    proof {
        assert(deps_view(m.dependencies@) =~= init_manifest_view().dependencies);
        assert(bins_view(m.bin@) =~= init_manifest_view().bin);
        assert(m@ == init_manifest_view());
        assert(lines_view(lines@).skip(0) =~= lines_view(lines@));
    }
    let n = lines.len();
    let mut i: usize = 0;
    while i < n
        invariant
            n == lines@.len(),
            i <= n,
            lines_view(lines@) == spec_split_lines(v@),
            run_lines(spec_split_lines(v@), init_state()) == run_lines(
                lines_view(lines@).skip(i as int),
                ParseState { m: m@, sec: sec },
            ),
        decreases n - i,
    {
        let ghost pre = ParseState { m: m@, sec: sec };
        proof {
            assert(lines_view(lines@).skip(i as int)[0] == lines_view(lines@)[i as int]);
            assert(lines_view(lines@)[i as int] == lines@[i as int]@);
        }
        match apply_line_exec(m, sec, &lines[i]) {
            Some((m2, s2)) => {
                m = m2;
                sec = s2;
            },
            None => {
                return Err(
                    BuildRunError::DescriptorParse(
                        String::from_str("descriptor line cannot be read"),
                    ),
                );
            },
        }
        i = i + 1;
        proof {
            assert(lines_view(lines@).skip(i - 1).skip(1) =~= lines_view(lines@).skip(i as int));
        }
    }
    proof {
        assert(lines_view(lines@).skip(n as int).len() == 0);
    }
    Ok(m)
}

/// Appends `src` to the end of `dst`, keeping the line views.
fn append_lines(dst: &mut Vec<Vec<char>>, src: Vec<Vec<char>>)
    ensures
        final(dst)@ == old(dst)@ + src@,
{
    let mut src = src;
    dst.append(&mut src);
}

/// Appends the characters of `s` to `line`.
fn push_chars(line: &mut Vec<char>, s: &Vec<char>)
    ensures
        final(line)@ == old(line)@ + s@,
{
    let mut i: usize = 0;
    while i < s.len()
        invariant
            i <= s@.len(),
            line@ == old(line)@ + s@.take(i as int),
        decreases s@.len() - i,
    {
        line.push(s[i]);
        i = i + 1;
        proof {
            assert(line@ =~= old(line)@ + s@.take(i as int));
        }
    }
    proof {
        assert(old(line)@ + s@.take(s@.len() as int) =~= old(line)@ + s@);
    }
}

/// Appends a quoted string to `line`.
fn push_qstr(line: &mut Vec<char>, s: &String)
    ensures
        final(line)@ == old(line)@ + render_qstr(s@),
{
    line.push('"');
    let cs = str_to_chars(s.as_str());
    push_chars(line, &cs);
    line.push('"');
    proof {
        assert(line@ =~= old(line)@ + render_qstr(s@));
    }
}

/// Appends ` = ` to `line`.
fn push_eq_sep(line: &mut Vec<char>)
    ensures
        final(line)@ == old(line)@ + seq![' ', '=', ' '],
{
    line.push(' ');
    line.push('=');
    line.push(' ');
    proof {
        assert(line@ =~= old(line)@ + seq![' ', '=', ' ']);
    }
}

/// Appends the inner rendering of a string list, from position `i` on.
fn push_strlist_inner(line: &mut Vec<char>, xs: &Vec<String>, i: usize)
    requires
        i <= xs@.len(),
    ensures
        final(line)@ == old(line)@ + render_strlist_inner(xs.deep_view().skip(i as int)),
    decreases xs@.len() - i,
{
    let n = xs.len();
    proof {
        assert(xs.deep_view().len() == n);
    }
    if i >= n {
        proof {
            assert(xs.deep_view().skip(i as int).len() == 0);
            assert(line@ =~= old(line)@ + render_strlist_inner(xs.deep_view().skip(i as int)));
        }
    } else if i == n - 1 {
        push_qstr(line, &xs[i]);
        proof {
            let tail = xs.deep_view().skip(i as int);
            assert(tail.len() == 1);
            assert(tail[0] == xs@[i as int]@);
            assert(line@ =~= old(line)@ + render_strlist_inner(tail));
        }
    } else {
        push_qstr(line, &xs[i]);
        line.push(',');
        line.push(' ');
        push_strlist_inner(line, xs, i + 1);
        proof {
            let tail = xs.deep_view().skip(i as int);
            assert(tail.len() >= 2);
            assert(tail[0] == xs@[i as int]@);
            assert(tail.skip(1) =~= xs.deep_view().skip(i + 1));
            assert(line@ =~= old(line)@ + render_strlist_inner(tail));
        }
    }
}

/// Appends a whole string list.
fn push_strlist(line: &mut Vec<char>, xs: &Vec<String>)
    ensures
        final(line)@ == old(line)@ + render_strlist(xs.deep_view()),
{
    line.push('[');
    push_strlist_inner(line, xs, 0);
    line.push(']');
    proof {
        assert(xs.deep_view().skip(0) =~= xs.deep_view());
        assert(line@ =~= old(line)@ + render_strlist(xs.deep_view()));
    }
}

/// Renders one dependency value.
fn make_dep_value(d: &Dependency) -> (r: Vec<char>)
    ensures
        r@ == render_dep(d@),
{
    match d {
        Dependency::Simple(v) => {
            let mut line: Vec<char> = Vec::new();
            push_qstr(&mut line, v);
            proof {
                assert(line@ =~= render_dep(d@));
            }
            line
        },
        Dependency::Detailed(dd) => {
            let mut line: Vec<char> = Vec::new();
            line.push('{');
            line.push(' ');
            let has_features = dd.features.len() > 0;
            match &dd.version {
                Some(v) => {
                    push_chars(&mut line, &kw_version_chars());
                    push_eq_sep(&mut line);
                    push_qstr(&mut line, v);
                    if has_features {
                        line.push(',');
                        line.push(' ');
                        push_chars(&mut line, &kw_features_chars());
                        push_eq_sep(&mut line);
                        push_strlist(&mut line, &dd.features);
                    }
                },
                None => {
                    if has_features {
                        push_chars(&mut line, &kw_features_chars());
                        push_eq_sep(&mut line);
                        push_strlist(&mut line, &dd.features);
                    }
                },
            }
            if has_features || dd.version.is_some() {
                line.push(' ');
            }
            line.push('}');
            proof {
                assert(line@ =~= render_dep(d@));
            }
            line
        },
    }
}

/// Renders one `key = value` line.
fn make_kv_line(kw: Vec<char>, value: Vec<char>) -> (r: Vec<char>)
    ensures
        r@ == render_kv(kw@, value@),
{
    let ghost kw_view = kw@;
    let mut line = kw;
    push_eq_sep(&mut line);
    push_chars(&mut line, &value);
    proof {
        assert(line@ =~= render_kv(kw_view, value@));
    }
    line
}

/// Renders a `[section]` header line.
fn make_header(kw: Vec<char>) -> (r: Vec<char>)
    ensures
        r@ == render_table_header(kw@),
{
    let mut line: Vec<char> = Vec::new();
    line.push('[');
    push_chars(&mut line, &kw);
    line.push(']');
    proof {
        assert(line@ =~= render_table_header(kw@));
    }
    line
}

/// Renders the dependency lines from position `i` on.
fn make_dep_lines(deps: &Vec<(String, Dependency)>, i: usize) -> (r: Vec<Vec<char>>)
    requires
        i <= deps@.len(),
    ensures
        lines_view(r@) == render_dep_lines(deps_view(deps@).skip(i as int)),
    decreases deps@.len() - i,
{
    if i >= deps.len() {
        let r: Vec<Vec<char>> = Vec::new();
        proof {
            assert(lines_view(r@) =~= render_dep_lines(deps_view(deps@).skip(i as int)));
        }
        r
    } else {
        let mut line = str_to_chars(deps[i].0.as_str());
        push_eq_sep(&mut line);
        let dv = make_dep_value(&deps[i].1);
        push_chars(&mut line, &dv);
        let mut rest = make_dep_lines(deps, i + 1);
        rest.insert(0, line);
        proof {
            let tail = deps_view(deps@).skip(i as int);
            assert(tail[0] == deps_view(deps@)[i as int]);
            assert(deps_view(deps@)[i as int] == (deps@[i as int].0@, deps@[i as int].1@));
            assert(tail.skip(1) =~= deps_view(deps@).skip(i + 1));
            assert(line@ =~= render_kv(tail[0].0, render_dep(tail[0].1)));
            assert(lines_view(rest@) =~= render_dep_lines(tail));
        }
        rest
    }
}

/// Renders the lines of one binary target.
fn make_product_lines(p: &Product) -> (r: Vec<Vec<char>>)
    ensures
        lines_view(r@) == render_product_lines(p@),
{
    let mut r: Vec<Vec<char>> = Vec::new();
    let mut header: Vec<char> = Vec::new();
    header.push('[');
    header.push('[');
    push_chars(&mut header, &kw_bin_chars());
    header.push(']');
    header.push(']');
    proof {
        assert(header@ =~= render_array_header(kw_bin()));
    }
    r.push(header);
    match &p.path {
        Some(v) => {
            let mut line = kw_path_chars();
            push_eq_sep(&mut line);
            push_qstr(&mut line, v);
            r.push(line);
        },
        None => {},
    }
    match &p.name {
        Some(v) => {
            let mut line = kw_name_chars();
            push_eq_sep(&mut line);
            push_qstr(&mut line, v);
            r.push(line);
        },
        None => {},
    }
    match &p.required_features {
        Some(xs) => {
            let mut line = kw_required_features_chars();
            push_eq_sep(&mut line);
            push_strlist(&mut line, xs);
            r.push(line);
        },
        None => {},
    }
    proof {
        assert(lines_view(r@) =~= render_product_lines(p@));
    }
    r
}

/// Renders the binary-target lines from position `i` on.
fn make_bin_lines(bins: &Vec<Product>, i: usize) -> (r: Vec<Vec<char>>)
    requires
        i <= bins@.len(),
    ensures
        lines_view(r@) == render_bin_lines(bins_view(bins@).skip(i as int)),
    decreases bins@.len() - i,
{
    if i >= bins.len() {
        let r: Vec<Vec<char>> = Vec::new();
        proof {
            assert(lines_view(r@) =~= render_bin_lines(bins_view(bins@).skip(i as int)));
        }
        r
    } else {
        let mut r = make_product_lines(&bins[i]);
        let rest = make_bin_lines(bins, i + 1);
        let ghost head = r@;
        append_lines(&mut r, rest);
        proof {
            let tail = bins_view(bins@).skip(i as int);
            assert(tail[0] == bins_view(bins@)[i as int]);
            assert(bins_view(bins@)[i as int] == bins@[i as int]@);
            assert(tail.skip(1) =~= bins_view(bins@).skip(i + 1));
            assert(lines_view(r@) =~= render_product_lines(tail[0]) + render_bin_lines(
                tail.skip(1),
            ));
        }
        r
    }
}

// ---------------------------------------------------------------------
// Key discipline of parsed descriptors.
// ---------------------------------------------------------------------
/// The dependency mapping is strictly sorted and every name is a bare key.
pub open spec fn manifest_keys_ok(m: ManifestView) -> bool {
    &&& crate::toml_utils::deps_sorted(m.dependencies)
    &&& forall|i: int| 0 <= i < m.dependencies.len() ==> bare_key(#[trigger] m.dependencies[i].0)
}

proof fn lemma_apply_line_keys_ok(st: ParseState, l: Seq<char>)
    requires
        manifest_keys_ok(st.m),
    ensures
        apply_line(st, l) matches Some(st2) ==> manifest_keys_ok(st2.m),
{
    match classify_line(l) {
        LineView::KeyVal(k, v) => {
            assert(bare_key(k));
            match st.sec {
                Section::Dependencies => {
                    let dep = match v {
                        ValueView::VStr(s) => Some(DependencyView::Simple(s)),
                        ValueView::VDetail(dd) => Some(DependencyView::Detailed(dd)),
                        ValueView::VList(_) => None,
                    };
                    match dep {
                        Some(d) => {
                            crate::toml_utils::lemma_insert_dep_preserves(st.m.dependencies, k, d);
                            match spec_insert_dep(st.m.dependencies, k, d) {
                                Some(r) => {
                                    assert forall|i: int|
                                        0 <= i < r.len() implies bare_key(#[trigger] r[i].0) by {
                                        if r[i] != (k, d) {
                                            assert(st.m.dependencies.contains(r[i]));
                                            let w = choose|w: int|
                                                0 <= w < st.m.dependencies.len()
                                                    && st.m.dependencies[w] == r[i];
                                            assert(bare_key(st.m.dependencies[w].0));
                                        }
                                    }
                                },
                                None => {},
                            }
                        },
                        None => {},
                    }
                },
                _ => {},
            }
        },
        _ => {},
    }
}

proof fn lemma_run_lines_keys_ok(ls: Seq<Seq<char>>, st: ParseState)
    requires
        manifest_keys_ok(st.m),
    ensures
        run_lines(ls, st) matches Some(st2) ==> manifest_keys_ok(st2.m),
    decreases ls.len(),
{
    if ls.len() > 0 {
        lemma_apply_line_keys_ok(st, ls[0]);
        match apply_line(st, ls[0]) {
            Some(st2) => {
                lemma_run_lines_keys_ok(ls.skip(1), st2);
            },
            None => {},
        }
    }
}

/// Whatever text parses, the resulting dependency mapping is strictly
/// sorted by name — names are unique — and every name is a bare key.
pub proof fn lemma_parse_manifest_keys_ok(text: Seq<char>)
    ensures
        spec_parse_manifest(text) matches Some(m) ==> manifest_keys_ok(m),
{
    assert(manifest_keys_ok(init_manifest_view()));
    lemma_run_lines_keys_ok(spec_split_lines(text), init_state());
}

// ---------------------------------------------------------------------
// The round trip: parsing the canonical rendering gives the descriptor
// back.
// ---------------------------------------------------------------------
/// Running the state machine over concatenated line sequences is running
/// it over the first, then the second.
pub proof fn lemma_run_lines_concat(ls1: Seq<Seq<char>>, ls2: Seq<Seq<char>>, st: ParseState)
    ensures
        run_lines(ls1 + ls2, st) == (match run_lines(ls1, st) {
            Some(st2) => run_lines(ls2, st2),
            None => None,
        }),
    decreases ls1.len(),
{
    if ls1.len() == 0 {
        assert(ls1 + ls2 =~= ls2);
    } else {
        assert((ls1 + ls2)[0] == ls1[0]);
        assert((ls1 + ls2).skip(1) =~= ls1.skip(1) + ls2);
        match apply_line(st, ls1[0]) {
            Some(st2) => {
                lemma_run_lines_concat(ls1.skip(1), ls2, st2);
            },
            None => {},
        }
    }
}

/// Inserting a name above every present name appends at the end.
pub proof fn lemma_insert_dep_append(
    deps: Seq<(Seq<char>, DependencyView)>,
    k: Seq<char>,
    d: DependencyView,
)
    requires
        forall|i: int| 0 <= i < deps.len() ==> lex_lt(#[trigger] deps[i].0, k),
    ensures
        spec_insert_dep(deps, k, d) == Some(deps.push((k, d))),
    decreases deps.len(),
{
    crate::toml_utils::lemma_insert_dep_at(deps, k, d, deps.len() as int);
    assert(deps.take(deps.len() as int) + seq![(k, d)] + deps.skip(deps.len() as int) =~= deps.push(
        (k, d),
    ));
}

/// A quoted rendering embedded at position `i` parses to exactly its
/// content, ending just past the closing quote.
pub proof fn lemma_parse_qstr_at_render(s: Seq<char>, i: int, content: Seq<char>)
    requires
        crate::toml_utils::plain_str(content),
        0 <= i,
        i + content.len() + 2 <= s.len(),
        s.subrange(i, i + content.len() + 2) == render_qstr(content),
    ensures
        parse_qstr_at(s, i) == Some((content, i + content.len() + 2)),
{
    let seg = render_qstr(content);
    assert(s[i] == seg[0]);
    assert(s[i] == '"');
    assert forall|j: int| i + 1 <= j < i + 1 + content.len() implies s[j] != '"' by {
        assert(s[j] == seg[j - i]);
        assert(seg[j - i] == content[j - i - 1]);
        assert(crate::toml_utils::plain_char(content[j - i - 1]));
    }
    assert(s[i + content.len() + 1] == seg[content.len() as int + 1]);
    assert(s[i + content.len() + 1] == '"');
    lemma_scan_to_is(s, i + 1, '"', i + content.len() + 1);
    assert forall|w: int|
        0 <= w < content.len() implies s.subrange(i + 1, i + content.len() + 1)[w]
            == content[w] by {
        assert(s.subrange(i, i + content.len() + 2)[1 + w] == s[i + 1 + w]);
        assert(seg[1 + w] == content[w]);
    }
    assert(s.subrange(i + 1, i + content.len() + 1) =~= content);
}

/// A rendered list body embedded at position `i` parses to exactly its
/// elements, ending just past the closing bracket.
pub proof fn lemma_parse_elems_render(
    s: Seq<char>,
    i: int,
    xs: Seq<Seq<char>>,
    acc: Seq<Seq<char>>,
)
    requires
        forall|j: int| 0 <= j < xs.len() ==> crate::toml_utils::plain_str(#[trigger] xs[j]),
        0 <= i,
        i + render_strlist_inner(xs).len() + 1 <= s.len(),
        s.subrange(i, i + render_strlist_inner(xs).len() + 1) == render_strlist_inner(xs) + seq![
            ']',
        ],
    ensures
        parse_elems(s, i, acc) == Some((acc + xs, i + render_strlist_inner(xs).len() + 1)),
    decreases xs.len(),
{
    let seg = render_strlist_inner(xs) + seq![']'];
    if xs.len() == 0 {
        assert(s[i] == seg[0]);
        assert(s[i] == ']');
        assert(!is_ws(']'));
        assert(acc + xs =~= acc);
    } else {
        let x0 = xs[0];
        let q = render_qstr(x0);
        assert(crate::toml_utils::plain_str(x0));
        assert forall|j: int| 0 <= j < q.len() implies s[i + j] == q[j] by {
            assert(s[i + j] == seg[j]);
            if xs.len() == 1 {
                assert(seg[j] == q[j]);
            } else {
                assert(render_strlist_inner(xs) == q + seq![',', ' '] + render_strlist_inner(
                    xs.skip(1),
                ));
                assert(seg[j] == q[j]);
            }
        }
        assert(s.subrange(i, i + x0.len() + 2) =~= q);
        lemma_parse_qstr_at_render(s, i, x0);
        assert(s[i] == '"');
        assert(!is_ws('"') && '"' != ']');
        let j = i + x0.len() + 2;
        let acc2 = acc.push(x0);
        if xs.len() == 1 {
            assert(s[j] == seg[x0.len() as int + 2]);
            assert(s[j] == ']');
            assert(parse_elems_sep(s, j, acc2) == Some((acc2, j + 1)));
            assert(acc2 =~= acc + xs);
        } else {
            let inner_rest = render_strlist_inner(xs.skip(1));
            assert(render_strlist_inner(xs) == q + seq![',', ' '] + inner_rest);
            assert(s[j] == seg[j - i]);
            assert(s[j] == ',');
            assert(!is_ws(',') && ',' != ']');
            assert(s[j + 1] == seg[j + 1 - i]);
            assert(s[j + 1] == ' ');
            assert(is_ws(' '));
            assert forall|w: int|
                0 <= w < inner_rest.len() + 1 implies s[j + 2 + w] == (inner_rest + seq![']'])[w] by {
                assert(s[j + 2 + w] == seg[j + 2 + w - i]);
            }
            assert(s.subrange(j + 2, j + 2 + inner_rest.len() + 1) =~= inner_rest + seq![']']);
            assert forall|w: int|
                0 <= w < xs.skip(1).len() implies crate::toml_utils::plain_str(
                #[trigger] xs.skip(1)[w],
            ) by {
                assert(xs.skip(1)[w] == xs[w + 1]);
            }
            lemma_parse_elems_render(s, j + 2, xs.skip(1), acc2);
            assert(parse_elems_sep(s, j, acc2) == parse_elems(s, j + 1, acc2));
            assert(parse_elems(s, j + 1, acc2) == parse_elems(s, j + 2, acc2));
            assert(acc2 + xs.skip(1) =~= acc + xs);
            assert(j + 2 + inner_rest.len() + 1 == i + render_strlist_inner(xs).len() + 1);
        }
    }
}

/// Splitting [`line_ok`] over a concatenation.
pub proof fn lemma_line_ok_concat(a: Seq<char>, b: Seq<char>)
    ensures
        line_ok(a + b) == (line_ok(a) && line_ok(b)),
{
    if line_ok(a) && line_ok(b) {
        assert forall|j: int| 0 <= j < (a + b).len() implies (a + b)[j] != '\n' by {
            if j < a.len() {
                assert((a + b)[j] == a[j]);
            } else {
                assert((a + b)[j] == b[j - a.len()]);
            }
        }
    }
    if line_ok(a + b) {
        assert forall|j: int| 0 <= j < a.len() implies a[j] != '\n' by {
            assert((a + b)[j] == a[j]);
        }
        assert forall|j: int| 0 <= j < b.len() implies b[j] != '\n' by {
            assert((a + b)[a.len() + j] == b[j]);
        }
    }
}

/// A plain string holds no line separator.
pub proof fn lemma_plain_line_ok(s: Seq<char>)
    requires
        crate::toml_utils::plain_str(s),
    ensures
        line_ok(s),
{
    assert forall|j: int| 0 <= j < s.len() implies s[j] != '\n' by {
        assert(crate::toml_utils::plain_char(s[j]));
    }
}

/// A bare key holds no line separator.
pub proof fn lemma_bare_line_ok(s: Seq<char>)
    requires
        forall|j: int| 0 <= j < s.len() ==> bare_key_char(#[trigger] s[j]),
    ensures
        line_ok(s),
{
    assert forall|j: int| 0 <= j < s.len() implies s[j] != '\n' by {
        assert(bare_key_char(s[j]));
    }
}

/// A whole value that is a quoted plain string parses back to it.
pub proof fn lemma_parse_value_qstr(content: Seq<char>)
    requires
        crate::toml_utils::plain_str(content),
    ensures
        parse_value(render_qstr(content)) == Some(ValueView::VStr(content)),
{
    let v = render_qstr(content);
    assert(v[0] == '"');
    assert(v[v.len() - 1] == '"');
    assert forall|j: int| 1 <= j < v.len() - 1 implies v[j] != '"' by {
        assert(v[j] == content[j - 1]);
        assert(crate::toml_utils::plain_char(content[j - 1]));
    }
    lemma_scan_to_is(v, 1, '"', v.len() - 1);
    assert(v.subrange(1, v.len() - 1) =~= content);
}

/// A whole value that is a rendered string list parses back to its
/// elements.
pub proof fn lemma_parse_value_list(xs: Seq<Seq<char>>)
    requires
        forall|j: int| 0 <= j < xs.len() ==> crate::toml_utils::plain_str(#[trigger] xs[j]),
    ensures
        parse_value(render_strlist(xs)) == Some(ValueView::VList(xs)),
{
    let v = render_strlist(xs);
    let inner = render_strlist_inner(xs);
    assert(v[0] == '[');
    assert(v[0] != '"');
    assert(v.subrange(1, 1 + inner.len() as int + 1) =~= inner + seq![']']);
    lemma_parse_elems_render(v, 1, xs, Seq::empty());
    assert(Seq::<Seq<char>>::empty() + xs =~= xs);
}

/// The shape of one rendered `key = ` prefix inside an inline table.
proof fn lemma_pairs_key_prefix(s: Seq<char>, i: int, kw: Seq<char>)
    requires
        0 <= i,
        kw.len() > 0,
        forall|j: int| 0 <= j < kw.len() ==> bare_key_char(#[trigger] kw[j]),
        i + kw.len() + 4 <= s.len(),
        s.subrange(i, i + kw.len()) == kw,
        s[i + kw.len()] == ' ',
        s[i + kw.len() + 1] == '=',
        s[i + kw.len() + 2] == ' ',
        !is_ws(s[i + kw.len() + 3]),
    ensures
        key_end(s, i) == i + kw.len(),
        s.subrange(i, i + kw.len()) == kw,
        ws_end(s, i + kw.len()) == i + kw.len() + 1,
        ws_end(s, i + kw.len() + 2) == i + kw.len() + 3,
    decreases kw.len(),
{
    assert forall|j: int| i <= j < i + kw.len() implies bare_key_char(s[j]) by {
        assert(s.subrange(i, i + kw.len())[j - i] == s[j]);
        assert(kw[j - i] == s[j]);
    }
    assert(!bare_key_char(' '));
    lemma_key_end_is(s, i, i + kw.len());
    lemma_ws_end_is(s, i + kw.len(), i + kw.len() + 1);
    lemma_ws_end_is(s, i + kw.len() + 2, i + kw.len() + 3);
}

/// A whole value that is a rendered dependency detail parses back to it.
pub proof fn lemma_parse_value_detail(dd: DependencyDetailView)
    requires
        crate::toml_utils::detail_valid(dd),
    ensures
        parse_value(render_detail(dd)) == Some(ValueView::VDetail(dd)),
{
    match dd.version {
        Some(ver) => {
            if dd.features.len() > 0 {
                lemma_parse_value_detail_both(dd, ver);
            } else {
                lemma_parse_value_detail_version(dd, ver);
            }
        },
        None => {
            if dd.features.len() > 0 {
                lemma_parse_value_detail_features(dd);
            } else {
                lemma_parse_value_detail_none(dd);
            }
        },
    }
}

#[verifier::rlimit(100)]
#[verifier::spinoff_prover]
proof fn lemma_parse_value_detail_both(dd: DependencyDetailView, ver: Seq<char>)
    requires
        crate::toml_utils::detail_valid(dd),
        dd.version == Some(ver),
        dd.features.len() > 0,
    ensures
        parse_value(render_detail(dd)) == Some(ValueView::VDetail(dd)),
{
    let v = render_detail(dd);
    assert(bare_key_char('v') && bare_key_char('f'));
    let q = render_qstr(ver);
    let inner = render_strlist_inner(dd.features);
    let sl = render_strlist(dd.features);
    assert(v == seq!['{', ' '] + kw_version() + seq![' ', '=', ' '] + q + seq![',', ' ']
        + kw_features() + seq![' ', '=', ' '] + sl + seq![' ', '}']);
    assert(v[0] == '{' && v[0] != '"' && v[0] != '[');
    assert(v[1] == ' ' && is_ws(' '));
    assert(v[2] == 'v');
    assert(v.subrange(2, 9) =~= kw_version());
    assert(v[9] == ' ' && v[10] == '=' && v[11] == ' ');
    assert(v[12] == '"');
    lemma_pairs_key_prefix(v, 2, kw_version());
    assert(v.subrange(12, 12 + ver.len() as int + 2) =~= q);
    lemma_parse_qstr_at_render(v, 12, ver);
    let j = 12 + ver.len() as int + 2;
    assert(v[j] == ',');
    assert(v[j + 1] == ' ');
    assert(v[j + 2] == 'f');
    assert(v.subrange(j + 2, j + 10) =~= kw_features());
    assert(v[j + 10] == ' ' && v[j + 11] == '=' && v[j + 12] == ' ');
    assert(v[j + 13] == '[');
    lemma_pairs_key_prefix(v, j + 2, kw_features());
    assert(kw_features() != kw_version());
    assert(v.subrange(j + 14, j + 14 + inner.len() as int + 1) =~= inner + seq![']']);
    lemma_parse_elems_render(v, j + 14, dd.features, Seq::empty());
    let e = j + 14 + inner.len() as int + 1;
    assert(Seq::<Seq<char>>::empty() + dd.features =~= dd.features);
    assert(v[e] == ' ');
    assert(v[e + 1] == '}');
    assert(e + 2 == v.len());
    let acc1 = DependencyDetailView { version: Some(ver), features: empty_detail().features };
    assert(parse_pairs(v, 1, empty_detail()) == parse_pairs(v, 2, empty_detail()));
    assert(parse_pairs(v, 2, empty_detail()) == parse_pairs_sep(v, j, acc1));
    assert(parse_pairs_sep(v, j, acc1) == parse_pairs(v, j + 1, acc1));
    assert(parse_pairs(v, j + 1, acc1) == parse_pairs(v, j + 2, acc1));
    let acc2 = DependencyDetailView { version: Some(ver), features: dd.features };
    assert(parse_pairs(v, j + 2, acc1) == parse_pairs_sep(v, e, acc2));
    assert(parse_pairs_sep(v, e, acc2) == parse_pairs_sep(v, e + 1, acc2));
    assert(parse_pairs_sep(v, e + 1, acc2) == Some((acc2, e + 2)));
    assert(acc2 == dd);
}

#[verifier::rlimit(100)]
#[verifier::spinoff_prover]
proof fn lemma_parse_value_detail_version(dd: DependencyDetailView, ver: Seq<char>)
    requires
        crate::toml_utils::detail_valid(dd),
        dd.version == Some(ver),
        dd.features.len() == 0,
    ensures
        parse_value(render_detail(dd)) == Some(ValueView::VDetail(dd)),
{
    let v = render_detail(dd);
    assert(bare_key_char('v'));
    let q = render_qstr(ver);
    assert(v == seq!['{', ' '] + kw_version() + seq![' ', '=', ' '] + q + seq![' ', '}']);
    assert(v[0] == '{' && v[0] != '"' && v[0] != '[');
    assert(v[1] == ' ');
    assert(v[2] == 'v');
    assert(v.subrange(2, 9) =~= kw_version());
    assert(v[9] == ' ' && v[10] == '=' && v[11] == ' ');
    assert(v[12] == '"');
    lemma_pairs_key_prefix(v, 2, kw_version());
    assert(v.subrange(12, 12 + ver.len() as int + 2) =~= q);
    lemma_parse_qstr_at_render(v, 12, ver);
    let j = 12 + ver.len() as int + 2;
    assert(v[j] == ' ');
    assert(v[j + 1] == '}');
    assert(j + 2 == v.len());
    let acc1 = DependencyDetailView { version: Some(ver), features: empty_detail().features };
    assert(parse_pairs(v, 1, empty_detail()) == parse_pairs(v, 2, empty_detail()));
    assert(parse_pairs(v, 2, empty_detail()) == parse_pairs_sep(v, j, acc1));
    assert(parse_pairs_sep(v, j, acc1) == parse_pairs_sep(v, j + 1, acc1));
    assert(parse_pairs_sep(v, j + 1, acc1) == Some((acc1, j + 2)));
    assert(dd.features =~= Seq::<Seq<char>>::empty());
    assert(acc1 == dd);
}

#[verifier::rlimit(100)]
#[verifier::spinoff_prover]
proof fn lemma_parse_value_detail_features(dd: DependencyDetailView)
    requires
        crate::toml_utils::detail_valid(dd),
        dd.version is None,
        dd.features.len() > 0,
    ensures
        parse_value(render_detail(dd)) == Some(ValueView::VDetail(dd)),
{
    let v = render_detail(dd);
    assert(bare_key_char('f'));
    let inner = render_strlist_inner(dd.features);
    let sl = render_strlist(dd.features);
    assert(v == seq!['{', ' '] + kw_features() + seq![' ', '=', ' '] + sl + seq![' ', '}']);
    assert(v[0] == '{' && v[0] != '"' && v[0] != '[');
    assert(v[1] == ' ');
    assert(v[2] == 'f');
    assert(v.subrange(2, 10) =~= kw_features());
    assert(v[10] == ' ' && v[11] == '=' && v[12] == ' ');
    assert(v[13] == '[');
    lemma_pairs_key_prefix(v, 2, kw_features());
    assert(kw_features() != kw_version());
    assert(v.subrange(14, 14 + inner.len() as int + 1) =~= inner + seq![']']);
    lemma_parse_elems_render(v, 14, dd.features, Seq::empty());
    let e = 14 + inner.len() as int + 1;
    assert(Seq::<Seq<char>>::empty() + dd.features =~= dd.features);
    assert(v[e] == ' ');
    assert(v[e + 1] == '}');
    assert(e + 2 == v.len());
    let acc2 = DependencyDetailView { version: None, features: dd.features };
    assert(parse_pairs(v, 1, empty_detail()) == parse_pairs(v, 2, empty_detail()));
    assert(parse_pairs(v, 2, empty_detail()) == parse_pairs_sep(v, e, acc2));
    assert(parse_pairs_sep(v, e, acc2) == parse_pairs_sep(v, e + 1, acc2));
    assert(parse_pairs_sep(v, e + 1, acc2) == Some((acc2, e + 2)));
    assert(acc2 == dd);
}

proof fn lemma_parse_value_detail_none(dd: DependencyDetailView)
    requires
        crate::toml_utils::detail_valid(dd),
        dd.version is None,
        dd.features.len() == 0,
    ensures
        parse_value(render_detail(dd)) == Some(ValueView::VDetail(dd)),
{
    let v = render_detail(dd);
    assert(v == seq!['{', ' ', '}']);
    assert(v[0] == '{' && v[0] != '"' && v[0] != '[');
    assert(v[1] == ' ');
    assert(v[2] == '}');
    assert(parse_pairs(v, 1, empty_detail()) == parse_pairs(v, 2, empty_detail()));
    assert(parse_pairs(v, 2, empty_detail()) == Some((empty_detail(), 3int)));
    assert(dd.features =~= Seq::<Seq<char>>::empty());
    assert(empty_detail() == dd);
}

/// Every line of a sequence is free of line separators.
pub open spec fn lines_ok(ls: Seq<Seq<char>>) -> bool {
    forall|i: int| 0 <= i < ls.len() ==> line_ok(#[trigger] ls[i])
}

pub proof fn lemma_lines_ok_concat(a: Seq<Seq<char>>, b: Seq<Seq<char>>)
    requires
        lines_ok(a),
        lines_ok(b),
    ensures
        lines_ok(a + b),
{
    assert forall|i: int| 0 <= i < (a + b).len() implies line_ok(#[trigger] (a + b)[i]) by {
        if i < a.len() {
            assert((a + b)[i] == a[i]);
        } else {
            assert((a + b)[i] == b[i - a.len()]);
        }
    }
}

/// No rendered piece of a well-formed descriptor holds a line separator.
proof fn lemma_render_qstr_line_ok(s: Seq<char>)
    requires
        crate::toml_utils::plain_str(s),
    ensures
        line_ok(render_qstr(s)),
{
    lemma_plain_line_ok(s);
    lemma_line_ok_concat(seq!['"'], s);
    lemma_line_ok_concat(seq!['"'] + s, seq!['"']);
}

proof fn lemma_render_strlist_line_ok(xs: Seq<Seq<char>>)
    requires
        forall|j: int| 0 <= j < xs.len() ==> crate::toml_utils::plain_str(#[trigger] xs[j]),
    ensures
        line_ok(render_strlist_inner(xs)),
        line_ok(render_strlist(xs)),
    decreases xs.len(),
{
    if xs.len() == 0 {
    } else if xs.len() == 1 {
        lemma_render_qstr_line_ok(xs[0]);
    } else {
        lemma_render_qstr_line_ok(xs[0]);
        assert forall|j: int|
            0 <= j < xs.skip(1).len() implies crate::toml_utils::plain_str(
            #[trigger] xs.skip(1)[j],
        ) by {
            assert(xs.skip(1)[j] == xs[j + 1]);
        }
        lemma_render_strlist_line_ok(xs.skip(1));
        lemma_line_ok_concat(render_qstr(xs[0]), seq![',', ' ']);
        lemma_line_ok_concat(render_qstr(xs[0]) + seq![',', ' '], render_strlist_inner(xs.skip(1)));
    }
    lemma_line_ok_concat(seq!['['], render_strlist_inner(xs));
    lemma_line_ok_concat(seq!['['] + render_strlist_inner(xs), seq![']']);
}

proof fn lemma_kw_line_ok()
    ensures
        line_ok(kw_package()),
        line_ok(kw_dependencies()),
        line_ok(kw_workspace()),
        line_ok(kw_bin()),
        line_ok(kw_name()),
        line_ok(kw_version()),
        line_ok(kw_edition()),
        line_ok(kw_path()),
        line_ok(kw_features()),
        line_ok(kw_required_features()),
{
}

proof fn lemma_render_detail_line_ok(dd: DependencyDetailView)
    requires
        crate::toml_utils::detail_valid(dd),
    ensures
        line_ok(render_detail(dd)),
{
    lemma_kw_line_ok();
    match dd.version {
        Some(ver) => {
            lemma_render_qstr_line_ok(ver);
            if dd.features.len() > 0 {
                lemma_render_strlist_line_ok(dd.features);
                let a = seq!['{', ' '] + kw_version();
                lemma_line_ok_concat(seq!['{', ' '], kw_version());
                let b = a + seq![' ', '=', ' '];
                lemma_line_ok_concat(a, seq![' ', '=', ' ']);
                let c = b + render_qstr(ver);
                lemma_line_ok_concat(b, render_qstr(ver));
                let d = c + seq![',', ' '];
                lemma_line_ok_concat(c, seq![',', ' ']);
                let e = d + kw_features();
                lemma_line_ok_concat(d, kw_features());
                let f = e + seq![' ', '=', ' '];
                lemma_line_ok_concat(e, seq![' ', '=', ' ']);
                let g = f + render_strlist(dd.features);
                lemma_line_ok_concat(f, render_strlist(dd.features));
                lemma_line_ok_concat(g, seq![' ', '}']);
            } else {
                let a = seq!['{', ' '] + kw_version();
                lemma_line_ok_concat(seq!['{', ' '], kw_version());
                let b = a + seq![' ', '=', ' '];
                lemma_line_ok_concat(a, seq![' ', '=', ' ']);
                let c = b + render_qstr(ver);
                lemma_line_ok_concat(b, render_qstr(ver));
                lemma_line_ok_concat(c, seq![' ', '}']);
            }
        },
        None => {
            if dd.features.len() > 0 {
                lemma_render_strlist_line_ok(dd.features);
                let a = seq!['{', ' '] + kw_features();
                lemma_line_ok_concat(seq!['{', ' '], kw_features());
                let b = a + seq![' ', '=', ' '];
                lemma_line_ok_concat(a, seq![' ', '=', ' ']);
                let c = b + render_strlist(dd.features);
                lemma_line_ok_concat(b, render_strlist(dd.features));
                lemma_line_ok_concat(c, seq![' ', '}']);
            }
        },
    }
}

proof fn lemma_render_kv_line_ok(k: Seq<char>, v: Seq<char>)
    requires
        line_ok(k),
        line_ok(v),
    ensures
        line_ok(render_kv(k, v)),
{
    lemma_line_ok_concat(k, seq![' ', '=', ' ']);
    lemma_line_ok_concat(k + seq![' ', '=', ' '], v);
}

proof fn lemma_render_dep_line_ok(k: Seq<char>, d: DependencyView)
    requires
        line_ok(k),
        crate::toml_utils::dep_valid(d),
    ensures
        line_ok(render_kv(k, render_dep(d))),
{
    match d {
        DependencyView::Simple(v) => lemma_render_qstr_line_ok(v),
        DependencyView::Detailed(dd) => lemma_render_detail_line_ok(dd),
    }
    lemma_render_kv_line_ok(k, render_dep(d));
}

proof fn lemma_render_header_line_ok(name: Seq<char>)
    requires
        line_ok(name),
    ensures
        line_ok(render_table_header(name)),
        line_ok(render_array_header(name)),
{
    lemma_line_ok_concat(seq!['['], name);
    lemma_line_ok_concat(seq!['['] + name, seq![']']);
    lemma_line_ok_concat(seq!['[', '['], name);
    lemma_line_ok_concat(seq!['[', '['] + name, seq![']', ']']);
}

proof fn lemma_dep_lines_ok(deps: Seq<(Seq<char>, DependencyView)>)
    requires
        forall|i: int|
            0 <= i < deps.len() ==> bare_key(#[trigger] deps[i].0) && crate::toml_utils::dep_valid(
                deps[i].1,
            ),
    ensures
        lines_ok(render_dep_lines(deps)),
    decreases deps.len(),
{
    if deps.len() > 0 {
        lemma_bare_line_ok(deps[0].0);
        lemma_render_dep_line_ok(deps[0].0, deps[0].1);
        assert forall|i: int|
            0 <= i < deps.skip(1).len() implies bare_key(#[trigger] deps.skip(1)[i].0)
                && crate::toml_utils::dep_valid(deps.skip(1)[i].1) by {
            assert(deps.skip(1)[i] == deps[i + 1]);
        }
        lemma_dep_lines_ok(deps.skip(1));
        lemma_lines_ok_concat(
            seq![render_kv(deps[0].0, render_dep(deps[0].1))],
            render_dep_lines(deps.skip(1)),
        );
    }
}

proof fn lemma_product_lines_ok(p: ProductView)
    requires
        crate::toml_utils::product_valid(p),
    ensures
        lines_ok(render_product_lines(p)),
{
    lemma_kw_line_ok();
    lemma_render_header_line_ok(kw_bin());
    let hdr = seq![render_array_header(kw_bin())];
    let ps = match p.path {
        Some(v) => seq![render_kv(kw_path(), render_qstr(v))],
        None => Seq::<Seq<char>>::empty(),
    };
    let ns = match p.name {
        Some(v) => seq![render_kv(kw_name(), render_qstr(v))],
        None => Seq::<Seq<char>>::empty(),
    };
    let rs = match p.required_features {
        Some(xs) => seq![render_kv(kw_required_features(), render_strlist(xs))],
        None => Seq::<Seq<char>>::empty(),
    };
    match p.path {
        Some(v) => {
            lemma_render_qstr_line_ok(v);
            lemma_render_kv_line_ok(kw_path(), render_qstr(v));
        },
        None => {},
    }
    match p.name {
        Some(v) => {
            lemma_render_qstr_line_ok(v);
            lemma_render_kv_line_ok(kw_name(), render_qstr(v));
        },
        None => {},
    }
    match p.required_features {
        Some(xs) => {
            lemma_render_strlist_line_ok(xs);
            lemma_render_kv_line_ok(kw_required_features(), render_strlist(xs));
        },
        None => {},
    }
    lemma_lines_ok_concat(hdr, ps);
    lemma_lines_ok_concat(hdr + ps, ns);
    lemma_lines_ok_concat(hdr + ps + ns, rs);
}

proof fn lemma_bin_lines_ok(bins: Seq<ProductView>)
    requires
        forall|i: int| 0 <= i < bins.len() ==> crate::toml_utils::product_valid(#[trigger] bins[i]),
    ensures
        lines_ok(render_bin_lines(bins)),
    decreases bins.len(),
{
    if bins.len() > 0 {
        lemma_product_lines_ok(bins[0]);
        assert forall|i: int|
            0 <= i < bins.skip(1).len() implies crate::toml_utils::product_valid(
            #[trigger] bins.skip(1)[i],
        ) by {
            assert(bins.skip(1)[i] == bins[i + 1]);
        }
        lemma_bin_lines_ok(bins.skip(1));
        lemma_lines_ok_concat(render_product_lines(bins[0]), render_bin_lines(bins.skip(1)));
    }
}

/// The canonical rendering of a well-formed descriptor holds no line
/// separator in any line.
pub proof fn lemma_render_lines_ok(m: ManifestView)
    requires
        crate::toml_utils::manifest_valid(m),
    ensures
        lines_ok(spec_render_lines(m)),
{
    lemma_kw_line_ok();
    lemma_render_qstr_line_ok(m.edition);
    lemma_render_kv_line_ok(kw_edition(), render_qstr(m.edition));
    lemma_render_header_line_ok(kw_package());
    lemma_render_qstr_line_ok(m.package.name);
    lemma_render_kv_line_ok(kw_name(), render_qstr(m.package.name));
    lemma_render_qstr_line_ok(m.package.version);
    lemma_render_kv_line_ok(kw_version(), render_qstr(m.package.version));
    lemma_render_header_line_ok(kw_dependencies());
    lemma_dep_lines_ok(m.dependencies);
    lemma_render_header_line_ok(kw_workspace());
    lemma_bin_lines_ok(m.bin);
    let s1 = seq![render_kv(kw_edition(), render_qstr(m.edition))];
    let s2 = seq![render_table_header(kw_package())];
    let s3 = seq![render_kv(kw_name(), render_qstr(m.package.name))];
    let s4 = seq![render_kv(kw_version(), render_qstr(m.package.version))];
    let s5 = seq![render_table_header(kw_dependencies())];
    let s6 = render_dep_lines(m.dependencies);
    let s7: Seq<Seq<char>> = if m.workspace {
        seq![render_table_header(kw_workspace())]
    } else {
        Seq::empty()
    };
    let s8 = render_bin_lines(m.bin);
    lemma_lines_ok_concat(s1, s2);
    lemma_lines_ok_concat(s1 + s2, s3);
    lemma_lines_ok_concat(s1 + s2 + s3, s4);
    lemma_lines_ok_concat(s1 + s2 + s3 + s4, s5);
    lemma_lines_ok_concat(s1 + s2 + s3 + s4 + s5, s6);
    lemma_lines_ok_concat(s1 + s2 + s3 + s4 + s5 + s6, s7);
    lemma_lines_ok_concat(s1 + s2 + s3 + s4 + s5 + s6 + s7, s8);
}

/// A bare key holds no whitespace, no bracket, no equals sign.
proof fn lemma_bare_chars(k: Seq<char>)
    requires
        bare_key(k),
    ensures
        !is_ws(k[0]),
        k[0] != '[',
        forall|j: int| 0 <= j < k.len() ==> #[trigger] k[j] != '=',
        k.len() > 0 ==> !is_ws(k[k.len() - 1]),
{
    assert(bare_key_char(k[0]));
    assert forall|j: int| 0 <= j < k.len() implies #[trigger] k[j] != '=' by {
        assert(bare_key_char(k[j]));
    }
    assert(bare_key_char(k[k.len() - 1]));
}

/// What classification makes of a rendered `key = value` line.
proof fn lemma_classify_kv(key: Seq<char>, vtext: Seq<char>, val: ValueView)
    requires
        bare_key(key),
        vtext.len() > 0,
        !is_ws(vtext[0]),
        !is_ws(vtext[vtext.len() - 1]),
        parse_value(vtext) == Some(val),
    ensures
        classify_line(render_kv(key, vtext)) == LineView::KeyVal(key, val),
{
    let t = render_kv(key, vtext);
    lemma_bare_chars(key);
    assert(t[0] == key[0]);
    assert(t[t.len() - 1] == vtext[vtext.len() - 1]);
    assert(spec_trim_start(t) == t);
    assert(spec_trim_end(t) == t);
    assert(t[0] != '[');
    assert forall|j: int| 0 <= j < key.len() + 1 implies t[j] != '=' by {
        if j < key.len() {
            assert(t[j] == key[j]);
        } else {
            assert(t[j] == ' ');
        }
    }
    assert(t[key.len() as int + 1] == '=');
    lemma_scan_to_is(t, 0, '=', key.len() as int + 1);
    let e = key.len() as int + 1;
    assert(e < t.len());
    let kpart = t.take(e);
    assert(kpart =~= key + seq![' ']);
    assert(is_ws(kpart[kpart.len() - 1]));
    assert(kpart.take(kpart.len() - 1) =~= key);
    assert(spec_trim_end(kpart) == spec_trim_end(key));
    assert(!is_ws(key[key.len() - 1]));
    assert(spec_trim_end(key) == key);
    let vpart = t.skip(e + 1);
    assert(vpart =~= seq![' '] + vtext);
    assert(is_ws(vpart[0]));
    assert(vpart.skip(1) =~= vtext);
    assert(spec_trim_start(vpart) == spec_trim_start(vtext));
    assert(spec_trim_start(vtext) == vtext);
}

/// What classification makes of a rendered `[section]` header.
proof fn lemma_classify_table_header(name: Seq<char>)
    requires
        bare_key(name),
    ensures
        classify_line(render_table_header(name)) == LineView::Table(name),
{
    let t = render_table_header(name);
    lemma_bare_chars(name);
    assert(t[0] == '[');
    assert(t[t.len() - 1] == ']');
    assert(!is_ws('[') && !is_ws(']'));
    assert(spec_trim_start(t) == t);
    assert(spec_trim_end(t) == t);
    assert(t[1] == name[0]);
    assert(bare_key_char(name[0]));
    assert(t[1] != '[');
    assert(t.subrange(1, t.len() - 1) =~= name);
}

/// What classification makes of the rendered `[[bin]]` header.
proof fn lemma_classify_bin_header()
    ensures
        classify_line(render_array_header(kw_bin())) == LineView::ArrayTable(kw_bin()),
{
    let t = render_array_header(kw_bin());
    assert(t =~= seq!['[', '[', 'b', 'i', 'n', ']', ']']);
    assert(!is_ws(t[0]) && !is_ws(t[6]));
    assert(spec_trim_start(t) == t);
    assert(spec_trim_end(t) == t);
    assert(t.subrange(2, 5) =~= kw_bin());
}

/// Running the dependency lines extends the mapping in order.
proof fn lemma_run_dep_lines(deps: Seq<(Seq<char>, DependencyView)>, st: ParseState)
    requires
        st.sec is Dependencies,
        crate::toml_utils::deps_sorted(st.m.dependencies + deps),
        forall|i: int|
            0 <= i < deps.len() ==> bare_key(#[trigger] deps[i].0) && crate::toml_utils::dep_valid(
                deps[i].1,
            ),
    ensures
        run_lines(render_dep_lines(deps), st) == Some(
            ParseState {
                m: ManifestView { dependencies: st.m.dependencies + deps, ..st.m },
                sec: Section::Dependencies,
            },
        ),
    decreases deps.len(),
{
    if deps.len() == 0 {
        assert(st.m.dependencies + deps =~= st.m.dependencies);
        assert(ManifestView { dependencies: st.m.dependencies + deps, ..st.m } == st.m);
        assert(st == ParseState {
            m: ManifestView { dependencies: st.m.dependencies + deps, ..st.m },
            sec: Section::Dependencies,
        });
    } else {
        let k = deps[0].0;
        let d = deps[0].1;
        let vtext = render_dep(d);
        let val = match d {
            DependencyView::Simple(s) => ValueView::VStr(s),
            DependencyView::Detailed(dd) => ValueView::VDetail(dd),
        };
        match d {
            DependencyView::Simple(s) => {
                lemma_parse_value_qstr(s);
                assert(vtext[0] == '"');
                assert(vtext[vtext.len() - 1] == '"');
            },
            DependencyView::Detailed(dd) => {
                lemma_parse_value_detail(dd);
                lemma_render_detail_shape(dd);
            },
        }
        lemma_classify_kv(k, vtext, val);
        let line = render_kv(k, vtext);
        assert forall|i: int|
            0 <= i < st.m.dependencies.len() implies lex_lt(
            #[trigger] st.m.dependencies[i].0,
            k,
        ) by {
            let all = st.m.dependencies + deps;
            assert(all[i] == st.m.dependencies[i]);
            assert(all[st.m.dependencies.len() as int] == deps[0]);
        }
        lemma_insert_dep_append(st.m.dependencies, k, d);
        let m2 = ManifestView { dependencies: st.m.dependencies.push((k, d)), ..st.m };
        let st2 = ParseState { m: m2, sec: Section::Dependencies };
        assert(apply_line(st, line) == Some(st2));
        assert(m2.dependencies + deps.skip(1) =~= st.m.dependencies + deps);
        assert forall|i: int|
            0 <= i < deps.skip(1).len() implies bare_key(#[trigger] deps.skip(1)[i].0)
                && crate::toml_utils::dep_valid(deps.skip(1)[i].1) by {
            assert(deps.skip(1)[i] == deps[i + 1]);
        }
        lemma_run_dep_lines(deps.skip(1), st2);
        assert(render_dep_lines(deps)[0] == line);
        assert(render_dep_lines(deps).skip(1) =~= render_dep_lines(deps.skip(1)));
        assert(ManifestView { dependencies: m2.dependencies + deps.skip(1), ..m2 }
            == ManifestView { dependencies: st.m.dependencies + deps, ..st.m });
    }
}

/// The shape of a rendered dependency detail: braces around it.
proof fn lemma_render_detail_shape(dd: DependencyDetailView)
    ensures
        render_detail(dd).len() >= 3,
        render_detail(dd)[0] == '{',
        render_detail(dd)[render_detail(dd).len() - 1] == '}',
{
}

/// Running one rendered binary-target block pushes exactly that target.
#[verifier::rlimit(100)]
#[verifier::spinoff_prover]
proof fn lemma_run_product_lines(p: ProductView, st: ParseState)
    requires
        crate::toml_utils::product_valid(p),
    ensures
        run_lines(render_product_lines(p), st) == Some(
            ParseState { m: ManifestView { bin: st.m.bin.push(p), ..st.m }, sec: Section::Bin },
        ),
{
    let hdr = seq![render_array_header(kw_bin())];
    let ps = match p.path {
        Some(v) => seq![render_kv(kw_path(), render_qstr(v))],
        None => Seq::<Seq<char>>::empty(),
    };
    let ns = match p.name {
        Some(v) => seq![render_kv(kw_name(), render_qstr(v))],
        None => Seq::<Seq<char>>::empty(),
    };
    let rs = match p.required_features {
        Some(xs) => seq![render_kv(kw_required_features(), render_strlist(xs))],
        None => Seq::<Seq<char>>::empty(),
    };
    assert(render_product_lines(p) == hdr + ps + ns + rs);
    lemma_classify_bin_header();
    let m1 = ManifestView { bin: st.m.bin.push(empty_product()), ..st.m };
    let st1 = ParseState { m: m1, sec: Section::Bin };
    assert(apply_line(st, render_array_header(kw_bin())) == Some(st1));
    assert(run_lines(hdr, st) == Some(st1)) by {
        reveal_with_fuel(run_lines, 3);
        assert(hdr.skip(1) =~= Seq::<Seq<char>>::empty());
    }
    let p1 = ProductView { path: p.path, name: None, required_features: None };
    let st2 = match p.path {
        Some(v) => ParseState {
            m: ManifestView { bin: st.m.bin.push(p1), ..st.m },
            sec: Section::Bin,
        },
        None => st1,
    };
    match p.path {
        Some(v) => {
            lemma_parse_value_qstr(v);
            lemma_classify_kv(kw_path(), render_qstr(v), ValueView::VStr(v));
            assert(m1.bin.len() == st.m.bin.len() + 1);
            assert(m1.bin[m1.bin.len() - 1] == empty_product());
            assert(m1.bin.update(m1.bin.len() - 1, p1) =~= st.m.bin.push(p1));
            assert(apply_line(st1, render_kv(kw_path(), render_qstr(v))) == Some(st2));
        },
        None => {
            assert(p1 == empty_product());
            assert(st.m.bin.push(p1) =~= m1.bin);
            assert(st2.m == m1);
        },
    }
    let p2 = ProductView { path: p.path, name: p.name, required_features: None };
    let st3 = ParseState {
        m: ManifestView { bin: st.m.bin.push(p2), ..st.m },
        sec: Section::Bin,
    };
    assert(st2.m.bin =~= st.m.bin.push(p1));
    match p.name {
        Some(v) => {
            lemma_parse_value_qstr(v);
            lemma_classify_kv(kw_name(), render_qstr(v), ValueView::VStr(v));
            assert(kw_name() != kw_path());
            assert(st2.m.bin[st2.m.bin.len() - 1] == p1);
            assert(st2.m.bin.update(st2.m.bin.len() - 1, p2) =~= st.m.bin.push(p2));
            assert(apply_line(st2, render_kv(kw_name(), render_qstr(v))) == Some(st3));
        },
        None => {
            assert(p2 == p1);
            assert(st3.m.bin =~= st2.m.bin);
            assert(st3.m == st2.m);
        },
    }
    let st4 = ParseState {
        m: ManifestView { bin: st.m.bin.push(p), ..st.m },
        sec: Section::Bin,
    };
    assert(st3.m.bin =~= st.m.bin.push(p2));
    match p.required_features {
        Some(xs) => {
            lemma_parse_value_list(xs);
            lemma_classify_kv(kw_required_features(), render_strlist(xs), ValueView::VList(xs));
            assert(kw_required_features() != kw_path());
            assert(kw_required_features() != kw_name());
            assert(st3.m.bin[st3.m.bin.len() - 1] == p2);
            assert(p == (ProductView { path: p.path, name: p.name, required_features: p.required_features }));
            assert(st3.m.bin.update(st3.m.bin.len() - 1, p) =~= st.m.bin.push(p));
            assert(apply_line(st3, render_kv(kw_required_features(), render_strlist(xs))) == Some(
                st4,
            ));
        },
        None => {
            assert(p == p2);
            assert(st4.m == st3.m);
        },
    }
    lemma_run_lines_concat(hdr, ps + ns + rs, st);
    lemma_run_lines_concat(ps, ns + rs, st1);
    lemma_run_lines_concat(ns, rs, st2);
    assert(hdr + (ps + ns + rs) =~= render_product_lines(p));
    assert(ps + ns + rs =~= ps + (ns + rs));
    match p.path {
        Some(v) => {
            assert(run_lines(ps, st1) == Some(st2)) by {
        reveal_with_fuel(run_lines, 3);
                assert(ps[0] == render_kv(kw_path(), render_qstr(v)));
                assert(ps.skip(1) =~= Seq::<Seq<char>>::empty());
            }
        },
        None => {
            assert(ps =~= Seq::<Seq<char>>::empty());
            assert(run_lines(ps, st1) == Some(st2));
        },
    }
    match p.name {
        Some(v) => {
            assert(run_lines(ns, st2) == Some(st3)) by {
        reveal_with_fuel(run_lines, 3);
                assert(ns[0] == render_kv(kw_name(), render_qstr(v)));
                assert(ns.skip(1) =~= Seq::<Seq<char>>::empty());
            }
        },
        None => {
            assert(ns =~= Seq::<Seq<char>>::empty());
            assert(run_lines(ns, st2) == Some(st3)) by {
        reveal_with_fuel(run_lines, 3);
                assert(st3 == st2);
            }
        },
    }
    match p.required_features {
        Some(xs) => {
            assert(run_lines(rs, st3) == Some(st4)) by {
        reveal_with_fuel(run_lines, 3);
                assert(rs[0] == render_kv(kw_required_features(), render_strlist(xs)));
                assert(rs.skip(1) =~= Seq::<Seq<char>>::empty());
            }
        },
        None => {
            assert(rs =~= Seq::<Seq<char>>::empty());
            assert(run_lines(rs, st3) == Some(st4)) by {
        reveal_with_fuel(run_lines, 3);
                assert(st4 == st3);
            }
        },
    }
}

/// Running the binary-target lines appends the targets in order.
proof fn lemma_run_bin_lines(bins: Seq<ProductView>, st: ParseState)
    requires
        forall|i: int| 0 <= i < bins.len() ==> crate::toml_utils::product_valid(#[trigger] bins[i]),
    ensures
        run_lines(render_bin_lines(bins), st) matches Some(st2) && st2.m == (ManifestView {
            bin: st.m.bin + bins,
            ..st.m
        }),
    decreases bins.len(),
{
    if bins.len() == 0 {
        assert(st.m.bin + bins =~= st.m.bin);
        assert(st.m == ManifestView { bin: st.m.bin + bins, ..st.m });
    } else {
        lemma_run_product_lines(bins[0], st);
        let st1 = ParseState {
            m: ManifestView { bin: st.m.bin.push(bins[0]), ..st.m },
            sec: Section::Bin,
        };
        assert forall|i: int|
            0 <= i < bins.skip(1).len() implies crate::toml_utils::product_valid(
            #[trigger] bins.skip(1)[i],
        ) by {
            assert(bins.skip(1)[i] == bins[i + 1]);
        }
        lemma_run_bin_lines(bins.skip(1), st1);
        lemma_run_lines_concat(render_product_lines(bins[0]), render_bin_lines(bins.skip(1)), st);
        assert(render_product_lines(bins[0]) + render_bin_lines(bins.skip(1)) =~= render_bin_lines(
            bins,
        ));
        assert(st1.m.bin + bins.skip(1) =~= st.m.bin + bins);
    }
}

/// Round trip: parsing the canonical rendering of any well-formed
/// descriptor yields a structurally equal descriptor.
#[verifier::rlimit(100)]
#[verifier::spinoff_prover]
pub proof fn lemma_manifest_round_trip(m: ManifestView)
    requires
        crate::toml_utils::manifest_valid(m),
    ensures
        spec_parse_manifest(spec_render_manifest(m)) == Some(m),
{
    let lines = spec_render_lines(m);
    lemma_render_lines_ok(m);
    crate::text::lemma_split_join_lines(lines);
    let st0 = init_state();
    let s1 = seq![render_kv(kw_edition(), render_qstr(m.edition))];
    let s2 = seq![render_table_header(kw_package())];
    let s3 = seq![render_kv(kw_name(), render_qstr(m.package.name))];
    let s4 = seq![render_kv(kw_version(), render_qstr(m.package.version))];
    let s5 = seq![render_table_header(kw_dependencies())];
    let s6 = render_dep_lines(m.dependencies);
    let s7: Seq<Seq<char>> = if m.workspace {
        seq![render_table_header(kw_workspace())]
    } else {
        Seq::empty()
    };
    let s8 = render_bin_lines(m.bin);
    assert(lines == s1 + s2 + s3 + s4 + s5 + s6 + s7 + s8);
    lemma_parse_value_qstr(m.edition);
    assert(bare_key(kw_edition()));
    lemma_classify_kv(kw_edition(), render_qstr(m.edition), ValueView::VStr(m.edition));
    let m1 = ManifestView { edition: m.edition, ..init_manifest_view() };
    let st1 = ParseState { m: m1, sec: Section::Top };
    assert(apply_line(st0, s1[0]) == Some(st1));
    assert(bare_key(kw_package()));
    lemma_classify_table_header(kw_package());
    let st2 = ParseState { m: m1, sec: Section::Package };
    assert(apply_line(st1, s2[0]) == Some(st2));
    lemma_parse_value_qstr(m.package.name);
    assert(bare_key(kw_name()));
    lemma_classify_kv(kw_name(), render_qstr(m.package.name), ValueView::VStr(m.package.name));
    let m3 = ManifestView {
        package: PackageView { name: m.package.name, ..m1.package },
        ..m1
    };
    let st3 = ParseState { m: m3, sec: Section::Package };
    assert(apply_line(st2, s3[0]) == Some(st3));
    lemma_parse_value_qstr(m.package.version);
    assert(bare_key(kw_version()));
    assert(kw_version() != kw_name());
    lemma_classify_kv(
        kw_version(),
        render_qstr(m.package.version),
        ValueView::VStr(m.package.version),
    );
    let m4 = ManifestView {
        package: PackageView { version: m.package.version, ..m3.package },
        ..m3
    };
    let st4 = ParseState { m: m4, sec: Section::Package };
    assert(apply_line(st3, s4[0]) == Some(st4));
    assert(m4.package == m.package);
    assert(bare_key(kw_dependencies()));
    lemma_classify_table_header(kw_dependencies());
    assert(kw_dependencies() != kw_package());
    let st5 = ParseState { m: m4, sec: Section::Dependencies };
    assert(apply_line(st4, s5[0]) == Some(st5));
    assert(m4.dependencies + m.dependencies =~= m.dependencies);
    lemma_run_dep_lines(m.dependencies, st5);
    let m6 = ManifestView { dependencies: m.dependencies, ..m4 };
    let st6 = ParseState { m: m6, sec: Section::Dependencies };
    assert(run_lines(s6, st5) == Some(st6)) by {
        reveal_with_fuel(run_lines, 3);
        assert(ManifestView { dependencies: m4.dependencies + m.dependencies, ..m4 } == m6);
    }
    let m7 = ManifestView { workspace: m.workspace, ..m6 };
    let st7 = if m.workspace {
        ParseState { m: m7, sec: Section::Workspace }
    } else {
        st6
    };
    if m.workspace {
        assert(bare_key(kw_workspace()));
        lemma_classify_table_header(kw_workspace());
        assert(kw_workspace() != kw_package());
        assert(kw_workspace() != kw_dependencies());
        assert(apply_line(st6, render_table_header(kw_workspace())) == Some(st7));
        assert(run_lines(s7, st6) == Some(st7)) by {
        reveal_with_fuel(run_lines, 3);
            assert(s7.skip(1) =~= Seq::<Seq<char>>::empty());
        }
    } else {
        assert(m7 == m6);
        assert(s7 =~= Seq::<Seq<char>>::empty());
        assert(run_lines(s7, st6) == Some(st7));
    }
    assert(st7.m == m7);
    lemma_run_bin_lines(m.bin, st7);
    assert(m7.bin + m.bin =~= m.bin);
    let st8 = run_lines(s8, st7);
    assert(st8 matches Some(stf) && stf.m == (ManifestView { bin: m.bin, ..m7 }));
    assert(ManifestView { bin: m.bin, ..m7 } == m);
    assert(run_lines(s1, st0) == Some(st1)) by {
        reveal_with_fuel(run_lines, 3);
        assert(s1.skip(1) =~= Seq::<Seq<char>>::empty());
    }
    assert(run_lines(s2, st1) == Some(st2)) by {
        reveal_with_fuel(run_lines, 3);
        assert(s2.skip(1) =~= Seq::<Seq<char>>::empty());
    }
    assert(run_lines(s3, st2) == Some(st3)) by {
        reveal_with_fuel(run_lines, 3);
        assert(s3.skip(1) =~= Seq::<Seq<char>>::empty());
    }
    assert(run_lines(s4, st3) == Some(st4)) by {
        reveal_with_fuel(run_lines, 3);
        assert(s4.skip(1) =~= Seq::<Seq<char>>::empty());
    }
    assert(run_lines(s5, st4) == Some(st5)) by {
        reveal_with_fuel(run_lines, 3);
        assert(s5.skip(1) =~= Seq::<Seq<char>>::empty());
    }
    lemma_run_lines_concat(s7, s8, st6);
    lemma_run_lines_concat(s6, s7 + s8, st5);
    lemma_run_lines_concat(s5, s6 + (s7 + s8), st4);
    lemma_run_lines_concat(s4, s5 + (s6 + (s7 + s8)), st3);
    lemma_run_lines_concat(s3, s4 + (s5 + (s6 + (s7 + s8))), st2);
    lemma_run_lines_concat(s2, s3 + (s4 + (s5 + (s6 + (s7 + s8)))), st1);
    lemma_run_lines_concat(s1, s2 + (s3 + (s4 + (s5 + (s6 + (s7 + s8))))), st0);
    assert(lines =~= s1 + (s2 + (s3 + (s4 + (s5 + (s6 + (s7 + s8)))))));
    assert(run_lines(lines, st0) == st8);
    assert(spec_parse_manifest(spec_render_manifest(m)) == Some(m));
}

/// Renders the whole descriptor, line by line.
pub fn render_manifest_lines(m: &CargoManifest) -> (r: Vec<Vec<char>>)
    ensures
        lines_view(r@) == spec_render_lines(m@),
{
    let mut r: Vec<Vec<char>> = Vec::new();
    let mut edition_value: Vec<char> = Vec::new();
    push_qstr(&mut edition_value, &m.edition);
    r.push(make_kv_line(kw_edition_chars(), edition_value));
    r.push(make_header(kw_package_chars()));
    let mut name_value: Vec<char> = Vec::new();
    push_qstr(&mut name_value, &m.package.name);
    r.push(make_kv_line(kw_name_chars(), name_value));
    let mut version_value: Vec<char> = Vec::new();
    push_qstr(&mut version_value, &m.package.version);
    r.push(make_kv_line(kw_version_chars(), version_value));
    r.push(make_header(kw_dependencies_chars()));
    let dep_lines = make_dep_lines(&m.dependencies, 0);
    append_lines(&mut r, dep_lines);
    if m.workspace {
        r.push(make_header(kw_workspace_chars()));
    }
    let bin_lines = make_bin_lines(&m.bin, 0);
    append_lines(&mut r, bin_lines);
    proof {
        assert(deps_view(m.dependencies@).skip(0) =~= deps_view(m.dependencies@));
        assert(bins_view(m.bin@).skip(0) =~= bins_view(m.bin@));
        assert(lines_view(r@) =~= spec_render_lines(m@));
    }
    r
}

/// The `features` keyword as characters.
fn kw_features_chars() -> (r: Vec<char>)
    ensures
        r@ == kw_features(),
{
    let r = vec!['f', 'e', 'a', 't', 'u', 'r', 'e', 's'];
    proof {
        assert(r@ =~= kw_features());
    }
    r
}

} // verus!
