//! Working over the script's own text: producing the pure compilable
//! source body, inferring external dependencies from import-like
//! statements, resolving the processing flags, and small path plumbing.

use crate::cmd_args::Opt;
use crate::cmd_args::ProcFlags;
use crate::errors::BuildRunError;
use crate::shared::OsPath;
use crate::text::chars_to_string;
use crate::text::is_ws;
use crate::text::join_lines;
use crate::text::lines_view;
use crate::text::spec_join_lines;
use crate::text::spec_split_lines;
use crate::text::spec_trim_end;
use crate::text::spec_trim_start;
use crate::text::split_lines;
use crate::text::str_to_chars;
use crate::text::trim_end_chars;
use crate::text::trim_start_chars;
use crate::toml_fmt::copy_range;
use crate::toml_fmt::scan_to;
use crate::toml_fmt::ws_end;
use crate::toml_fmt::ws_end_exec;
use crate::toml_utils::lex_lt;
use crate::toml_utils::lemma_lex_lt_trans;
use crate::toml_utils::lemma_lex_lt_trichotomy;
use crate::toml_utils::starts_marker;
use crate::toml_utils::str_lex_lt;
use crate::toml_utils::CargoManifest;
use vstd::prelude::*;
use vstd::string::StringExecFns;

verus! {

// ---------------------------------------------------------------------
// The pure source body.
// ---------------------------------------------------------------------
/// The pure compilable source: every line trimmed at the start, with the
/// descriptor comment lines removed.
pub open spec fn spec_pure_source_lines(lines: Seq<Seq<char>>) -> Seq<Seq<char>>
    decreases lines.len(),
{
    if lines.len() == 0 {
        Seq::empty()
    } else {
        let t = spec_trim_start(lines[0]);
        let rest = spec_pure_source_lines(lines.skip(1));
        if starts_marker(t) {
            rest
        } else {
            seq![t] + rest
        }
    }
}

/// What extracting the pure source body from a script yields.
pub open spec fn spec_pure_source(text: Seq<char>) -> Seq<char> {
    spec_join_lines(spec_pure_source_lines(spec_split_lines(text)))
}

/// Produces the pure compilable source body of a script: leading
/// whitespace trimmed from every line, descriptor comment lines dropped,
/// every kept line terminated by the line separator.
pub fn rs_extract_src(rs_contents: &str) -> (r: String)
    ensures
        r@ == spec_pure_source(rs_contents@),
{
    let v = str_to_chars(rs_contents);
    let lines = split_lines(&v);
    let mut kept: Vec<Vec<char>> = Vec::new();
    let n = lines.len();
    let mut i: usize = 0;
    proof {
        assert(lines_view(lines@).skip(0) =~= lines_view(lines@));
        assert(lines_view(kept@) =~= Seq::<Seq<char>>::empty());
    }
    while i < n
        invariant
            n == lines@.len(),
            i <= n,
            spec_pure_source_lines(lines_view(lines@)) == lines_view(kept@)
                + spec_pure_source_lines(lines_view(lines@).skip(i as int)),
        decreases n - i,
    {
        let ghost kept0 = lines_view(kept@);
        let t = trim_start_chars(&lines[i]);
        proof {
            assert(lines_view(lines@).skip(i as int)[0] == lines@[i as int]@);
        }
        if !(t.len() >= 3 && t[0] == '/' && t[1] == '/' && t[2] == '!') {
            kept.push(t);
            proof {
                assert(lines_view(kept@) =~= kept0.push(
                    spec_trim_start(lines@[i as int]@),
                ));
            }
        }
        i = i + 1;
        proof {
            let tail = lines_view(lines@).skip(i - 1);
            assert(tail.skip(1) =~= lines_view(lines@).skip(i as int));
            if !starts_marker(spec_trim_start(tail[0])) {
                assert(lines_view(kept@) + spec_pure_source_lines(tail.skip(1)) =~= kept0 + (seq![
                    spec_trim_start(tail[0]),
                ] + spec_pure_source_lines(tail.skip(1))));
            }
        }
    }
    proof {
        assert(lines_view(lines@).skip(n as int).len() == 0);
        assert(lines_view(kept@) + spec_pure_source_lines(lines_view(lines@).skip(n as int))
            =~= lines_view(kept@));
    }
    let joined = join_lines(&kept);
    chars_to_string(&joined)
}

// ---------------------------------------------------------------------
// Dependency inference.
// ---------------------------------------------------------------------
/// First index at or after `i` holding a capture stopper (`;` or `{`), or
/// `s.len()`.
pub open spec fn scan_stop(s: Seq<char>, i: int) -> int
    decreases s.len() - i,
{
    if i < 0 || i >= s.len() {
        s.len() as int
    } else if s[i] == ';' || s[i] == '{' {
        i
    } else {
        scan_stop(s, i + 1)
    }
}

pub proof fn lemma_scan_stop_is(s: Seq<char>, i: int, m: int)
    requires
        0 <= i <= m <= s.len(),
        forall|j: int| i <= j < m ==> s[j] != ';' && s[j] != '{',
        m < s.len() ==> (s[m] == ';' || s[m] == '{'),
    ensures
        scan_stop(s, i) == m,
    decreases m - i,
{
    if i < m {
        lemma_scan_stop_is(s, i + 1, m);
    }
}

/// The raw capture of a pattern: the text from `start` to the next
/// stopper, trimmed at both ends.
pub open spec fn capture_from(t: Seq<char>, start: int) -> Seq<char> {
    spec_trim_end(spec_trim_start(t.subrange(start, scan_stop(t, start))))
}

/// Case-insensitive test of one ASCII letter.
pub open spec fn ci(c: char, lower: char, upper: char) -> bool {
    c == lower || c == upper
}

/// An import-style statement: the word `use` followed by whitespace.
pub open spec fn is_use_start(t: Seq<char>) -> bool {
    t.len() >= 4 && ci(t[0], 'u', 'U') && ci(t[1], 's', 'S') && ci(t[2], 'e', 'E') && is_ws(t[3])
}

/// A macro-enabled-import annotation: `#[macro_use]`, whitespace, `::`,
/// whitespace, then the captured name.
pub open spec fn macro_use_capture(t: Seq<char>) -> Option<int> {
    if t.len() >= 12 && t[0] == '#' && t[1] == '[' && t[2] == 'm' && t[3] == 'a' && t[4] == 'c'
        && t[5] == 'r' && t[6] == 'o' && t[7] == '_' && t[8] == 'u' && t[9] == 's' && t[10] == 'e'
        && t[11] == ']' {
        let j = ws_end(t, 12);
        if j > 12 && j + 1 < t.len() && t[j] == ':' && t[j + 1] == ':' {
            let k = ws_end(t, j + 2);
            if k > j + 2 {
                Some(k)
            } else {
                None
            }
        } else {
            None
        }
    } else {
        None
    }
}

/// An explicit external-linkage declaration: `extern`, whitespace,
/// `crate`, whitespace, then the captured name.
pub open spec fn extern_crate_capture(t: Seq<char>) -> Option<int> {
    if t.len() >= 7 && ci(t[0], 'e', 'E') && ci(t[1], 'x', 'X') && ci(t[2], 't', 'T') && ci(
        t[3],
        'e',
        'E',
    ) && ci(t[4], 'r', 'R') && ci(t[5], 'n', 'N') && is_ws(t[6]) {
        let j = ws_end(t, 6);
        if j + 5 < t.len() && ci(t[j], 'c', 'C') && ci(t[j + 1], 'r', 'R') && ci(t[j + 2], 'a', 'A')
            && ci(t[j + 3], 't', 'T') && ci(t[j + 4], 'e', 'E') && is_ws(t[j + 5]) {
            Some(ws_end(t, j + 5))
        } else {
            None
        }
    } else {
        None
    }
}

/// The raw capture of one line, if any pattern matches it.
pub open spec fn line_capture(l: Seq<char>) -> Option<Seq<char>> {
    line_capture_trimmed(spec_trim_start(l))
}

pub open spec fn has_prefix(s: Seq<char>, p: Seq<char>) -> bool {
    p.len() <= s.len() && s.take(p.len() as int) == p
}

/// The fixed built-in namespace prefixes that never name an external
/// dependency.
pub open spec fn is_builtin(c: Seq<char>) -> bool {
    ||| has_prefix(c, seq!['s', 't', 'd'])
    ||| has_prefix(c, seq!['c', 'o', 'r', 'e'])
    ||| has_prefix(c, seq!['a', 'l', 'l', 'o', 'c'])
    ||| has_prefix(c, seq!['c', 'o', 'l', 'l', 'e', 'c', 't', 'i', 'o', 'n', 's'])
    ||| has_prefix(c, seq!['f', 'm', 't'])
}

/// The dependency name one line contributes, if any: the first path
/// segment of the capture, unless empty or a built-in namespace.
pub open spec fn line_candidate(l: Seq<char>) -> Option<Seq<char>> {
    match line_capture(l) {
        Some(c0) => {
            let c = spec_trim_end(c0.take(scan_to(c0, 0, ':')));
            if c.len() > 0 && !is_builtin(c) {
                Some(c)
            } else {
                None
            }
        },
        None => None,
    }
}

/// A line of the text names `n` as a dependency candidate.
pub open spec fn text_has_candidate(text: Seq<char>, n: Seq<char>) -> bool {
    exists|i: int|
        0 <= i < spec_split_lines(text).len() && line_candidate(#[trigger] spec_split_lines(
            text,
        )[i]) == Some(n)
}

/// The model of a sorted name list.
pub open spec fn names_view(ns: Seq<String>) -> Seq<Seq<char>> {
    ns.map_values(|s: String| s@)
}

/// A name list strictly sorted, hence without duplicates.
pub open spec fn names_sorted(ns: Seq<Seq<char>>) -> bool {
    forall|i: int, j: int| 0 <= i < j < ns.len() ==> lex_lt(#[trigger] ns[i], #[trigger] ns[j])
}

/// Inserts a name into a sorted list; a duplicate changes nothing.
pub open spec fn spec_insert_name(ns: Seq<Seq<char>>, k: Seq<char>) -> Seq<Seq<char>>
    decreases ns.len(),
{
    if ns.len() == 0 {
        seq![k]
    } else if lex_lt(k, ns[0]) {
        seq![k] + ns
    } else if k == ns[0] {
        ns
    } else {
        seq![ns[0]] + spec_insert_name(ns.skip(1), k)
    }
}

/// Insertion keeps the list sorted and its membership is the old
/// membership plus the new name.
pub proof fn lemma_insert_name_preserves(ns: Seq<Seq<char>>, k: Seq<char>)
    requires
        names_sorted(ns),
    ensures
        names_sorted(spec_insert_name(ns, k)),
        forall|n: Seq<char>|
            #[trigger] spec_insert_name(ns, k).contains(n) <==> (ns.contains(n) || n == k),
    decreases ns.len(),
{
    let r = spec_insert_name(ns, k);
    if ns.len() == 0 {
        assert(r[0] == k);
        assert forall|n: Seq<char>| #[trigger] r.contains(n) implies (ns.contains(n) || n == k) by {
            let w = choose|w: int| 0 <= w < r.len() && r[w] == n;
            assert(w == 0);
        }
    } else if lex_lt(k, ns[0]) {
        assert forall|i: int, j: int| 0 <= i < j < r.len() implies lex_lt(
            #[trigger] r[i],
            #[trigger] r[j],
        ) by {
            if i == 0 {
                if j > 1 {
                    assert(lex_lt(ns[0], ns[j - 1]));
                    lemma_lex_lt_trans(k, ns[0], ns[j - 1]);
                }
            } else {
                assert(r[i] == ns[i - 1]);
                assert(r[j] == ns[j - 1]);
            }
        }
        assert forall|n: Seq<char>| #[trigger] r.contains(n) implies (ns.contains(n) || n == k) by {
            let w = choose|w: int| 0 <= w < r.len() && r[w] == n;
            if w > 0 {
                assert(ns[w - 1] == n);
            }
        }
        assert forall|n: Seq<char>| (ns.contains(n) || n == k) implies #[trigger] r.contains(n) by {
            if ns.contains(n) {
                let w = choose|w: int| 0 <= w < ns.len() && ns[w] == n;
                assert(r[w + 1] == n);
            } else {
                assert(r[0] == n);
            }
        }
    } else if k == ns[0] {
        assert forall|n: Seq<char>| (ns.contains(n) || n == k) implies #[trigger] r.contains(n) by {
        }
    } else {
        lemma_lex_lt_trichotomy(k, ns[0]);
        assert(lex_lt(ns[0], k));
        let t = ns.skip(1);
        assert forall|i: int, j: int| 0 <= i < j < t.len() implies lex_lt(
            #[trigger] t[i],
            #[trigger] t[j],
        ) by {
            assert(t[i] == ns[i + 1]);
            assert(t[j] == ns[j + 1]);
        }
        lemma_insert_name_preserves(t, k);
        let rt = spec_insert_name(t, k);
        assert forall|i: int, j: int| 0 <= i < j < r.len() implies lex_lt(
            #[trigger] r[i],
            #[trigger] r[j],
        ) by {
            if i == 0 {
                assert(rt.contains(rt[j - 1]));
                assert(t.contains(rt[j - 1]) || rt[j - 1] == k);
                if rt[j - 1] == k {
                } else {
                    let w = choose|w: int| 0 <= w < t.len() && t[w] == rt[j - 1];
                    assert(ns[w + 1] == rt[j - 1]);
                }
            } else {
                assert(r[i] == rt[i - 1]);
                assert(r[j] == rt[j - 1]);
            }
        }
        assert forall|n: Seq<char>| #[trigger] r.contains(n) implies (ns.contains(n) || n == k) by {
            let w = choose|w: int| 0 <= w < r.len() && r[w] == n;
            if w == 0 {
                assert(ns.contains(ns[0]));
            } else {
                assert(rt[w - 1] == n);
                assert(rt.contains(n));
                if t.contains(n) {
                    let u = choose|u: int| 0 <= u < t.len() && t[u] == n;
                    assert(ns[u + 1] == n);
                }
            }
        }
        assert forall|n: Seq<char>| (ns.contains(n) || n == k) implies #[trigger] r.contains(n) by {
            if ns.contains(n) {
                let w = choose|w: int| 0 <= w < ns.len() && ns[w] == n;
                if w == 0 {
                    assert(r[0] == n);
                } else {
                    assert(t[w - 1] == n);
                    assert(t.contains(n));
                    assert(rt.contains(n));
                    let u = choose|u: int| 0 <= u < rt.len() && rt[u] == n;
                    assert(r[u + 1] == n);
                }
            } else {
                assert(rt.contains(k));
                let u = choose|u: int| 0 <= u < rt.len() && rt[u] == n;
                assert(r[u + 1] == n);
            }
        }
    }
}

/// Where the insertion lands, given the position of the first entry not
/// below the new name.
proof fn lemma_insert_name_at(ns: Seq<Seq<char>>, k: Seq<char>, p: int)
    requires
        0 <= p <= ns.len(),
        forall|i: int| 0 <= i < p ==> lex_lt(#[trigger] ns[i], k),
        p < ns.len() ==> !lex_lt(ns[p], k),
    ensures
        p < ns.len() && ns[p] == k ==> spec_insert_name(ns, k) == ns,
        !(p < ns.len() && ns[p] == k) ==> spec_insert_name(ns, k) == ns.take(p) + seq![k] + ns.skip(
            p,
        ),
    decreases ns.len(),
{
    if ns.len() == 0 {
        assert(ns.take(0) + seq![k] + ns.skip(0) =~= seq![k]);
    } else if p == 0 {
        lemma_lex_lt_trichotomy(k, ns[0]);
        if ns[0] != k {
            assert(lex_lt(k, ns[0]));
            assert(ns.take(0) + seq![k] + ns.skip(0) =~= seq![k] + ns);
        }
    } else {
        assert(lex_lt(ns[0], k));
        lemma_lex_lt_trichotomy(k, ns[0]);
        let t = ns.skip(1);
        assert forall|i: int| 0 <= i < p - 1 implies lex_lt(#[trigger] t[i], k) by {
            assert(t[i] == ns[i + 1]);
        }
        assert(p - 1 < t.len() ==> t[p - 1] == ns[p]);
        lemma_insert_name_at(t, k, p - 1);
        if p < ns.len() && ns[p] == k {
        } else {
            assert(seq![ns[0]] + (t.take(p - 1) + seq![k] + t.skip(p - 1)) =~= ns.take(p)
                + seq![k] + ns.skip(p));
        }
    }
}

/// Finds the first position whose name is not below `k`.
fn name_lower_bound(ns: &Vec<String>, k: &String) -> (p: usize)
    ensures
        p <= ns@.len(),
        forall|j: int| 0 <= j < p ==> lex_lt(#[trigger] names_view(ns@)[j], k@),
        p < ns@.len() ==> !lex_lt(names_view(ns@)[p as int], k@),
{
    let mut p: usize = 0;
    while p < ns.len()
        invariant
            p <= ns@.len(),
            forall|j: int| 0 <= j < p ==> lex_lt(#[trigger] names_view(ns@)[j], k@),
        decreases ns@.len() - p,
    {
        if !str_lex_lt(ns[p].as_str(), k.as_str()) {
            return p;
        }
        p = p + 1;
    }
    p
}

/// Inserts a name into a sorted vector, skipping duplicates.
fn insert_name(ns: &mut Vec<String>, k: String)
    ensures
        names_view(final(ns)@) == spec_insert_name(names_view(old(ns)@), k@),
{
    let ghost nv = names_view(ns@);
    let p = name_lower_bound(ns, &k);
    proof {
        lemma_insert_name_at(nv, k@, p as int);
    }
    if p < ns.len() && ns[p] == k {
        proof {
            assert(nv[p as int] == k@);
        }
    } else {
        let ghost kv = k@;
        ns.insert(p, k);
        proof {
            assert(names_view(ns@) =~= nv.take(p as int) + seq![kv] + nv.skip(p as int));
        }
    }
}

/// Finds the capture of one trimmed line, if a pattern matches.
fn line_capture_exec(t: &Vec<char>) -> (r: Option<Vec<char>>)
    ensures
        (r is Some) == (line_capture_trimmed(t@) is Some),
        r matches Some(c) ==> line_capture_trimmed(t@) == Some(c@),
{
    let n = t.len();
    if n >= 4 && (t[0] == 'u' || t[0] == 'U') && (t[1] == 's' || t[1] == 'S') && (t[2] == 'e'
        || t[2] == 'E') && crate::text::is_ws_char(t[3]) {
        let start = ws_end_exec(t, 3);
        Some(capture_from_exec(t, start))
    } else if n >= 12 && t[0] == '#' && t[1] == '[' && t[2] == 'm' && t[3] == 'a' && t[4] == 'c'
        && t[5] == 'r' && t[6] == 'o' && t[7] == '_' && t[8] == 'u' && t[9] == 's' && t[10] == 'e'
        && t[11] == ']' {
        let j = ws_end_exec(t, 12);
        if j > 12 && n - j >= 2 && t[j] == ':' && t[j + 1] == ':' {
            let k = ws_end_exec(t, j + 2);
            if k > j + 2 {
                Some(capture_from_exec(t, k))
            } else {
                None
            }
        } else {
            None
        }
    } else if n >= 7 && (t[0] == 'e' || t[0] == 'E') && (t[1] == 'x' || t[1] == 'X') && (t[2] == 't'
        || t[2] == 'T') && (t[3] == 'e' || t[3] == 'E') && (t[4] == 'r' || t[4] == 'R') && (t[5]
        == 'n' || t[5] == 'N') && crate::text::is_ws_char(t[6]) {
        let j = ws_end_exec(t, 6);
        if n - j >= 6 && (t[j] == 'c' || t[j] == 'C') && (t[j + 1] == 'r' || t[j + 1] == 'R') && (
        t[j + 2] == 'a' || t[j + 2] == 'A') && (t[j + 3] == 't' || t[j + 3] == 'T') && (t[j + 4]
            == 'e' || t[j + 4] == 'E') && crate::text::is_ws_char(t[j + 5]) {
            let start = ws_end_exec(t, j + 5);
            Some(capture_from_exec(t, start))
        } else {
            None
        }
    } else {
        None
    }
}

/// [`line_capture`] on a line already trimmed at the start.
pub open spec fn line_capture_trimmed(t: Seq<char>) -> Option<Seq<char>> {
    if is_use_start(t) {
        Some(capture_from(t, ws_end(t, 3)))
    } else {
        match macro_use_capture(t) {
            Some(start) => Some(capture_from(t, start)),
            None => match extern_crate_capture(t) {
                Some(start) => Some(capture_from(t, start)),
                None => None,
            },
        }
    }
}

/// The capture text from `start` to the next stopper, trimmed.
fn capture_from_exec(t: &Vec<char>, start: usize) -> (r: Vec<char>)
    requires
        start <= t@.len(),
    ensures
        r@ == capture_from(t@, start as int),
{
    let n = t.len();
    let mut j: usize = start;
    while j < n && t[j] != ';' && t[j] != '{'
        invariant
            start <= j <= n,
            n == t@.len(),
            forall|k: int| start <= k < j ==> t@[k] != ';' && t@[k] != '{',
        decreases n - j,
    {
        j = j + 1;
    }
    proof {
        lemma_scan_stop_is(t@, start as int, j as int);
    }
    let raw = copy_range(t, start, j);
    let t1 = trim_start_chars(&raw);
    trim_end_chars(&t1)
}

/// The dependency name one trimmed line contributes, if any.
fn line_candidate_exec(l: &Vec<char>) -> (r: Option<String>)
    ensures
        (r is Some) == (line_candidate(l@) is Some),
        r matches Some(c) ==> line_candidate(l@) == Some(c@),
{
    let t = trim_start_chars(l);
    match line_capture_exec(&t) {
        Some(c0) => {
            let e = crate::toml_fmt::scan_char(&c0, 0, ':');
            let seg = copy_range(&c0, 0, e);
            let c = trim_end_chars(&seg);
            proof {
                assert(c0@.subrange(0, e as int) =~= c0@.take(e as int));
            }
            if c.len() > 0 && !is_builtin_exec(&c) {
                Some(chars_to_string(&c))
            } else {
                None
            }
        },
        None => None,
    }
}

/// Checks one built-in namespace prefix.
fn has_prefix_exec(c: &Vec<char>, p: &Vec<char>) -> (r: bool)
    ensures
        r == has_prefix(c@, p@),
{
    if p.len() > c.len() {
        return false;
    }
    let mut i: usize = 0;
    while i < p.len()
        invariant
            p@.len() <= c@.len(),
            i <= p@.len(),
            forall|j: int| 0 <= j < i ==> c@[j] == p@[j],
        decreases p@.len() - i,
    {
        if c[i] != p[i] {
            proof {
                assert(c@.take(p@.len() as int)[i as int] != p@[i as int]);
            }
            return false;
        }
        i = i + 1;
    }
    proof {
        assert(c@.take(p@.len() as int) =~= p@);
    }
    true
}

/// Checks all built-in namespace prefixes.
fn is_builtin_exec(c: &Vec<char>) -> (r: bool)
    ensures
        r == is_builtin(c@),
{
    let p1 = vec!['s', 't', 'd'];
    let p2 = vec!['c', 'o', 'r', 'e'];
    let p3 = vec!['a', 'l', 'l', 'o', 'c'];
    let p4 = vec!['c', 'o', 'l', 'l', 'e', 'c', 't', 'i', 'o', 'n', 's'];
    let p5 = vec!['f', 'm', 't'];
    proof {
        assert(p1@ =~= seq!['s', 't', 'd']);
        assert(p2@ =~= seq!['c', 'o', 'r', 'e']);
        assert(p3@ =~= seq!['a', 'l', 'l', 'o', 'c']);
        assert(p4@ =~= seq!['c', 'o', 'l', 'l', 'e', 'c', 't', 'i', 'o', 'n', 's']);
        assert(p5@ =~= seq!['f', 'm', 't']);
    }
    has_prefix_exec(c, &p1) || has_prefix_exec(c, &p2) || has_prefix_exec(c, &p3)
        || has_prefix_exec(c, &p4) || has_prefix_exec(c, &p5)
}

/// Makes a best effort to infer external dependencies from the source
/// text: import statements, macro-enabled-import annotations and explicit
/// external-linkage declarations, with built-in namespaces filtered out.
/// The result is sorted and duplicate-free, and holds exactly the
/// candidates of the text's lines.
pub fn infer_dependencies(code: &str) -> (r: Vec<String>)
    ensures
        names_sorted(names_view(r@)),
        forall|n: Seq<char>|
            #[trigger] names_view(r@).contains(n) <==> text_has_candidate(code@, n),
{
    let v = str_to_chars(code);
    let lines = split_lines(&v);
    let mut r: Vec<String> = Vec::new();
    let n = lines.len();
    let mut i: usize = 0;
    proof {
        assert(names_view(r@) =~= Seq::<Seq<char>>::empty());
    }
    while i < n
        invariant
            n == lines@.len(),
            i <= n,
            lines_view(lines@) == spec_split_lines(code@),
            names_sorted(names_view(r@)),
            forall|m: Seq<char>|
                #[trigger] names_view(r@).contains(m) <==> (exists|j: int|
                    0 <= j < i && line_candidate(lines_view(lines@)[j]) == Some(m)),
        decreases n - i,
    {
        let ghost rv0 = names_view(r@);
        proof {
            assert(lines_view(lines@)[i as int] == lines@[i as int]@);
        }
        match line_candidate_exec(&lines[i]) {
            Some(name) => {
                let ghost nk = name@;
                proof {
                    lemma_insert_name_preserves(rv0, nk);
                }
                insert_name(&mut r, name);
                proof {
                    assert forall|m: Seq<char>| #[trigger]
                        names_view(r@).contains(m) <==> (exists|j: int|
                            0 <= j < i + 1 && line_candidate(lines_view(lines@)[j]) == Some(
                                m,
                            )) by {
                        if names_view(r@).contains(m) {
                            if m == nk {
                                assert(line_candidate(lines_view(lines@)[i as int]) == Some(m));
                            }
                        }
                        if exists|j: int|
                            0 <= j < i + 1 && line_candidate(lines_view(lines@)[j]) == Some(m) {
                            let j = choose|j: int|
                                0 <= j < i + 1 && line_candidate(lines_view(lines@)[j]) == Some(m);
                            if j < i {
                                assert(rv0.contains(m));
                            }
                        }
                    }
                }
            },
            None => {
                proof {
                    assert forall|m: Seq<char>| #[trigger]
                        names_view(r@).contains(m) <==> (exists|j: int|
                            0 <= j < i + 1 && line_candidate(lines_view(lines@)[j]) == Some(
                                m,
                            )) by {
                        if exists|j: int|
                            0 <= j < i + 1 && line_candidate(lines_view(lines@)[j]) == Some(m) {
                            let j = choose|j: int|
                                0 <= j < i + 1 && line_candidate(lines_view(lines@)[j]) == Some(m);
                            assert(j < i);
                        }
                    }
                }
            },
        }
        i = i + 1;
    }
    r
}

// ---------------------------------------------------------------------
// Flag resolution and source parsing.
// ---------------------------------------------------------------------
/// How the raw switches resolve: `all` implies generating and building,
/// `no_run` switches running off, and the shorthand "do everything" state
/// is recognized even when assembled from the individual switches.
pub open spec fn spec_resolve_flags(o: Opt) -> ProcFlags {
    ProcFlags {
        generate: o.generate || o.all,
        build: o.build || o.all,
        verbose: o.verbose,
        timings: o.timings,
        run: !o.no_run,
        all: o.all || (o.generate && o.build && !o.no_run),
    }
}

/// Resolves the raw command-line switches into the processing flags;
/// fails exactly when `all` and `no_run` are both set.
pub fn get_proc_flags(options: &Opt) -> (r: Result<ProcFlags, BuildRunError>)
    ensures
        (r is Ok) == !(options.all && options.no_run),
        r matches Ok(f) ==> f == spec_resolve_flags(*options),
        r matches Err(e) ==> e is ConflictingOptions,
{
    if options.all && options.no_run {
        return Err(
            BuildRunError::ConflictingOptions(
                String::from_str("conflicting options all and no_run specified"),
            ),
        );
    }
    let generate = options.generate || options.all;
    let build = options.build || options.all;
    let run = !options.no_run;
    let all = options.all || (options.generate && options.build && !options.no_run);
    Ok(
        ProcFlags {
            generate,
            build,
            verbose: options.verbose,
            timings: options.timings,
            run,
            all,
        },
    )
}

/// Parses a script's contents: the embedded descriptor (or the default
/// one) together with the pure source body.
pub fn parse_source(rs_full_source: &str) -> (r: Result<(CargoManifest, String), BuildRunError>)
    ensures
        (r is Ok) == (crate::toml_utils::spec_extract_manifest(rs_full_source@) is Some),
        r matches Ok(p) ==> Some(p.0@) == crate::toml_utils::spec_extract_manifest(
            rs_full_source@,
        ) && p.1@ == spec_pure_source(rs_full_source@),
        r matches Err(e) ==> e is DescriptorParse,
{
    let rs_manifest = match crate::toml_utils::rs_extract_toml(rs_full_source) {
        Ok(m) => m,
        Err(e) => {
            return Err(e);
        },
    };
    let rs_source = rs_extract_src(rs_full_source);
    Ok((rs_manifest, rs_source))
}

/// Turns a path as the operating system hands it over into text; fails
/// with an `Io` error when the path is not valid Unicode.
pub fn path_to_str(path: &OsPath) -> (r: Result<String, BuildRunError>)
    ensures
        path.text matches Some(s) ==> (r matches Ok(t) && t@ == s@),
        path.text is None ==> (r matches Err(e) && e is Io),
{
    match &path.text {
        Some(s) => Ok(s.clone()),
        None => Err(BuildRunError::Io(String::from_str("path is not valid Unicode"))),
    }
}

} // verus!
