//! Character-level utilities shared by the descriptor format, the
//! extractor and the dependency inferrer. All logic works on `Vec<char>`
//! so that contracts can speak of `Seq<char>` directly; the two conversion
//! functions at the bottom bridge to `String`.

use vstd::prelude::*;
use vstd::string::StrSliceExecFns;

verus! {

/// Relies on `String::push`: appends the given character to the end of the
/// string.
pub assume_specification[ String::push ](s: &mut String, c: char)
    ensures
        final(s)@ == old(s)@.push(c),
;

/// Line-level whitespace: the blank characters that may surround tokens
/// within one line. The line separator itself is never one of them.
pub open spec fn is_ws(c: char) -> bool {
    c == ' ' || c == '\t' || c == '\r'
}

/// Executable mirror of [`is_ws`].
pub fn is_ws_char(c: char) -> (r: bool)
    ensures
        r == is_ws(c),
{
    c == ' ' || c == '\t' || c == '\r'
}

/// A line is plain text: it holds no line separator.
pub open spec fn line_ok(l: Seq<char>) -> bool {
    forall|j: int| 0 <= j < l.len() ==> l[j] != '\n'
}

/// Index of the first line separator in `s`, or `s.len()` if there is none.
pub open spec fn line_break(s: Seq<char>) -> int
    decreases s.len(),
{
    if s.len() == 0 {
        0
    } else if s[0] == '\n' {
        0
    } else {
        1 + line_break(s.skip(1))
    }
}

pub proof fn lemma_line_break(s: Seq<char>)
    ensures
        0 <= line_break(s) <= s.len(),
        forall|j: int| 0 <= j < line_break(s) ==> s[j] != '\n',
        line_break(s) < s.len() ==> s[line_break(s)] == '\n',
    decreases s.len(),
{
    if s.len() > 0 && s[0] != '\n' {
        lemma_line_break(s.skip(1));
        assert forall|j: int| 0 <= j < line_break(s) implies s[j] != '\n' by {
            if j > 0 {
                assert(s.skip(1)[j - 1] != '\n');
            }
        }
        if line_break(s) < s.len() {
            assert(s[line_break(s)] == s.skip(1)[line_break(s.skip(1))]);
        }
    }
}

/// `line_break` is the only index consistent with "no separator before it,
/// a separator (or the end) at it".
pub proof fn lemma_line_break_is(s: Seq<char>, m: int)
    requires
        0 <= m <= s.len(),
        forall|j: int| 0 <= j < m ==> s[j] != '\n',
        m < s.len() ==> s[m] == '\n',
    ensures
        line_break(s) == m,
    decreases s.len(),
{
    if m == 0 {
        if s.len() > 0 {
            assert(s[0] == '\n');
        }
    } else {
        assert(s[0] != '\n');
        let t = s.skip(1);
        assert forall|j: int| 0 <= j < m - 1 implies t[j] != '\n' by {
            assert(t[j] == s[j + 1]);
        }
        assert(m - 1 < t.len() ==> t[m - 1] == '\n');
        lemma_line_break_is(t, m - 1);
    }
}

/// Splits text into its lines. A final line without a trailing separator is
/// kept; a trailing separator adds no empty line.
pub open spec fn spec_split_lines(s: Seq<char>) -> Seq<Seq<char>>
    decreases s.len(),
    via spec_split_lines_decreases
{
    if s.len() == 0 {
        Seq::empty()
    } else {
        let i = line_break(s);
        if i < s.len() {
            seq![s.take(i)] + spec_split_lines(s.skip(i + 1))
        } else {
            seq![s]
        }
    }
}

#[via_fn]
proof fn spec_split_lines_decreases(s: Seq<char>) {
    if s.len() > 0 {
        lemma_line_break(s);
    }
}

/// Joins lines back into text, terminating every line with the separator.
pub open spec fn spec_join_lines(ls: Seq<Seq<char>>) -> Seq<char>
    decreases ls.len(),
{
    if ls.len() == 0 {
        Seq::empty()
    } else {
        ls[0] + seq!['\n'] + spec_join_lines(ls.skip(1))
    }
}

pub proof fn lemma_join_lines_push(ls: Seq<Seq<char>>, l: Seq<char>)
    ensures
        spec_join_lines(ls.push(l)) == spec_join_lines(ls) + l + seq!['\n'],
    decreases ls.len(),
{
    let p = ls.push(l);
    if ls.len() == 0 {
        assert(p.skip(1) =~= Seq::<Seq<char>>::empty());
        assert(p[0] == l);
        assert(spec_join_lines(p.skip(1)) == Seq::<char>::empty());
        assert(spec_join_lines(p) == p[0] + seq!['\n'] + spec_join_lines(p.skip(1)));
        assert(spec_join_lines(ls) == Seq::<char>::empty());
        assert(spec_join_lines(p) =~= spec_join_lines(ls) + l + seq!['\n']);
    } else {
        lemma_join_lines_push(ls.skip(1), l);
        assert(p.skip(1) =~= ls.skip(1).push(l));
        assert(p[0] == ls[0]);
        assert(spec_join_lines(p) == p[0] + seq!['\n'] + spec_join_lines(p.skip(1)));
        assert(spec_join_lines(p.skip(1)) == spec_join_lines(ls.skip(1)) + l + seq!['\n']);
        assert(spec_join_lines(ls) == ls[0] + seq!['\n'] + spec_join_lines(ls.skip(1)));
        assert(spec_join_lines(p) =~= spec_join_lines(ls) + l + seq!['\n']);
    }
}

/// Round trip at the line level: joining any sequence of separator-free
/// lines and splitting the result gives the lines back.
pub proof fn lemma_split_join_lines(ls: Seq<Seq<char>>)
    requires
        forall|i: int| 0 <= i < ls.len() ==> line_ok(#[trigger] ls[i]),
    ensures
        spec_split_lines(spec_join_lines(ls)) == ls,
    decreases ls.len(),
{
    if ls.len() == 0 {
        assert(spec_split_lines(spec_join_lines(ls)) =~= ls);
    } else {
        let s = spec_join_lines(ls);
        let head = ls[0];
        let rest = spec_join_lines(ls.skip(1));
        assert(s == head + seq!['\n'] + rest);
        assert forall|j: int| 0 <= j < head.len() implies s[j] != '\n' by {
            assert(s[j] == head[j]);
            assert(line_ok(head));
        }
        assert(s[head.len() as int] == '\n');
        lemma_line_break_is(s, head.len() as int);
        assert(s.take(head.len() as int) =~= head);
        assert(s.skip(head.len() as int + 1) =~= rest);
        assert forall|i: int| 0 <= i < ls.skip(1).len() implies line_ok(#[trigger] ls.skip(1)[i]) by {
            assert(ls.skip(1)[i] == ls[i + 1]);
        }
        lemma_split_join_lines(ls.skip(1));
        assert(spec_split_lines(s) =~= seq![head] + ls.skip(1));
        assert(seq![head] + ls.skip(1) =~= ls);
    }
}

/// The views of a vector of character vectors, line by line.
pub open spec fn lines_view(ls: Seq<Vec<char>>) -> Seq<Seq<char>> {
    ls.map_values(|l: Vec<char>| l@)
}

/// Splits a character vector into its lines.
pub fn split_lines(s: &Vec<char>) -> (r: Vec<Vec<char>>)
    ensures
        lines_view(r@) == spec_split_lines(s@),
        forall|i: int| 0 <= i < r@.len() ==> line_ok(#[trigger] r@[i]@),
{
    let n = s.len();
    let mut r: Vec<Vec<char>> = Vec::new();
    let mut i: usize = 0;
    proof {
        assert(s@.skip(0) =~= s@);
        assert(lines_view(r@) + spec_split_lines(s@) =~= spec_split_lines(s@));
    }
    while i < n
        invariant
            n == s@.len(),
            i <= n,
            spec_split_lines(s@) == lines_view(r@) + spec_split_lines(s@.skip(i as int)),
            forall|k: int| 0 <= k < r@.len() ==> line_ok(#[trigger] r@[k]@),
        decreases n - i,
    {
        let ghost r0 = r@;
        let mut line: Vec<char> = Vec::new();
        let mut j: usize = i;
        while j < n && s[j] != '\n'
            invariant
                n == s@.len(),
                i <= j <= n,
                line@ == s@.subrange(i as int, j as int),
                forall|k: int| i <= k < j ==> s@[k] != '\n',
            decreases n - j,
        {
            line.push(s[j]);
            j = j + 1;
            proof {
                assert(line@ =~= s@.subrange(i as int, j as int));
            }
        }
        proof {
            let t = s@.skip(i as int);
            assert forall|k: int| 0 <= k < j - i implies t[k] != '\n' by {
                assert(t[k] == s@[i + k]);
            }
            if j < n {
                assert(t[j - i] == s@[j as int]);
            }
            lemma_line_break_is(t, j - i);
            assert(t.take(j - i) =~= s@.subrange(i as int, j as int));
        }
        r.push(line);
        if j < n {
            proof {
                let t = s@.skip(i as int);
                assert(t.skip(j - i + 1) =~= s@.skip(j + 1));
                assert(spec_split_lines(t) == seq![t.take(j - i)] + spec_split_lines(
                    s@.skip(j + 1),
                ));
                assert(lines_view(r@) =~= lines_view(r0).push(s@.subrange(i as int, j as int)));
                assert(lines_view(r@) + spec_split_lines(s@.skip(j + 1)) =~= lines_view(r0)
                    + spec_split_lines(s@.skip(i as int)));
            }
            i = j + 1;
        } else {
            proof {
                let t = s@.skip(i as int);
                assert(t.len() > 0);
                assert(spec_split_lines(t) == seq![t]);
                assert(t =~= s@.subrange(i as int, j as int));
                assert(lines_view(r@) =~= lines_view(r0).push(t));
                assert(s@.skip(n as int).len() == 0);
                assert(spec_split_lines(s@.skip(n as int)) =~= Seq::<Seq<char>>::empty());
                assert(lines_view(r@) + spec_split_lines(s@.skip(n as int)) =~= lines_view(r0)
                    + spec_split_lines(s@.skip(i as int)));
            }
            i = n;
        }
    }
    proof {
        assert(s@.skip(n as int).len() == 0);
        assert(spec_split_lines(s@.skip(n as int)) =~= Seq::<Seq<char>>::empty());
        assert(lines_view(r@) + spec_split_lines(s@.skip(n as int)) =~= lines_view(r@));
        assert forall|i2: int| 0 <= i2 < r@.len() implies line_ok(#[trigger] r@[i2]@) by {}
    }
    r
}

/// Joins lines into one character vector, terminating each with the
/// separator.
pub fn join_lines(ls: &Vec<Vec<char>>) -> (r: Vec<char>)
    ensures
        r@ == spec_join_lines(lines_view(ls@)),
{
    let mut r: Vec<char> = Vec::new();
    let mut i: usize = 0;
    while i < ls.len()
        invariant
            i <= ls@.len(),
            r@ == spec_join_lines(lines_view(ls@.take(i as int))),
        decreases ls@.len() - i,
    {
        let ghost rprev = r@;
        let line = &ls[i];
        let mut j: usize = 0;
        while j < line.len()
            invariant
                j <= line@.len(),
                r@ == rprev + line@.take(j as int),
            decreases line@.len() - j,
        {
            r.push(line[j]);
            j = j + 1;
            proof {
                assert(r@ =~= rprev + line@.take(j as int));
            }
        }
        r.push('\n');
        i = i + 1;
        proof {
            assert(line@.take(line@.len() as int) =~= line@);
            lemma_join_lines_push(lines_view(ls@.take(i - 1)), line@);
            assert(lines_view(ls@.take(i as int)) =~= lines_view(ls@.take(i - 1)).push(line@));
            assert(r@ =~= spec_join_lines(lines_view(ls@.take(i as int))));
        }
    }
    proof {
        assert(ls@.take(ls@.len() as int) =~= ls@);
    }
    r
}

/// Leading line-level whitespace removed.
pub open spec fn spec_trim_start(s: Seq<char>) -> Seq<char>
    decreases s.len(),
{
    if s.len() > 0 && is_ws(s[0]) {
        spec_trim_start(s.skip(1))
    } else {
        s
    }
}

pub proof fn lemma_trim_start_is(s: Seq<char>, k: int)
    requires
        0 <= k <= s.len(),
        forall|j: int| 0 <= j < k ==> is_ws(s[j]),
        k < s.len() ==> !is_ws(s[k]),
    ensures
        spec_trim_start(s) == s.skip(k),
    decreases s.len(),
{
    if k == 0 {
        assert(s.skip(0) =~= s);
    } else {
        assert(is_ws(s[0]));
        let t = s.skip(1);
        assert forall|j: int| 0 <= j < k - 1 implies is_ws(t[j]) by {
            assert(t[j] == s[j + 1]);
        }
        assert(k - 1 < t.len() ==> !is_ws(t[k - 1]));
        lemma_trim_start_is(t, k - 1);
        assert(t.skip(k - 1) =~= s.skip(k));
    }
}

/// Removes leading line-level whitespace from a character vector.
pub fn trim_start_chars(s: &Vec<char>) -> (r: Vec<char>)
    ensures
        r@ == spec_trim_start(s@),
{
    let n = s.len();
    let mut k: usize = 0;
    while k < n && is_ws_char(s[k])
        invariant
            n == s@.len(),
            k <= n,
            forall|j: int| 0 <= j < k ==> is_ws(s@[j]),
        decreases n - k,
    {
        k = k + 1;
    }
    proof {
        lemma_trim_start_is(s@, k as int);
    }
    let mut r: Vec<char> = Vec::new();
    let mut i: usize = k;
    while i < n
        invariant
            n == s@.len(),
            k <= i <= n,
            r@ == s@.subrange(k as int, i as int),
        decreases n - i,
    {
        r.push(s[i]);
        i = i + 1;
        proof {
            assert(r@ =~= s@.subrange(k as int, i as int));
        }
    }
    proof {
        assert(r@ =~= s@.skip(k as int));
    }
    r
}

/// Trailing line-level whitespace removed.
pub open spec fn spec_trim_end(s: Seq<char>) -> Seq<char>
    decreases s.len(),
{
    if s.len() > 0 && is_ws(s[s.len() - 1]) {
        spec_trim_end(s.take(s.len() - 1))
    } else {
        s
    }
}

pub proof fn lemma_trim_end_is(s: Seq<char>, k: int)
    requires
        0 <= k <= s.len(),
        forall|j: int| k <= j < s.len() ==> is_ws(s[j]),
        k > 0 ==> !is_ws(s[k - 1]),
    ensures
        spec_trim_end(s) == s.take(k),
    decreases s.len(),
{
    if k == s.len() {
        assert(s.take(k) =~= s);
    } else {
        assert(is_ws(s[s.len() - 1]));
        let t = s.take(s.len() - 1);
        assert forall|j: int| k <= j < t.len() implies is_ws(t[j]) by {
            assert(t[j] == s[j]);
        }
        lemma_trim_end_is(t, k);
        assert(t.take(k) =~= s.take(k));
    }
}

/// Removes trailing line-level whitespace from a character vector.
pub fn trim_end_chars(s: &Vec<char>) -> (r: Vec<char>)
    ensures
        r@ == spec_trim_end(s@),
{
    let n = s.len();
    let mut k: usize = n;
    while k > 0 && is_ws_char(s[k - 1])
        invariant
            n == s@.len(),
            k <= n,
            forall|j: int| k <= j < n ==> is_ws(s@[j]),
        decreases k,
    {
        k = k - 1;
    }
    proof {
        lemma_trim_end_is(s@, k as int);
    }
    let mut r: Vec<char> = Vec::new();
    let mut i: usize = 0;
    while i < k
        invariant
            k <= s@.len(),
            i <= k,
            r@ == s@.subrange(0, i as int),
        decreases k - i,
    {
        r.push(s[i]);
        i = i + 1;
        proof {
            assert(r@ =~= s@.subrange(0, i as int));
        }
    }
    proof {
        assert(r@ =~= s@.take(k as int));
    }
    r
}

/// Copies the characters of a string slice into a vector.
pub fn str_to_chars(s: &str) -> (r: Vec<char>)
    ensures
        r@ == s@,
{
    let n = s.unicode_len();
    let mut r: Vec<char> = Vec::new();
    let mut i: usize = 0;
    while i < n
        invariant
            n == s@.len(),
            i <= n,
            r@ == s@.take(i as int),
        decreases n - i,
    {
        r.push(s.get_char(i));
        i = i + 1;
        proof {
            assert(r@ =~= s@.take(i as int));
        }
    }
    proof {
        assert(r@ =~= s@);
    }
    r
}

/// Builds a string out of a vector of characters.
pub fn chars_to_string(v: &Vec<char>) -> (r: String)
    ensures
        r@ == v@,
{
    let mut r = String::new();
    let mut i: usize = 0;
    while i < v.len()
        invariant
            i <= v@.len(),
            r@ == v@.take(i as int),
        decreases v@.len() - i,
    {
        r.push(v[i]);
        i = i + 1;
        proof {
            assert(r@ =~= v@.take(i as int));
        }
    }
    proof {
        assert(r@ =~= v@);
    }
    r
}

} // verus!
