//! Raw command-line switches and the resolved processing-flag aggregate.
//!
//! `Opt` carries the switches exactly as the user gave them; `ProcFlags` is
//! the consistent, conflict-free action set the pipeline runs from. The
//! aggregate has a canonical text form, and rendering then re-parsing any
//! aggregate gives the same value back (proved in
//! [`lemma_proc_flags_round_trip`]).

use crate::errors::BuildRunError;
use crate::text::chars_to_string;
use crate::text::str_to_chars;
use vstd::prelude::*;
use vstd::string::StringExecFns;

verus! {

/// The raw command-line switches, before conflict checking and
/// default-completion.
#[derive(Debug, Clone, Copy, Default, PartialEq, Eq, Structural)]
pub struct Opt {
    pub generate: bool,
    pub build: bool,
    pub all: bool,
    pub no_run: bool,
    pub verbose: bool,
    pub timings: bool,
}

/// The resolved processing flags: a closed record of named booleans, so
/// that equality and the text round trip can be stated exactly.
#[derive(Debug, Clone, Copy, PartialEq, Eq, Structural)]
pub struct ProcFlags {
    pub generate: bool,
    pub build: bool,
    pub verbose: bool,
    pub timings: bool,
    pub run: bool,
    pub all: bool,
}

impl ProcFlags {
    /// The aggregate with every flag cleared.
    pub fn empty() -> (r: ProcFlags)
        ensures
            r == (ProcFlags {
                generate: false,
                build: false,
                verbose: false,
                timings: false,
                run: false,
                all: false,
            }),
    {
        ProcFlags {
            generate: false,
            build: false,
            verbose: false,
            timings: false,
            run: false,
            all: false,
        }
    }

    /// The canonical text form: one position per flag, in the fixed order
    /// generate, build, verbose, timings, run, all; a letter when the flag
    /// is set and `-` when it is not.
    pub open spec fn spec_render(self) -> Seq<char> {
        seq![
            if self.generate { 'g' } else { '-' },
            if self.build { 'b' } else { '-' },
            if self.verbose { 'v' } else { '-' },
            if self.timings { 't' } else { '-' },
            if self.run { 'r' } else { '-' },
            if self.all { 'a' } else { '-' },
        ]
    }

    /// Renders the aggregate to its canonical text form.
    pub fn to_text(&self) -> (r: String)
        ensures
            r@ == self.spec_render(),
    {
        let mut v: Vec<char> = Vec::new();
        v.push(if self.generate { 'g' } else { '-' });
        v.push(if self.build { 'b' } else { '-' });
        v.push(if self.verbose { 'v' } else { '-' });
        v.push(if self.timings { 't' } else { '-' });
        v.push(if self.run { 'r' } else { '-' });
        v.push(if self.all { 'a' } else { '-' });
        proof {
            assert(v@ =~= self.spec_render());
        }
        chars_to_string(&v)
    }

    /// Parses the canonical text form back into an aggregate.
    pub fn from_text(s: &str) -> (r: Result<ProcFlags, BuildRunError>)
        ensures
            r is Ok <==> spec_parse_flags(s@) is Some,
            r is Ok ==> spec_parse_flags(s@) == Some(r->Ok_0),
            r is Err ==> r->Err_0 is DescriptorParse,
    {
        let v = str_to_chars(s);
        if v.len() != 6 {
            return Err(
                BuildRunError::DescriptorParse(String::from_str("flag text must have six positions")),
            );
        }
        let generate = v[0] == 'g';
        let build = v[1] == 'b';
        let verbose = v[2] == 'v';
        let timings = v[3] == 't';
        let run = v[4] == 'r';
        let all = v[5] == 'a';
        if (generate || v[0] == '-') && (build || v[1] == '-') && (verbose || v[2] == '-') && (
        timings || v[3] == '-') && (run || v[4] == '-') && (all || v[5] == '-') {
            Ok(ProcFlags { generate, build, verbose, timings, run, all })
        } else {
            Err(BuildRunError::DescriptorParse(String::from_str("unknown flag letter")))
        }
    }
}

/// What parsing the canonical flag text yields: `None` on anything but six
/// positions each holding the right letter or `-`.
pub open spec fn spec_parse_flags(s: Seq<char>) -> Option<ProcFlags> {
    if s.len() == 6 && (s[0] == 'g' || s[0] == '-') && (s[1] == 'b' || s[1] == '-') && (s[2] == 'v'
        || s[2] == '-') && (s[3] == 't' || s[3] == '-') && (s[4] == 'r' || s[4] == '-') && (s[5]
        == 'a' || s[5] == '-') {
        Some(
            ProcFlags {
                generate: s[0] == 'g',
                build: s[1] == 'b',
                verbose: s[2] == 'v',
                timings: s[3] == 't',
                run: s[4] == 'r',
                all: s[5] == 'a',
            },
        )
    } else {
        None
    }
}

/// Round trip: rendering any flag aggregate to its canonical text form and
/// re-parsing that text yields an equal aggregate.
pub proof fn lemma_proc_flags_round_trip(f: ProcFlags)
    ensures
        spec_parse_flags(f.spec_render()) == Some(f),
{
}

} // verus!
