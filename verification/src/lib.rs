//! Turn an in-memory directory tree into a single prompt document:
//! a rendered tree diagram followed by the contents of every visible file.
//!
//! The crate is organised around plain values: the caller (a thin I/O shell)
//! reads the file system into an [`tree::FsEntry`] value and hands it to
//! [`prompt::build_prompt`] or [`cleanup::cleanup_plan`]; everything the
//! engine decides — which entries are visible, in what order siblings are
//! rendered, what the final document says — is specified and proved here.

use vstd::prelude::*;

pub mod assemble;
pub mod cleanup;
pub mod collect;
pub mod pattern;
pub mod prompt;
pub mod walker;
pub mod text;
pub mod tree;

verus! {

/// How the engine can fail on in-memory input. Listing and deletion
/// failures of the real file system belong to the I/O shell around the
/// engine and never arise here.
#[derive(Clone, Copy, Debug, PartialEq, Eq, Structural)]
pub enum EngineError {
    /// The scan root handed in is not a directory.
    InvalidInput,
    /// An ignore entry is not a syntactically valid glob.
    InvalidPattern,
}

impl EngineError {
    /// A one-line description, for the shell to print.
    pub fn message(&self) -> (r: String)
        ensures
            *self == EngineError::InvalidInput ==> r@ == "the scan root is not a directory"@,
            *self == EngineError::InvalidPattern ==> r@
                == "an ignore entry is not a valid glob pattern"@,
    {
        match self {
            EngineError::InvalidInput => String::from_str("the scan root is not a directory"),
            EngineError::InvalidPattern => String::from_str(
                "an ignore entry is not a valid glob pattern",
            ),
        }
    }
}

/// One list after the other: how extra command-line ignore entries are
/// appended to the configured defaults.
pub fn merge(base: &Vec<String>, extra: &Vec<String>) -> (r: Vec<String>)
    ensures
        r@ == base@ + extra@,
{
    let mut out: Vec<String> = Vec::new();
    let mut i: usize = 0;
    while i < base.len()
        invariant
            i <= base@.len(),
            out@ == base@.take(i as int),
        decreases base@.len() - i,
    {
        out.push(base[i].clone());
        proof {
            assert(base@.take(i + 1) =~= base@.take(i as int).push(base@[i as int]));
        }
        i = i + 1;
    }
    proof {
        assert(base@.take(base@.len() as int) =~= base@);
    }
    let mut j: usize = 0;
    while j < extra.len()
        invariant
            j <= extra@.len(),
            out@ == base@ + extra@.take(j as int),
        decreases extra@.len() - j,
    {
        out.push(extra[j].clone());
        proof {
            assert(extra@.take(j + 1) =~= extra@.take(j as int).push(extra@[j as int]));
            assert(base@ + extra@.take(j as int).push(extra@[j as int]) =~= (base@ + extra@.take(
                j as int,
            )).push(extra@[j as int]));
        }
        j = j + 1;
    }
    proof {
        assert(extra@.take(extra@.len() as int) =~= extra@);
    }
    out
}

} // verus!
