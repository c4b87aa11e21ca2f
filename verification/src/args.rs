//! Where the raw token sequence comes from.

use crate::text::string_views;
use vstd::prelude::*;

verus! {

/// The source of the tokens handed to the matcher. Either way the first
/// token stands for the program and the second for the command.
pub enum Args {
    /// The arguments of the running process, as the host program was
    /// started with them.
    CommandLineArgs(Vec<String>),
    /// A sequence of tokens supplied by the caller, for embedding or for
    /// trying the matcher out.
    Vec(Vec<String>),
}

impl Args {
    /// The tokens as sequences of characters, in order.
    pub open spec fn tokens(&self) -> Seq<Seq<char>> {
        match self {
            Args::CommandLineArgs(tokens) => string_views(tokens@),
            Args::Vec(tokens) => string_views(tokens@),
        }
    }

    /// The tokens as owned strings, in order.
    pub fn to_vec(&self) -> (r: Vec<String>)
        ensures
            string_views(r@) == self.tokens(),
    {
        let source = match self {
            Args::CommandLineArgs(tokens) => tokens,
            Args::Vec(tokens) => tokens,
        };
        let mut out: Vec<String> = Vec::new();
        let mut i: usize = 0;
        while i < source.len()
            invariant
                i <= source.len(),
                out@.len() == i,
                forall|j: int| 0 <= j < i ==> (#[trigger] out@[j])@ == source@[j]@,
            decreases source.len() - i,
        {
            out.push(source[i].clone());
            i += 1;
        }
        assert(string_views(out@) =~= string_views(source@));
        out
    }
}

} // verus!
