//! What a successful parse hands back.

use vstd::prelude::*;
use crate::flag::texts_of;
use crate::parser::Parser;
use crate::scan::Parsed;
use crate::values::FlagValues;

verus! {

/// The outcome of a successful parse: the value of every option that was
/// given or has a default, and the tokens that no option consumed, in the
/// order in which they were given.
#[derive(Debug)]
pub struct ArgResult {
    pub flags: FlagValues,
    pub rest: Vec<String>,
}

impl View for ArgResult {
    type V = Parsed;

    open spec fn view(&self) -> Parsed {
        Parsed { flags: self.flags@, rest: texts_of(self.rest@) }
    }
}

impl ArgResult {
    /// A snapshot of what `parser` has recorded and passed over.
    pub fn new(parser: &Parser) -> (result: ArgResult)
        ensures
            result@ == (Parsed { flags: parser.state().results, rest: parser.state().rest }),
    {
        let result = ArgResult { flags: parser.results.clone(), rest: parser.rest.clone() };
        proof {
            assert(texts_of(result.rest@) =~= texts_of(parser.rest@));
        }
        result
    }
}

impl Clone for ArgResult {
    fn clone(&self) -> (copy: ArgResult)
        ensures
            copy@ == self@,
    {
        let copy = ArgResult { flags: self.flags.clone(), rest: self.rest.clone() };
        proof {
            assert(texts_of(copy.rest@) =~= texts_of(self.rest@));
        }
        copy
    }
}

} // verus!
