//! The grammar: the set of options that a parser recognises.

use vstd::prelude::*;
use crate::error::ParseError;
use crate::flag::{text_of, texts_of, Flag, FlagType, FlagView};
use crate::parser::Parser;
use crate::result::ArgResult;
use crate::scan::parse_outcome;
use crate::search::{first_index, lemma_first_index, lemma_first_index_is};

verus! {

/// The mathematical content of an [`ArgParser`]: the declared options in the
/// order of their registration, and the toggle for unrecognised tokens.
pub struct Grammar {
    pub flags: Seq<FlagView>,
    pub allows_anything: bool,
}

/// The test for a declaration called `name`.
pub open spec fn called(name: Seq<char>) -> spec_fn(FlagView) -> bool {
    |f: FlagView| f.name == name
}

/// The test for a declaration abbreviated by `abbr`.
pub open spec fn abbreviated(abbr: char) -> spec_fn(FlagView) -> bool {
    |f: FlagView| f.abbr == Some(abbr)
}

impl Grammar {
    /// No two declarations share a name.
    pub open spec fn names_distinct(self) -> bool {
        forall|i: int, j: int|
            0 <= i < j < self.flags.len() ==> (#[trigger] self.flags[i]).name != (
            #[trigger] self.flags[j]).name
    }

    /// The index of the declaration called `name`, or the number of
    /// declarations when there is none.
    pub open spec fn position(self, name: Seq<char>) -> int {
        first_index(self.flags, called(name))
    }

    /// The declaration called `name`.
    pub open spec fn find_by_name(self, name: Seq<char>) -> Option<FlagView> {
        let at = self.position(name);
        if at < self.flags.len() {
            Some(self.flags[at])
        } else {
            None
        }
    }

    /// The first declaration, in registration order, abbreviated by `abbr`.
    pub open spec fn find_by_abbr(self, abbr: char) -> Option<FlagView> {
        let at = first_index(self.flags, abbreviated(abbr));
        if at < self.flags.len() {
            Some(self.flags[at])
        } else {
            None
        }
    }

    /// The grammar after registering `flag`: a declaration of the same name is
    /// overwritten in place, a new name is added at the end.
    pub open spec fn with_flag(self, flag: FlagView) -> Grammar {
        let at = self.position(flag.name);
        Grammar {
            flags: if at < self.flags.len() {
                self.flags.update(at, flag)
            } else {
                self.flags.push(flag)
            },
            allows_anything: self.allows_anything,
        }
    }
}

/// The declaration that registering a switch makes. A switch that defaults to
/// present carries the empty string as its default.
pub open spec fn switch_decl(
    name: Seq<char>,
    abbr: Option<char>,
    help: Option<Seq<char>>,
    defaults_to: bool,
    negatable: bool,
) -> FlagView {
    FlagView {
        name,
        abbr,
        help,
        value_help: None,
        possible_values: None,
        negatable,
        flag_type: FlagType::Flag,
        required: false,
        default: if defaults_to {
            Some(Seq::empty())
        } else {
            None
        },
    }
}

/// The declaration that registering a value option makes.
pub open spec fn option_decl(
    name: Seq<char>,
    abbr: Option<char>,
    help: Option<Seq<char>>,
    value_help: Option<Seq<char>>,
    possible_values: Option<Seq<Seq<char>>>,
    defaults_to: Option<Seq<char>>,
    required: bool,
) -> FlagView {
    FlagView {
        name,
        abbr,
        help,
        value_help,
        possible_values,
        negatable: false,
        flag_type: FlagType::Option,
        required,
        default: defaults_to,
    }
}

/// The views of a list of declarations.
pub open spec fn flag_views(flags: Seq<Flag>) -> Seq<FlagView> {
    Seq::new(flags.len(), |i: int| flags[i]@)
}

/// A grammar: the switches and value options that a command line may hold,
/// each under a name of its own. Registering a name again overwrites its
/// declaration.
#[derive(Debug)]
pub struct ArgParser {
    flags: Vec<Flag>,
    allows_anything: bool,
}

impl View for ArgParser {
    type V = Grammar;

    closed spec fn view(&self) -> Grammar {
        Grammar { flags: flag_views(self.flags@), allows_anything: self.allows_anything }
    }
}

impl ArgParser {
    #[verifier::type_invariant]
    spec fn names_distinct(&self) -> bool {
        self@.names_distinct()
    }

    /// A grammar without declarations, which does not allow unrecognised
    /// tokens.
    pub fn new() -> (grammar: ArgParser)
        ensures
            grammar@ == (Grammar { flags: Seq::empty(), allows_anything: false }),
    {
        let grammar = ArgParser { flags: Vec::new(), allows_anything: false };
        assert(grammar@.flags =~= Seq::empty());
        grammar
    }

    /// Sets the toggle for unrecognised tokens.
    pub fn allow_anything(&mut self, allow: bool) -> (grammar: &Self)
        ensures
            final(self)@ == (Grammar { flags: old(self)@.flags, allows_anything: allow }),
            grammar@ == final(self)@,
    {
        proof {
            use_type_invariant(&*self);
        }
        self.allows_anything = allow;
        self
    }

    /// Whether unrecognised tokens are allowed.
    pub fn allows_anything(&self) -> (allow: bool)
        ensures
            allow == self@.allows_anything,
    {
        self.allows_anything
    }

    /// Registers a switch called `name`, overwriting any declaration of that
    /// name.
    pub fn add_flag(
        &mut self,
        name: String,
        abbr: Option<char>,
        help: Option<String>,
        defaults_to: bool,
        negatable: bool,
    ) -> (grammar: &Self)
        ensures
            final(self)@ == old(self)@.with_flag(
                switch_decl(name@, abbr, text_of(help), defaults_to, negatable),
            ),
            grammar@ == final(self)@,
    {
        // A switch that defaults to present carries the empty string.
        let default = if defaults_to {
            Some(String::new())
        } else {
            None
        };
        let flag = Flag {
            name,
            abbr,
            help,
            value_help: None,
            possible_values: None,
            negatable,
            flag_type: FlagType::Flag,
            required: false,
            default,
        };
        self.register(flag);
        self
    }

    /// Registers a value option called `name`, overwriting any declaration of
    /// that name.
    pub fn add_option(
        &mut self,
        name: String,
        abbr: Option<char>,
        help: Option<String>,
        value_help: Option<String>,
        possible_values: Option<Vec<String>>,
        defaults_to: Option<String>,
        required: bool,
    ) -> (grammar: &Self)
        ensures
            final(self)@ == old(self)@.with_flag(
                option_decl(
                    name@,
                    abbr,
                    text_of(help),
                    text_of(value_help),
                    match possible_values {
                        Some(v) => Some(texts_of(v@)),
                        None => None,
                    },
                    text_of(defaults_to),
                    required,
                ),
            ),
            grammar@ == final(self)@,
    {
        let flag = Flag {
            name,
            abbr,
            help,
            value_help,
            possible_values,
            negatable: false,
            flag_type: FlagType::Option,
            required,
            default: defaults_to,
        };
        self.register(flag);
        self
    }

    /// Puts `flag` in the place of the declaration of its name, or at the end.
    fn register(&mut self, flag: Flag)
        ensures
            final(self)@ == old(self)@.with_flag(flag@),
    {
        proof {
            use_type_invariant(&*self);
            lemma_first_index(self@.flags, called(flag.name@));
        }
        let at = self.position_of(&flag.name);
        let ghost before = self@;
        let mut flags: Vec<Flag> = Vec::new();
        std::mem::swap(&mut flags, &mut self.flags);
        if at < flags.len() {
            flags.set(at, flag);
            assert(flag_views(flags@) =~= before.flags.update(at as int, flag@));
        } else {
            flags.push(flag);
            assert(flag_views(flags@) =~= before.flags.push(flag@));
        }
        self.flags = flags;
    }

    /// The index of the declaration called `name`, or the number of
    /// declarations.
    fn position_of(&self, name: &String) -> (at: usize)
        ensures
            at == self@.position(name@),
            at <= self.flags.len(),
    {
        let mut at: usize = 0;
        while at < self.flags.len() && !(self.flags[at].name == *name)
            invariant
                at <= self.flags.len(),
                forall|j: int| 0 <= j < at ==> (#[trigger] self@.flags[j]).name != name@,
            decreases self.flags.len() - at,
        {
            at += 1;
        }
        proof {
            lemma_first_index_is(self@.flags, called(name@), at as int);
        }
        at
    }

    /// The number of declarations. No two of them share a name.
    pub fn len(&self) -> (n: usize)
        ensures
            n == self@.flags.len(),
            self@.names_distinct(),
    {
        proof {
            use_type_invariant(self);
        }
        self.flags.len()
    }

    /// The declaration at `index`, in registration order.
    pub fn flag_at(&self, index: usize) -> (flag: &Flag)
        requires
            index < self@.flags.len(),
        ensures
            flag@ == self@.flags[index as int],
    {
        &self.flags[index]
    }

    /// The first declaration, in registration order, abbreviated by `abbr`.
    pub fn find_by_abbr(&self, abbr: char) -> (found: Option<Flag>)
        ensures
            match found {
                Some(flag) => self@.find_by_abbr(abbr) == Some(flag@),
                None => self@.find_by_abbr(abbr) is None,
            },
    {
        let mut at: usize = 0;
        while at < self.flags.len()
            invariant
                at <= self.flags.len(),
                forall|j: int| 0 <= j < at ==> (#[trigger] self@.flags[j]).abbr != Some(abbr),
            decreases self.flags.len() - at,
        {
            let hit = match self.flags[at].abbr {
                Some(c) => c == abbr,
                None => false,
            };
            if hit {
                proof {
                    lemma_first_index_is(self@.flags, abbreviated(abbr), at as int);
                }
                return Some(self.flags[at].clone());
            }
            at += 1;
        }
        proof {
            lemma_first_index_is(self@.flags, abbreviated(abbr), at as int);
        }
        None
    }

    /// The declaration called `name`.
    pub fn find_by_name(&self, name: &str) -> (found: Option<&Flag>)
        ensures
            match found {
                Some(flag) => self@.find_by_name(name@) == Some(flag@),
                None => self@.find_by_name(name@) is None,
            },
    {
        let name = name.to_owned();
        let at = self.position_of(&name);
        if at < self.flags.len() {
            Some(&self.flags[at])
        } else {
            None
        }
    }

    /// Parses `tokens` against this grammar. The grammar itself is left as it
    /// is, so one grammar serves any number of parses, each of which depends
    /// on the grammar and its own tokens alone.
    pub fn parse_from(&self, tokens: Vec<String>) -> (outcome: Result<ArgResult, ParseError>)
        ensures
            match parse_outcome(seq![self@], texts_of(tokens@)) {
                Ok(parsed) => outcome matches Ok(result) && result@ == parsed,
                Err(failure) => outcome matches Err(e) && e@ == failure,
            },
    {
        let mut parser = Parser::new(None, self.clone(), tokens, None);
        assert(parser.scopes() =~= seq![self@]);
        match parser.parse() {
            Ok(()) => Ok(ArgResult::new(&parser)),
            Err(e) => Err(e),
        }
    }
}

impl Default for ArgParser {
    fn default() -> (grammar: ArgParser)
        ensures
            grammar@ == (Grammar { flags: Seq::empty(), allows_anything: false }),
    {
        ArgParser::new()
    }
}

impl Clone for ArgParser {
    fn clone(&self) -> (copy: ArgParser)
        ensures
            copy@ == self@,
    {
        proof {
            use_type_invariant(self);
        }
        let mut flags: Vec<Flag> = Vec::new();
        let mut at: usize = 0;
        while at < self.flags.len()
            invariant
                at <= self.flags.len(),
                flags.len() == at,
                forall|j: int| 0 <= j < at ==> (#[trigger] flags[j])@ == self.flags[j]@,
            decreases self.flags.len() - at,
        {
            flags.push(self.flags[at].clone());
            at += 1;
        }
        assert(flag_views(flags@) =~= flag_views(self.flags@));
        ArgParser { flags, allows_anything: self.allows_anything }
    }
}

} // verus!
