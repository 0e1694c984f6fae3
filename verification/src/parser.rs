//! The parser: a grammar, a queue of tokens, and the walk over them.

use std::collections::VecDeque;
use vstd::prelude::*;
use crate::arg_parser::{called, ArgParser, Grammar};
use crate::error::{Failure, ParseError};
use crate::flag::{text_of, texts_of, Flag, FlagValue, FlagValueView};
use crate::scan::{
    assign,
    initial,
    lemma_step_consumes,
    long_attempt,
    long_step,
    passed_over,
    popped,
    resolve_abbr,
    resolve_long,
    run,
    scan,
    scan_end,
    solo_attempt,
    solo_step,
    step,
    unmet,
    with_defaults,
    LongMatch,
    ScanState,
    Values,
};
use crate::search::{lemma_first_index, lemma_first_index_is, lemma_first_index_push};
use crate::text::{
    char_is_alphabetic,
    dashed_char,
    is_lone_line_break,
    is_terminator,
    long_option,
    negated_name,
    LongOption,
};
use crate::values::FlagValues;

verus! {

/// What a long option name stands for, as found in a scope chain.
pub enum LongLookup {
    /// The name of this declaration.
    Declared(Flag),
    /// `no-` followed by the name of this declaration.
    Negated(Flag),
    /// Nothing, in any scope.
    Unknown,
}

impl View for LongLookup {
    type V = LongMatch;

    open spec fn view(&self) -> LongMatch {
        match self {
            LongLookup::Declared(flag) => LongMatch::Declared(flag@),
            LongLookup::Negated(flag) => LongMatch::Negated(flag@),
            LongLookup::Unknown => LongMatch::Unknown,
        }
    }
}

/// One level of parsing: a grammar, the tokens still to look at, and what has
/// been recorded and passed over so far. A parser with a parent looks up in
/// the parent's grammar what its own grammar does not declare.
#[derive(Debug)]
pub struct Parser {
    pub name: Option<String>,
    pub parent: Option<Box<Parser>>,
    pub grammar: ArgParser,
    pub rest: Vec<String>,
    pub args: VecDeque<String>,
    pub results: FlagValues,
}

impl Parser {
    /// The grammars in which this parser looks names up: its own, then its
    /// parent's, and so on outwards.
    pub open spec fn scopes(&self) -> Seq<Grammar>
        decreases self,
    {
        seq![self.grammar@] + match self.parent {
            Some(parent) => parent.scopes(),
            None => Seq::empty(),
        }
    }

    /// The moving part of this parser.
    pub open spec fn state(&self) -> ScanState {
        ScanState {
            args: texts_of(self.args@),
            results: self.results@,
            rest: texts_of(self.rest@),
        }
    }

    /// Whether `after` has the label, the grammar and the parent of `self`.
    pub open spec fn same_scope(&self, after: &Parser) -> bool {
        &&& after.name == self.name
        &&& after.grammar == self.grammar
        &&& after.parent == self.parent
    }

    /// Whether `after` and `outcome` are what an attempt on `self` leaves: an
    /// attempt that does not apply or that fails changes nothing.
    pub open spec fn reflects(
        &self,
        after: &Parser,
        attempt: Option<Result<ScanState, Failure>>,
        outcome: Result<bool, ParseError>,
    ) -> bool {
        &&& self.same_scope(after)
        &&& match attempt {
            None => outcome == Ok::<bool, ParseError>(false) && after.state() == self.state(),
            Some(Ok(st)) => outcome == Ok::<bool, ParseError>(true) && after.state() == st,
            Some(Err(failure)) => {
                &&& outcome matches Err(e)
                &&& e@ == failure
                &&& after.state() == self.state()
            },
        }
    }

    /// A parser for `grammar` at the start of `args`, with nothing recorded.
    pub fn new(
        name: Option<String>,
        grammar: ArgParser,
        args: Vec<String>,
        parent: Option<Parser>,
    ) -> (parser: Parser)
        ensures
            parser.name == name,
            parser.grammar == grammar,
            parser.parent == match parent {
                Some(p) => Some(Box::new(p)),
                None => None,
            },
            parser.scopes() == seq![grammar@] + match parent {
                Some(p) => p.scopes(),
                None => Seq::empty(),
            },
            parser.state() == initial(texts_of(args@)),
    {
        let ghost tokens = args@;
        let mut queue: VecDeque<String> = VecDeque::new();
        for token in it: args
            invariant
                it.seq() == tokens,
                queue@ == tokens.take(it.index() as int),
        {
            queue.push_back(token);
        }
        let parent = match parent {
            Some(p) => Some(Box::new(p)),
            None => None,
        };
        let parser = Parser {
            name,
            parent,
            grammar,
            rest: Vec::new(),
            args: queue,
            results: FlagValues::new(),
        };
        proof {
            assert(tokens.take(tokens.len() as int) =~= tokens);
            assert(texts_of(parser.rest@) =~= Seq::<Seq<char>>::empty());
        }
        parser
    }

    /// The token at the front of the queue.
    pub fn current(&self) -> (token: Option<&String>)
        ensures
            match token {
                Some(t) => self.args@.len() > 0 && *t == self.args@[0],
                None => self.args@.len() == 0,
            },
    {
        if self.args.len() > 0 {
            Some(&self.args[0])
        } else {
            None
        }
    }

    /// The declaration that `abbr` abbreviates in the innermost scope that
    /// has one.
    pub fn resolve_abbr(&self, abbr: char) -> (found: Option<Flag>)
        ensures
            match found {
                Some(flag) => resolve_abbr(self.scopes(), abbr) == Some(flag@),
                None => resolve_abbr(self.scopes(), abbr) is None,
            },
        decreases self,
    {
        proof {
            assert(self.scopes().drop_first() =~= match self.parent {
                Some(parent) => parent.scopes(),
                None => Seq::empty(),
            });
        }
        match self.grammar.find_by_abbr(abbr) {
            Some(flag) => Some(flag),
            None => match &self.parent {
                Some(parent) => parent.resolve_abbr(abbr),
                None => {
                    assert(resolve_abbr(Seq::<Grammar>::empty(), abbr) is None);
                    None
                },
            },
        }
    }

    /// What the long option name `name` stands for in the scope chain.
    pub fn resolve_long(&self, name: &str) -> (found: LongLookup)
        ensures
            found@ == resolve_long(self.scopes(), name@),
        decreases self,
    {
        proof {
            assert(self.scopes().drop_first() =~= match self.parent {
                Some(parent) => parent.scopes(),
                None => Seq::empty(),
            });
        }
        if let Some(flag) = self.grammar.find_by_name(name) {
            return LongLookup::Declared(flag.clone());
        }
        if let Some(base) = negated_name(name) {
            if let Some(flag) = self.grammar.find_by_name(base.as_str()) {
                return LongLookup::Negated(flag.clone());
            }
        }
        match &self.parent {
            Some(parent) => parent.resolve_long(name),
            None => {
                assert(resolve_long(Seq::<Grammar>::empty(), name@) is Unknown);
                LongLookup::Unknown
            },
        }
    }

    /// Removes the front token, if there is one.
    fn pop(&mut self)
        ensures
            old(self).same_scope(final(self)),
            final(self).state() == popped(old(self).state()),
    {
        let _ = self.args.pop_front();
        proof {
            assert(texts_of(self.args@) =~= popped(old(self).state()).args);
        }
    }

    /// Records `value` for `flag`.
    fn record(&mut self, flag: Flag, value: FlagValue)
        ensures
            old(self).same_scope(final(self)),
            final(self).state() == crate::scan::record(old(self).state(), flag@, value@),
    {
        self.results.insert(flag.name, value);
    }

    /// Takes the token that named `flag` off the queue and gives `flag` its
    /// value: presence for a switch, the inline value or else the next token
    /// for a value option.
    fn assign(&mut self, flag: Flag, inline: Option<String>) -> (outcome: Result<
        bool,
        ParseError,
    >)
        ensures
            old(self).reflects(
                final(self),
                Some(assign(popped(old(self).state()), flag@, text_of(inline))),
                outcome,
            ),
    {
        if flag.is_flag() {
            if inline.is_some() {
                return Err(ParseError::ExtraValue(flag.name));
            }
            self.pop();
            self.record(flag, FlagValue::Bool(true));
            return Ok(true);
        }
        match inline {
            Some(value) => {
                self.pop();
                self.record(flag, FlagValue::String(value));
            },
            None => {
                // The queue must hold the token that named the option and
                // the token that is its value.
                if self.args.len() < 2 {
                    return Err(ParseError::MissingValue(flag.name));
                }
                self.pop();
                let value = self.args.pop_front().unwrap();
                proof {
                    assert(texts_of(self.args@) =~= popped(old(self).state()).args.drop_first());
                }
                self.record(flag, FlagValue::String(value));
            },
        }
        Ok(true)
    }

    /// Handles the solo short option `-opt` at the front of the queue.
    pub fn handle_solo_option(&mut self, opt: char) -> (outcome: Result<bool, ParseError>)
        ensures
            old(self).reflects(
                final(self),
                Some(solo_step(old(self).scopes(), old(self).state(), opt)),
                outcome,
            ),
    {
        match self.resolve_abbr(opt) {
            Some(flag) => self.assign(flag, None),
            None => Err(ParseError::UnknownFlag(opt)),
        }
    }

    /// Handles the character after the dash of a two-character token, given
    /// whether it is alphabetic: a character that is not alphabetic makes no
    /// solo short option.
    pub fn accept_solo_option(&mut self, opt: char, alphabetic: bool) -> (outcome: Result<
        bool,
        ParseError,
    >)
        ensures
            old(self).reflects(
                final(self),
                if alphabetic {
                    Some(solo_step(old(self).scopes(), old(self).state(), opt))
                } else {
                    None
                },
                outcome,
            ),
    {
        if alphabetic {
            self.handle_solo_option(opt)
        } else {
            Ok(false)
        }
    }

    /// Tries the front token as a solo short option: `-a`, or `-a value`.
    pub fn parse_solo_option(&mut self) -> (outcome: Result<bool, ParseError>)
        requires
            old(self).args@.len() > 0,
        ensures
            old(self).reflects(
                final(self),
                solo_attempt(old(self).scopes(), old(self).state()),
                outcome,
            ),
    {
        match dashed_char(self.args[0].as_str()) {
            Some(opt) => {
                let alphabetic = char_is_alphabetic(opt);
                self.accept_solo_option(opt, alphabetic)
            },
            None => Ok(false),
        }
    }

    /// Handles the long option `--name` or `--name=value` at the front of the
    /// queue.
    pub fn handle_long_option(&mut self, name: &str, value: Option<&str>) -> (outcome: Result<
        bool,
        ParseError,
    >)
        ensures
            old(self).reflects(
                final(self),
                Some(
                    long_step(
                        old(self).scopes(),
                        old(self).state(),
                        name@,
                        match value {
                            Some(v) => Some(v@),
                            None => None,
                        },
                    ),
                ),
                outcome,
            ),
    {
        match self.resolve_long(name) {
            LongLookup::Declared(flag) => {
                let inline = match value {
                    Some(v) => Some(v.to_owned()),
                    None => None,
                };
                self.assign(flag, inline)
            },
            LongLookup::Negated(flag) => {
                if !flag.is_flag() {
                    return Err(ParseError::CannotNegateOption(name.to_owned()));
                }
                if !flag.is_negatable() {
                    return Err(ParseError::NotNegatable(name.to_owned()));
                }
                self.pop();
                self.record(flag, FlagValue::Bool(false));
                Ok(true)
            },
            LongLookup::Unknown => Err(ParseError::UnknownOption(name.to_owned())),
        }
    }

    /// Tries the front token as a long option: `--name`, `--name value` or
    /// `--name=value`.
    pub fn parse_long_option(&mut self) -> (outcome: Result<bool, ParseError>)
        requires
            old(self).args@.len() > 0,
        ensures
            old(self).reflects(
                final(self),
                long_attempt(old(self).scopes(), old(self).state()),
                outcome,
            ),
    {
        match long_option(self.args[0].as_str()) {
            LongOption::NotLong => Ok(false),
            LongOption::Invalid => Err(ParseError::InvalidLongOptionSyntax(self.args[0].clone())),
            LongOption::Named { name, value } => {
                match value {
                    Some(v) => {
                        if is_lone_line_break(v.as_str()) {
                            return Ok(false);
                        }
                        self.handle_long_option(name.as_str(), Some(v.as_str()))
                    },
                    None => self.handle_long_option(name.as_str(), None),
                }
            },
        }
    }

    /// Parses the queued tokens. The walk handles one token after another
    /// until the queue is empty or the terminator `--` is met. Then every
    /// required option must have a value or a default, defaults are filled
    /// in, and the tokens after the terminator join the tokens passed over.
    ///
    /// On failure the parser stays as it was when the failing step began.
    pub fn parse(&mut self) -> (outcome: Result<(), ParseError>)
        ensures
            old(self).same_scope(final(self)),
            match run(old(self).scopes(), old(self).state()) {
                Ok(st) => outcome is Ok && final(self).state() == st,
                Err(failure) => {
                    &&& outcome matches Err(e)
                    &&& e@ == failure
                    &&& final(self).state() == scan_end(old(self).scopes(), old(self).state())
                },
            },
    {
        let ghost scopes = self.scopes();
        let ghost start = self.state();
        loop
            invariant_except_break
                scan(scopes, self.state()) == scan(scopes, start),
                scan_end(scopes, self.state()) == scan_end(scopes, start),
            invariant
                old(self).same_scope(self),
                scopes == old(self).scopes(),
                start == old(self).state(),
                scopes == self.scopes(),
            ensures
                scan(scopes, start) == Ok::<ScanState, Failure>(self.state()),
                scan_end(scopes, start) == self.state(),
            decreases self.args@.len(),
        {
            if self.args.len() == 0 {
                break ;
            }
            if is_terminator(self.args[0].as_str()) {
                // The terminator itself is dropped; what follows it stays
                // in the queue for the end of the parse.
                self.pop();
                break ;
            }
            let ghost before = self.state();
            proof {
                lemma_step_consumes(scopes, before);
                assert(scan(scopes, before) == match step(scopes, before) {
                    Ok(next) => scan(scopes, next),
                    Err(failure) => Err(failure),
                });
                assert(scan_end(scopes, before) == match step(scopes, before) {
                    Ok(next) => scan_end(scopes, next),
                    Err(_) => before,
                });
            }
            match self.parse_solo_option() {
                Err(e) => {
                    return Err(e);
                },
                Ok(true) => {
                    continue ;
                },
                Ok(false) => {},
            }
            match self.parse_long_option() {
                Err(e) => {
                    return Err(e);
                },
                Ok(true) => {
                    continue ;
                },
                Ok(false) => {},
            }
            let token = self.args.pop_front().unwrap();
            self.rest.push(token);
            proof {
                assert(texts_of(self.args@) =~= passed_over(before).args);
                assert(texts_of(self.rest@) =~= passed_over(before).rest);
            }
        }
        let ghost scanned = self.state();
        let count = self.grammar.len();
        let mut at: usize = 0;
        while at < count
            invariant
                at <= count,
                count == self.grammar@.flags.len(),
                old(self).same_scope(self),
                scopes == old(self).scopes(),
                start == old(self).state(),
                scopes == self.scopes(),
                scan(scopes, start) == Ok::<ScanState, Failure>(scanned),
                scan_end(scopes, start) == scanned,
                scanned == self.state(),
                forall|j: int|
                    0 <= j < at ==> !unmet(scanned.results)(#[trigger] self.grammar@.flags[j]),
            decreases count - at,
        {
            let flag = self.grammar.flag_at(at);
            if flag.required && flag.default.is_none() && !self.results.contains_key(
                flag.name.as_str(),
            ) {
                proof {
                    lemma_first_index_is(
                        self.grammar@.flags,
                        unmet(scanned.results),
                        at as int,
                    );
                }
                return Err(ParseError::MissingRequiredOption(flag.name.clone()));
            }
            at += 1;
        }
        proof {
            lemma_first_index_is(self.grammar@.flags, unmet(scanned.results), at as int);
        }
        at = 0;
        while at < count
            invariant
                at <= count,
                count == self.grammar@.flags.len(),
                self.grammar@.names_distinct(),
                old(self).same_scope(self),
                self.state().args == scanned.args,
                self.state().rest == scanned.rest,
                self.results@ == with_defaults(
                    declared_up_to(self.grammar@, at as int),
                    scanned.results,
                ),
            decreases count - at,
        {
            proof {
                lemma_defaults_step(self.grammar@, scanned.results, at as int);
            }
            let flag = self.grammar.flag_at(at);
            if let Some(default) = &flag.default {
                // The default stands in only where the walk recorded nothing.
                if !self.results.contains_key(flag.name.as_str()) {
                    self.results.insert(flag.name.clone(), FlagValue::String(default.clone()));
                }
            }
            at += 1;
        }
        proof {
            assert(declared_up_to(self.grammar@, count as int) =~= self.grammar@) by {
                assert(self.grammar@.flags.take(count as int) =~= self.grammar@.flags);
            }
        }
        at = 0;
        let left = self.args.len();
        while at < left
            invariant
                at <= left,
                left == self.args@.len(),
                old(self).same_scope(self),
                self.state().args == scanned.args,
                self.state().results == with_defaults(self.grammar@, scanned.results),
                self.state().rest == scanned.rest + scanned.args.take(at as int),
            decreases left - at,
        {
            let ghost before = texts_of(self.rest@);
            self.rest.push(self.args[at].clone());
            proof {
                assert(texts_of(self.rest@) =~= before.push(scanned.args[at as int]));
                assert(scanned.args.take(at + 1) =~= scanned.args.take(at as int).push(
                    scanned.args[at as int],
                ));
                assert(before.push(scanned.args[at as int]) =~= scanned.rest
                    + scanned.args.take(at + 1));
            }
            at += 1;
        }
        proof {
            assert(scanned.args.take(left as int) =~= scanned.args);
        }
        Ok(())
    }
}

/// The grammar that declares only the first `n` options of `grammar`.
spec fn declared_up_to(grammar: Grammar, n: int) -> Grammar {
    Grammar { flags: grammar.flags.take(n), allows_anything: grammar.allows_anything }
}

/// Filling in defaults declaration by declaration: the next declaration adds
/// its default when it has one and its name has no value yet.
proof fn lemma_defaults_step(grammar: Grammar, results: Values, n: int)
    requires
        0 <= n < grammar.flags.len(),
        grammar.names_distinct(),
    ensures
        with_defaults(declared_up_to(grammar, n + 1), results) == {
            let flag = grammar.flags[n];
            let before = with_defaults(declared_up_to(grammar, n), results);
            if flag.default is Some && !before.contains_key(flag.name) {
                before.insert(flag.name, FlagValueView::Text(flag.default.unwrap()))
            } else {
                before
            }
        },
{
    let flag = grammar.flags[n];
    let shorter = declared_up_to(grammar, n);
    let longer = declared_up_to(grammar, n + 1);
    let before = with_defaults(shorter, results);
    let after = if flag.default is Some && !before.contains_key(flag.name) {
        before.insert(flag.name, FlagValueView::Text(flag.default.unwrap()))
    } else {
        before
    };
    assert(longer.flags =~= shorter.flags.push(flag));
    let filled = with_defaults(longer, results);
    assert forall|name: Seq<char>|
        {
            &&& #[trigger] filled.dom().contains(name) == after.dom().contains(name)
            &&& filled.dom().contains(name) ==> filled[name] == after[name]
        } by {
        lemma_first_index(shorter.flags, called(name));
        lemma_first_index_push(shorter.flags, flag, called(name));
        let at = shorter.position(name);
        if at < n {
            assert(longer.flags[at] == grammar.flags[at]);
            assert(shorter.flags[at] == grammar.flags[at]);
            assert(grammar.flags[at].name != grammar.flags[n].name);
        } else if name == flag.name {
            assert(longer.position(name) == n);
            assert(longer.flags[n] == flag);
        } else {
            assert(longer.position(name) == n + 1);
        }
    }
    assert(filled =~= after);
}

} // verus!
