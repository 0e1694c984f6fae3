//! What parsing means: the walk over the tokens, as mathematics.
//!
//! A scope chain is a sequence of grammars: first the parser's own, then its
//! parent's, and so on outwards. The walk looks names up along the chain; what
//! it consumes and records belongs to the innermost parser alone.

use vstd::prelude::*;
use crate::arg_parser::Grammar;
use crate::error::Failure;
use crate::flag::{FlagType, FlagValueView, FlagView};
use crate::search::first_index;
use crate::text::{dashed, is_alphabetic, is_line_break, long_form, negated, terminator, LongForm};

verus! {

/// A list of tokens.
pub type Tokens = Seq<Seq<char>>;

/// Recorded values by option name.
pub type Values = Map<Seq<char>, FlagValueView>;

/// The moving part of a parser: the tokens not yet looked at, the values
/// recorded so far, and the tokens passed over.
pub struct ScanState {
    pub args: Tokens,
    pub results: Values,
    pub rest: Tokens,
}

/// The state before the first token of `tokens` is looked at.
pub open spec fn initial(tokens: Tokens) -> ScanState {
    ScanState { args: tokens, results: Map::empty(), rest: Seq::empty() }
}

/// The declaration that `abbr` abbreviates in the innermost scope that has
/// one.
pub open spec fn resolve_abbr(scopes: Seq<Grammar>, abbr: char) -> Option<FlagView>
    decreases scopes.len(),
{
    if scopes.len() == 0 {
        None
    } else {
        match scopes[0].find_by_abbr(abbr) {
            Some(flag) => Some(flag),
            None => resolve_abbr(scopes.drop_first(), abbr),
        }
    }
}

/// What a long option name stands for.
pub enum LongMatch {
    /// The name of this declaration.
    Declared(FlagView),
    /// `no-` followed by the name of this declaration.
    Negated(FlagView),
    /// Nothing, in any scope.
    Unknown,
}

/// Looks a long option name up, scope by scope from the innermost outwards.
/// Within one scope the name itself is tried first, then, for a name that
/// starts with `no-`, what follows that prefix.
pub open spec fn resolve_long(scopes: Seq<Grammar>, name: Seq<char>) -> LongMatch
    decreases scopes.len(),
{
    if scopes.len() == 0 {
        LongMatch::Unknown
    } else {
        match scopes[0].find_by_name(name) {
            Some(flag) => LongMatch::Declared(flag),
            None => match negated(name) {
                Some(base) => match scopes[0].find_by_name(base) {
                    Some(flag) => LongMatch::Negated(flag),
                    None => resolve_long(scopes.drop_first(), name),
                },
                None => resolve_long(scopes.drop_first(), name),
            },
        }
    }
}

/// The queue without its front token; an empty queue stays empty.
pub open spec fn without_front(args: Tokens) -> Tokens {
    if args.len() > 0 {
        args.drop_first()
    } else {
        args
    }
}

/// The state after recording `value` for `flag`.
pub open spec fn record(st: ScanState, flag: FlagView, value: FlagValueView) -> ScanState {
    ScanState { args: st.args, results: st.results.insert(flag.name, value), rest: st.rest }
}

/// Gives `flag` its value once the token that named it has left the queue. A
/// switch is recorded as present and takes no inline value. A value option
/// takes the inline value, or else the next token.
pub open spec fn assign(st: ScanState, flag: FlagView, inline: Option<Seq<char>>) -> Result<
    ScanState,
    Failure,
> {
    if flag.flag_type == FlagType::Flag {
        if inline is Some {
            Err(Failure::ExtraValue(flag.name))
        } else {
            Ok(record(st, flag, FlagValueView::Bool(true)))
        }
    } else {
        match inline {
            Some(value) => Ok(record(st, flag, FlagValueView::Text(value))),
            None => if st.args.len() == 0 {
                Err(Failure::MissingValue(flag.name))
            } else {
                Ok(
                    record(
                        ScanState {
                            args: st.args.drop_first(),
                            results: st.results,
                            rest: st.rest,
                        },
                        flag,
                        FlagValueView::Text(st.args[0]),
                    ),
                )
            },
        }
    }
}

/// The state after the front token has left the queue.
pub open spec fn popped(st: ScanState) -> ScanState {
    ScanState { args: without_front(st.args), results: st.results, rest: st.rest }
}

/// Handles the solo short option `-abbr` at the front of the queue.
pub open spec fn solo_step(scopes: Seq<Grammar>, st: ScanState, abbr: char) -> Result<
    ScanState,
    Failure,
> {
    match resolve_abbr(scopes, abbr) {
        Some(flag) => assign(popped(st), flag, None),
        None => Err(Failure::UnknownFlag(abbr)),
    }
}

/// Handles the long option `--name` or `--name=value` at the front of the
/// queue.
pub open spec fn long_step(
    scopes: Seq<Grammar>,
    st: ScanState,
    name: Seq<char>,
    value: Option<Seq<char>>,
) -> Result<ScanState, Failure> {
    match resolve_long(scopes, name) {
        LongMatch::Declared(flag) => assign(popped(st), flag, value),
        LongMatch::Negated(flag) => if flag.flag_type != FlagType::Flag {
            Err(Failure::CannotNegateOption(name))
        } else if !flag.negatable {
            Err(Failure::NotNegatable(name))
        } else {
            Ok(record(popped(st), flag, FlagValueView::Bool(false)))
        },
        LongMatch::Unknown => Err(Failure::UnknownOption(name)),
    }
}

/// The abbreviation that a token asks for as a solo short option: the second
/// character of a two-character token that starts with a dash, when that
/// character is alphabetic.
pub open spec fn solo_abbreviation(token: Seq<char>) -> Option<char> {
    match dashed(token) {
        Some(c) => if is_alphabetic(c) {
            Some(c)
        } else {
            None
        },
        None => None,
    }
}

/// What the solo recogniser makes of the front token: nothing when the token
/// is no solo short option, else the outcome of handling it.
pub open spec fn solo_attempt(scopes: Seq<Grammar>, st: ScanState) -> Option<
    Result<ScanState, Failure>,
> {
    match solo_abbreviation(st.args[0]) {
        Some(abbr) => Some(solo_step(scopes, st, abbr)),
        None => None,
    }
}

/// What the long recogniser makes of the front token: nothing when the token
/// does not start with `--` or carries a lone line break as its inline value,
/// a failure when it holds more than one `=`, else the outcome of handling it.
pub open spec fn long_attempt(scopes: Seq<Grammar>, st: ScanState) -> Option<
    Result<ScanState, Failure>,
> {
    match long_form(st.args[0]) {
        LongForm::NotLong => None,
        LongForm::Invalid => Some(Err(Failure::InvalidLongOptionSyntax(st.args[0]))),
        LongForm::Named { name, value } => if value matches Some(v) && is_line_break(v) {
            None
        } else {
            Some(long_step(scopes, st, name, value))
        },
    }
}

/// The state after the front token has moved to the end of `rest`.
pub open spec fn passed_over(st: ScanState) -> ScanState {
    ScanState { args: st.args.drop_first(), results: st.results, rest: st.rest.push(st.args[0]) }
}

/// One step of the walk on a queue that is not empty and does not start with
/// the terminator: the recognisers are tried in order, and a token that none
/// of them claims is passed over.
pub open spec fn step(scopes: Seq<Grammar>, st: ScanState) -> Result<ScanState, Failure> {
    match solo_attempt(scopes, st) {
        Some(outcome) => outcome,
        None => match long_attempt(scopes, st) {
            Some(outcome) => outcome,
            None => Ok(passed_over(st)),
        },
    }
}

/// Every successful step shortens the queue.
pub proof fn lemma_step_consumes(scopes: Seq<Grammar>, st: ScanState)
    requires
        st.args.len() > 0,
    ensures
        step(scopes, st) matches Ok(next) ==> next.args.len() < st.args.len(),
{
}

/// The walk: steps until the queue is empty or the terminator is at its
/// front. The terminator is dropped and what follows it stays in the queue.
pub open spec fn scan(scopes: Seq<Grammar>, st: ScanState) -> Result<ScanState, Failure>
    decreases st.args.len(),
    via scan_decreases
{
    if st.args.len() == 0 {
        Ok(st)
    } else if st.args[0] == terminator() {
        Ok(popped(st))
    } else {
        match step(scopes, st) {
            Ok(next) => scan(scopes, next),
            Err(failure) => Err(failure),
        }
    }
}

#[via_fn]
proof fn scan_decreases(scopes: Seq<Grammar>, st: ScanState) {
    if st.args.len() > 0 {
        lemma_step_consumes(scopes, st);
    }
}

/// The state in which the walk ends: where it succeeded, or where the step
/// that failed began.
pub open spec fn scan_end(scopes: Seq<Grammar>, st: ScanState) -> ScanState
    decreases st.args.len(),
    via scan_end_decreases
{
    if st.args.len() == 0 {
        st
    } else if st.args[0] == terminator() {
        popped(st)
    } else {
        match step(scopes, st) {
            Ok(next) => scan_end(scopes, next),
            Err(_) => st,
        }
    }
}

#[via_fn]
proof fn scan_end_decreases(scopes: Seq<Grammar>, st: ScanState) {
    if st.args.len() > 0 {
        lemma_step_consumes(scopes, st);
    }
}

/// The test for a required declaration that has neither a recorded value nor
/// a default.
pub open spec fn unmet(results: Values) -> spec_fn(FlagView) -> bool {
    |f: FlagView| f.required && f.default is None && !results.contains_key(f.name)
}

/// The recorded values, with the default of every declaration that has one
/// and no recorded value. A default is recorded as text, for a switch too.
pub open spec fn with_defaults(grammar: Grammar, results: Values) -> Values {
    Map::new(
        |name: Seq<char>|
            results.contains_key(name) || (grammar.find_by_name(name) matches Some(f)
                && f.default is Some),
        |name: Seq<char>|
            if results.contains_key(name) {
                results[name]
            } else {
                FlagValueView::Text(grammar.find_by_name(name).unwrap().default.unwrap())
            },
    )
}

/// What ends a walk: the first required declaration without a value fails the
/// parse; else the defaults are filled in and the tokens left in the queue
/// follow the tokens passed over.
pub open spec fn finish(grammar: Grammar, st: ScanState) -> Result<ScanState, Failure> {
    let at = first_index(grammar.flags, unmet(st.results));
    if at < grammar.flags.len() {
        Err(Failure::MissingRequiredOption(grammar.flags[at].name))
    } else {
        Ok(
            ScanState {
                args: st.args,
                results: with_defaults(grammar, st.results),
                rest: st.rest + st.args,
            },
        )
    }
}

/// A whole parse from the state `st`: the walk, then its end.
pub open spec fn run(scopes: Seq<Grammar>, st: ScanState) -> Result<ScanState, Failure> {
    match scan(scopes, st) {
        Ok(scanned) => finish(scopes[0], scanned),
        Err(failure) => Err(failure),
    }
}

/// What a caller gets from a successful parse.
pub struct Parsed {
    pub flags: Values,
    pub rest: Tokens,
}

/// The outcome of parsing `tokens` in the scope chain `scopes`.
pub open spec fn parse_outcome(scopes: Seq<Grammar>, tokens: Tokens) -> Result<Parsed, Failure> {
    match run(scopes, initial(tokens)) {
        Ok(st) => Ok(Parsed { flags: st.results, rest: st.rest }),
        Err(failure) => Err(failure),
    }
}

} // verus!
