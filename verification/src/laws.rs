//! Properties of parsing that hold for every grammar and every token list.

use vstd::prelude::*;
use crate::arg_parser::{called, Grammar};
use crate::error::Failure;
use crate::flag::FlagValueView;
use crate::scan::{
    initial,
    lemma_step_consumes,
    parse_outcome,
    popped,
    scan,
    step,
    unmet,
    Parsed,
    ScanState,
    Tokens,
};
use crate::search::{first_index, lemma_first_index, lemma_first_index_is};
use crate::text::terminator;

verus! {

/// Defaults come back when nothing is given: in a grammar in which every
/// required option has a default, parsing no tokens succeeds, and an option
/// declared with a default has that default as its value.
pub proof fn law_default_round_trip(scopes: Seq<Grammar>, name: Seq<char>, default: Seq<char>)
    requires
        scopes.len() > 0,
        scopes[0].find_by_name(name) matches Some(flag) && flag.default == Some(default),
        forall|i: int|
            0 <= i < scopes[0].flags.len() ==> !((#[trigger] scopes[0].flags[i]).required
                && scopes[0].flags[i].default is None),
    ensures
        parse_outcome(scopes, Seq::empty()) matches Ok(parsed) && parsed.flags.contains_key(name)
            && parsed.flags[name] == FlagValueView::Text(default),
{
    let start = initial(Seq::empty());
    assert(scan(scopes, start) == Ok::<_, Failure>(start));
    lemma_first_index_is(
        scopes[0].flags,
        unmet(start.results),
        scopes[0].flags.len() as int,
    );
}

/// A required option is enforced: when the walk over the tokens succeeds
/// without recording a value for a required option that has no default, the
/// parse fails for want of a required option. The option it names is the
/// first declared one that is wanting.
pub proof fn law_required_enforced(scopes: Seq<Grammar>, tokens: Tokens, name: Seq<char>)
    requires
        scopes.len() > 0,
        scopes[0].find_by_name(name) matches Some(flag) && flag.required && flag.default is None,
        scan(scopes, initial(tokens)) matches Ok(st) && !st.results.contains_key(name),
    ensures
        parse_outcome(scopes, tokens) matches Err(Failure::MissingRequiredOption(missing)) && ({
            let results = scan(scopes, initial(tokens))->Ok_0.results;
            let at = first_index(scopes[0].flags, unmet(results));
            &&& 0 <= at <= scopes[0].position(name) < scopes[0].flags.len()
            &&& missing == scopes[0].flags[at].name
            &&& unmet(results)(scopes[0].flags[at])
            &&& at == scopes[0].position(name) ==> missing == name
        }),
{
    let grammar = scopes[0];
    let results = scan(scopes, initial(tokens))->Ok_0.results;
    lemma_first_index(grammar.flags, called(name));
    lemma_first_index(grammar.flags, unmet(results));
    let here = grammar.position(name);
    assert(unmet(results)(grammar.flags[here]));
}

/// A successful parse has a value for every required option.
pub proof fn law_required_has_value(scopes: Seq<Grammar>, tokens: Tokens, name: Seq<char>)
    requires
        scopes.len() > 0,
        scopes[0].find_by_name(name) matches Some(flag) && flag.required,
    ensures
        parse_outcome(scopes, tokens) matches Ok(parsed) ==> parsed.flags.contains_key(name),
{
    let grammar = scopes[0];
    if let Ok(st) = scan(scopes, initial(tokens)) {
        lemma_first_index(grammar.flags, called(name));
        lemma_first_index(grammar.flags, unmet(st.results));
        let here = grammar.position(name);
        if parse_outcome(scopes, tokens) is Ok {
            assert(!unmet(st.results)(grammar.flags[here]));
        }
    }
}

/// The state `st` with the tokens `more` behind its queue.
pub open spec fn followed_by(st: ScanState, more: Tokens) -> ScanState {
    ScanState { args: st.args + more, results: st.results, rest: st.rest }
}

/// A step that succeeds does the same with more tokens behind the queue.
proof fn lemma_step_ignores_what_follows(scopes: Seq<Grammar>, st: ScanState, more: Tokens)
    requires
        st.args.len() > 0,
        step(scopes, st) is Ok,
    ensures
        step(scopes, followed_by(st, more)) == Ok::<ScanState, Failure>(
            followed_by(step(scopes, st)->Ok_0, more),
        ),
{
    let longer = followed_by(st, more);
    assert(longer.args[0] == st.args[0]);
    assert(longer.args.drop_first() =~= st.args.drop_first() + more);
    if st.args.len() >= 2 {
        assert(longer.args[1] == st.args[1]);
        assert(longer.args.drop_first().drop_first() =~= st.args.drop_first().drop_first()
            + more);
    }
    assert(step(scopes, longer)->Ok_0.args =~= step(scopes, st)->Ok_0.args + more);
}

/// A walk that succeeds on a queue without terminator empties the queue, and
/// with more tokens behind the queue it goes on with those from where it
/// ended.
proof fn lemma_scan_ignores_what_follows(scopes: Seq<Grammar>, st: ScanState, more: Tokens)
    requires
        scan(scopes, st) is Ok,
        !st.args.contains(terminator()),
    ensures
        scan(scopes, st)->Ok_0.args.len() == 0,
        scan(scopes, followed_by(st, more)) == scan(
            scopes,
            followed_by(scan(scopes, st)->Ok_0, more),
        ),
    decreases st.args.len(),
{
    if st.args.len() == 0 {
        assert(scan(scopes, st) == Ok::<ScanState, Failure>(st));
    } else {
        assert(st.args[0] != terminator());
        let next = step(scopes, st)->Ok_0;
        let longer = followed_by(st, more);
        lemma_step_consumes(scopes, st);
        lemma_step_shape(scopes, st);
        lemma_step_ignores_what_follows(scopes, st, more);
        assert(longer.args[0] == st.args[0]);
        assert forall|i: int| 0 <= i < next.args.len() implies next.args[i] != terminator() by {
            let shift = st.args.len() - next.args.len();
            assert(next.args[i] == st.args[i + shift]);
        }
        lemma_scan_ignores_what_follows(scopes, next, more);
    }
}

/// The terminator stops the walk: when the walk over `before` succeeds and
/// `before` holds no terminator, parsing `before`, then `--`, then `after`
/// gives what parsing `before` alone gives, with `after` added untouched to
/// the end of `rest`.
pub proof fn law_terminator_stops_scanning(scopes: Seq<Grammar>, before: Tokens, after: Tokens)
    requires
        !before.contains(terminator()),
        scan(scopes, initial(before)) is Ok,
    ensures
        parse_outcome(scopes, before + seq![terminator()] + after) == match parse_outcome(
            scopes,
            before,
        ) {
            Ok(parsed) => Ok(Parsed { flags: parsed.flags, rest: parsed.rest + after }),
            Err(failure) => Err(failure),
        },
{
    let more = seq![terminator()] + after;
    let ended = scan(scopes, initial(before))->Ok_0;
    lemma_scan_ignores_what_follows(scopes, initial(before), more);
    assert(followed_by(initial(before), more) == initial(before + more));
    let stopped = followed_by(ended, more);
    assert(stopped.args =~= more);
    assert(stopped.args[0] == terminator());
    assert(popped(stopped).args =~= after);
    assert(scan(scopes, stopped) == Ok::<ScanState, Failure>(popped(stopped)));
    assert(ended.args =~= Seq::<Seq<char>>::empty());
    assert(ended.rest + ended.args =~= ended.rest);
    assert(before + seq![terminator()] + after =~= before + more);
}

/// Whether `picked` can be had from `all` by leaving tokens out, without
/// changing the order of those that stay.
pub open spec fn is_subsequence(picked: Tokens, all: Tokens) -> bool
    decreases all.len(),
{
    if picked.len() == 0 {
        true
    } else if all.len() == 0 {
        false
    } else {
        ||| picked[0] == all[0] && is_subsequence(picked.drop_first(), all.drop_first())
        ||| is_subsequence(picked, all.drop_first())
    }
}

/// Every list is a subsequence of itself.
proof fn lemma_subsequence_of_itself(all: Tokens)
    ensures
        is_subsequence(all, all),
    decreases all.len(),
{
    if all.len() > 0 {
        lemma_subsequence_of_itself(all.drop_first());
    }
}

/// A subsequence of what follows the first `n` tokens is a subsequence of
/// the whole.
proof fn lemma_subsequence_of_tail(picked: Tokens, all: Tokens, n: int)
    requires
        0 <= n <= all.len(),
        is_subsequence(picked, all.skip(n)),
    ensures
        is_subsequence(picked, all),
    decreases n,
{
    if n > 0 {
        assert(all.drop_first().skip(n - 1) =~= all.skip(n));
        lemma_subsequence_of_tail(picked, all.drop_first(), n - 1);
    } else {
        assert(all.skip(0) =~= all);
    }
}

/// A successful step takes one or two tokens from the front of the queue, and
/// leaves `rest` alone or appends the one token it took.
proof fn lemma_step_shape(scopes: Seq<Grammar>, st: ScanState)
    requires
        st.args.len() > 0,
    ensures
        step(scopes, st) matches Ok(next) ==> {
            ||| next.rest == st.rest && next.args == st.args.skip(1)
            ||| next.rest == st.rest && st.args.len() >= 2 && next.args == st.args.skip(2)
            ||| next.rest == st.rest.push(st.args[0]) && next.args == st.args.skip(1)
        },
{
    if let Ok(next) = step(scopes, st) {
        assert(st.args.drop_first() =~= st.args.skip(1));
        if st.args.len() >= 2 {
            assert(st.args.drop_first().drop_first() =~= st.args.skip(2));
        }
    }
}

/// The walk only adds to `rest`, and what it adds, followed by what it leaves
/// in the queue, is a subsequence of the queue it started with.
proof fn lemma_scan_keeps_order(scopes: Seq<Grammar>, st: ScanState)
    ensures
        scan(scopes, st) matches Ok(end) ==> {
            &&& st.rest.len() <= end.rest.len()
            &&& end.rest.take(st.rest.len() as int) == st.rest
            &&& is_subsequence(end.rest.skip(st.rest.len() as int) + end.args, st.args)
        },
    decreases st.args.len(),
{
    if let Ok(end) = scan(scopes, st) {
        let added = end.rest.skip(st.rest.len() as int) + end.args;
        if st.args.len() == 0 {
            assert(end.rest.take(st.rest.len() as int) =~= st.rest);
            assert(added =~= Seq::<Seq<char>>::empty());
        } else if st.args[0] == terminator() {
            assert(end.rest.take(st.rest.len() as int) =~= st.rest);
            assert(added =~= st.args.skip(1));
            lemma_subsequence_of_itself(st.args.skip(1));
            lemma_subsequence_of_tail(added, st.args, 1);
        } else {
            let next = step(scopes, st)->Ok_0;
            lemma_step_consumes(scopes, st);
            lemma_step_shape(scopes, st);
            lemma_scan_keeps_order(scopes, next);
            let later = end.rest.skip(next.rest.len() as int) + end.args;
            if next.rest == st.rest {
                assert(added =~= later);
                if next.args == st.args.skip(1) {
                    lemma_subsequence_of_tail(added, st.args, 1);
                } else {
                    lemma_subsequence_of_tail(added, st.args, 2);
                }
            } else {
                // The step passed the front token over: it is the first that
                // the walk added to `rest`.
                assert(end.rest.take(st.rest.len() as int) =~= end.rest.take(
                    next.rest.len() as int,
                ).take(st.rest.len() as int));
                assert(end.rest[st.rest.len() as int] == end.rest.take(
                    next.rest.len() as int,
                )[st.rest.len() as int]);
                assert(added[0] == st.args[0]);
                assert(added.drop_first() =~= later);
                assert(st.args.drop_first() =~= st.args.skip(1));
            }
        }
    }
}

/// The tokens that a parse hands back keep the order they came in: they are a
/// subsequence of the tokens that were parsed.
pub proof fn law_rest_keeps_order(scopes: Seq<Grammar>, tokens: Tokens)
    ensures
        parse_outcome(scopes, tokens) matches Ok(parsed) ==> is_subsequence(parsed.rest, tokens),
{
    if let Ok(parsed) = parse_outcome(scopes, tokens) {
        let start = initial(tokens);
        lemma_scan_keeps_order(scopes, start);
        let end = scan(scopes, start)->Ok_0;
        assert(end.rest.skip(0) =~= end.rest);
    }
}

} // verus!
