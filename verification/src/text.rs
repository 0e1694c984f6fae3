//! The shapes of single tokens.

use vstd::prelude::*;
use vstd::string::*;
use crate::search::{first_index, lemma_first_index_is};

verus! {

/// Whether `char::is_alphabetic` holds of `c`.
pub uninterp spec fn is_alphabetic(c: char) -> bool;

/// Calls `char::is_alphabetic`, which reports whether a character has the
/// Unicode property `Alphabetic`. The outcome depends on the character alone;
/// nothing more is claimed of it.
#[verifier::external_body]
pub(crate) fn char_is_alphabetic(c: char) -> (b: bool)
    ensures
        b == is_alphabetic(c),
{
    c.is_alphabetic()
}

/// The characters of `s`, in order.
pub fn chars_of(s: &str) -> (v: Vec<char>)
    ensures
        v@ == s@,
{
    let mut v: Vec<char> = Vec::new();
    for c in it: s.chars()
        invariant
            v@ == it.seq().take(it.index() as int),
            it.seq() == s@,
    {
        v.push(c);
    }
    v
}

/// The token that ends option scanning: `--`.
pub open spec fn terminator() -> Seq<char> {
    seq!['-', '-']
}

/// Whether `token` is the terminator `--`.
pub fn is_terminator(token: &str) -> (b: bool)
    ensures
        b == (token@ == terminator()),
{
    let cs = chars_of(token);
    let b = cs.len() == 2 && cs[0] == '-' && cs[1] == '-';
    proof {
        if b {
            assert(token@ =~= terminator());
        }
    }
    b
}

/// The character `x` of a token of the shape `-x`.
pub open spec fn dashed(token: Seq<char>) -> Option<char> {
    if token.len() == 2 && token[0] == '-' {
        Some(token[1])
    } else {
        None
    }
}

/// The character after the dash, when `token` is a dash and one more character.
pub fn dashed_char(token: &str) -> (c: Option<char>)
    ensures
        c == dashed(token@),
{
    let cs = chars_of(token);
    if cs.len() == 2 && cs[0] == '-' {
        Some(cs[1])
    } else {
        None
    }
}

/// What a token is as a long option.
pub enum LongForm {
    /// The token does not start with `--`.
    NotLong,
    /// The token holds more than one `=`.
    Invalid,
    /// `--name` or `--name=value`.
    Named { name: Seq<char>, value: Option<Seq<char>> },
}

/// The test for the `=` that parts a name from its inline value.
pub open spec fn is_equals() -> spec_fn(char) -> bool {
    |c: char| c == '='
}

/// Reads a token as a long option: after the leading `--`, the name runs up to
/// the first `=`, and the inline value is what follows it. A second `=` makes
/// the token invalid.
pub open spec fn long_form(token: Seq<char>) -> LongForm {
    if token.len() < 2 || token[0] != '-' || token[1] != '-' {
        LongForm::NotLong
    } else {
        let body = token.skip(2);
        let at = first_index(body, is_equals());
        if at == body.len() {
            LongForm::Named { name: body, value: None }
        } else if body.skip(at + 1).contains('=') {
            LongForm::Invalid
        } else {
            LongForm::Named { name: body.take(at), value: Some(body.skip(at + 1)) }
        }
    }
}

/// A token read as a long option.
#[derive(Debug, PartialEq, Eq)]
pub enum LongOption {
    /// The token does not start with `--`.
    NotLong,
    /// The token holds more than one `=`.
    Invalid,
    /// `--name` or `--name=value`.
    Named { name: String, value: Option<String> },
}

impl View for LongOption {
    type V = LongForm;

    open spec fn view(&self) -> LongForm {
        match self {
            LongOption::NotLong => LongForm::NotLong,
            LongOption::Invalid => LongForm::Invalid,
            LongOption::Named { name, value } => LongForm::Named {
                name: name@,
                value: match value {
                    Some(v) => Some(v@),
                    None => None,
                },
            },
        }
    }
}

/// The first index at or after `from` at which `cs` holds `=`, or `cs.len()`.
fn next_equals(cs: &Vec<char>, from: usize) -> (at: usize)
    requires
        from <= cs.len(),
    ensures
        from <= at <= cs.len(),
        at < cs.len() ==> cs[at as int] == '=',
        forall|j: int| from <= j < at ==> cs[j] != '=',
{
    let mut at = from;
    while at < cs.len() && cs[at] != '='
        invariant
            from <= at <= cs.len(),
            forall|j: int| from <= j < at ==> cs[j] != '=',
        decreases cs.len() - at,
    {
        at += 1;
    }
    at
}

/// Reads `token` as a long option.
pub fn long_option(token: &str) -> (form: LongOption)
    ensures
        form@ == long_form(token@),
{
    let cs = chars_of(token);
    let n = cs.len();
    if n < 2 || cs[0] != '-' || cs[1] != '-' {
        return LongOption::NotLong;
    }
    let ghost body = token@.skip(2);
    let at = next_equals(&cs, 2);
    proof {
        lemma_first_index_is(body, is_equals(), at - 2);
    }
    if at == n {
        let name = token.substring_char(2, n).to_owned();
        return LongOption::Named { name, value: None };
    }
    let second = next_equals(&cs, at + 1);
    let ghost rest = body.skip(at - 2 + 1);
    if second < n {
        assert(rest[second - at - 1] == '=');
        return LongOption::Invalid;
    }
    assert(!rest.contains('='));
    let name = token.substring_char(2, at).to_owned();
    let value = token.substring_char(at + 1, n).to_owned();
    proof {
        assert(name@ =~= body.take(at - 2));
        assert(value@ =~= rest);
    }
    LongOption::Named { name, value: Some(value) }
}

/// Whether an inline value is a lone line feed or a lone carriage return.
pub open spec fn is_line_break(value: Seq<char>) -> bool {
    value == seq!['\n'] || value == seq!['\r']
}

/// Whether `value` is a lone line feed or a lone carriage return.
pub fn is_lone_line_break(value: &str) -> (b: bool)
    ensures
        b == is_line_break(value@),
{
    let cs = chars_of(value);
    let b = cs.len() == 1 && (cs[0] == '\n' || cs[0] == '\r');
    proof {
        if b {
            assert(value@ =~= seq![value@[0]]);
        }
    }
    b
}

/// The name that `--no-<name>` negates: what follows the prefix `no-`.
pub open spec fn negated(name: Seq<char>) -> Option<Seq<char>> {
    if name.len() >= 3 && name[0] == 'n' && name[1] == 'o' && name[2] == '-' {
        Some(name.skip(3))
    } else {
        None
    }
}

/// What follows the prefix `no-` in `name`, when it has that prefix.
pub fn negated_name(name: &str) -> (base: Option<String>)
    ensures
        match base {
            Some(b) => negated(name@) == Some(b@),
            None => negated(name@) is None,
        },
{
    let cs = chars_of(name);
    let n = cs.len();
    if n >= 3 && cs[0] == 'n' && cs[1] == 'o' && cs[2] == '-' {
        Some(name.substring_char(3, n).to_owned())
    } else {
        None
    }
}

} // verus!
