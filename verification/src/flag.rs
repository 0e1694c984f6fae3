//! Declarations of single options and the values recorded for them.

use vstd::prelude::*;

verus! {

/// The kind of a declared option.
#[derive(Debug, Clone, Copy, PartialEq, Eq, Structural)]
pub enum FlagType {
    /// A switch: takes no value, is present or absent.
    Flag,
    /// Takes exactly one value.
    Option,
}

impl Default for FlagType {
    fn default() -> (kind: FlagType)
        ensures
            kind == FlagType::Flag,
    {
        FlagType::Flag
    }
}

/// One declared option of a grammar.
#[derive(Debug, PartialEq, Eq)]
pub struct Flag {
    pub name: String,
    pub abbr: Option<char>,
    pub help: Option<String>,
    pub value_help: Option<String>,
    pub possible_values: Option<Vec<String>>,
    pub negatable: bool,
    pub flag_type: FlagType,
    pub required: bool,
    pub default: Option<String>,
}

/// The mathematical content of a [`Flag`].
pub struct FlagView {
    pub name: Seq<char>,
    pub abbr: Option<char>,
    pub help: Option<Seq<char>>,
    pub value_help: Option<Seq<char>>,
    pub possible_values: Option<Seq<Seq<char>>>,
    pub negatable: bool,
    pub flag_type: FlagType,
    pub required: bool,
    pub default: Option<Seq<char>>,
}

/// The characters of an optional string.
pub open spec fn text_of(s: Option<String>) -> Option<Seq<char>> {
    match s {
        Some(s) => Some(s@),
        None => None,
    }
}

/// The characters of each string of a list.
pub open spec fn texts_of(v: Seq<String>) -> Seq<Seq<char>> {
    Seq::new(v.len(), |i: int| v[i]@)
}

impl View for Flag {
    type V = FlagView;

    open spec fn view(&self) -> FlagView {
        FlagView {
            name: self.name@,
            abbr: self.abbr,
            help: text_of(self.help),
            value_help: text_of(self.value_help),
            possible_values: match self.possible_values {
                Some(v) => Some(texts_of(v@)),
                None => None,
            },
            negatable: self.negatable,
            flag_type: self.flag_type,
            required: self.required,
            default: text_of(self.default),
        }
    }
}

impl Default for Flag {
    /// A switch without a name, an abbreviation or a default.
    fn default() -> (flag: Flag)
        ensures
            flag@ == (FlagView {
                name: Seq::empty(),
                abbr: None,
                help: None,
                value_help: None,
                possible_values: None,
                negatable: false,
                flag_type: FlagType::Flag,
                required: false,
                default: None,
            }),
    {
        Flag {
            name: String::new(),
            abbr: None,
            help: None,
            value_help: None,
            possible_values: None,
            negatable: false,
            flag_type: FlagType::Flag,
            required: false,
            default: None,
        }
    }
}

impl Clone for Flag {
    fn clone(&self) -> (copy: Flag)
        ensures
            copy@ == self@,
    {
        let copy = Flag {
            name: self.name.clone(),
            abbr: self.abbr,
            help: self.help.clone(),
            value_help: self.value_help.clone(),
            possible_values: self.possible_values.clone(),
            negatable: self.negatable,
            flag_type: self.flag_type,
            required: self.required,
            default: self.default.clone(),
        };
        proof {
            if self.possible_values is Some {
                assert(texts_of(copy.possible_values.unwrap()@) =~= texts_of(
                    self.possible_values.unwrap()@,
                ));
            }
        }
        copy
    }
}

impl Flag {
    /// Whether this is a switch.
    pub fn is_flag(&self) -> (b: bool)
        ensures
            b == (self.flag_type == FlagType::Flag),
    {
        matches!(self.flag_type, FlagType::Flag)
    }

    /// Whether this option takes a value.
    pub fn is_option(&self) -> (b: bool)
        ensures
            b == (self.flag_type == FlagType::Option),
    {
        matches!(self.flag_type, FlagType::Option)
    }

    /// Whether the switch may be given in its `--no-` form.
    pub fn is_negatable(&self) -> (b: bool)
        ensures
            b == self.negatable,
    {
        self.negatable
    }
}

/// The value recorded for an option.
#[derive(Debug, PartialEq, Eq)]
pub enum FlagValue {
    Bool(bool),
    String(String),
}

impl Clone for FlagValue {
    fn clone(&self) -> (copy: FlagValue)
        ensures
            copy@ == self@,
    {
        match self {
            FlagValue::Bool(b) => FlagValue::Bool(*b),
            FlagValue::String(s) => FlagValue::String(s.clone()),
        }
    }
}

/// The mathematical content of a [`FlagValue`].
pub enum FlagValueView {
    Bool(bool),
    Text(Seq<char>),
}

impl View for FlagValue {
    type V = FlagValueView;

    open spec fn view(&self) -> FlagValueView {
        match self {
            FlagValue::Bool(b) => FlagValueView::Bool(*b),
            FlagValue::String(s) => FlagValueView::Text(s@),
        }
    }
}

} // verus!
