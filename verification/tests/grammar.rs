use yargs::text::{chars_of, dashed_char, is_lone_line_break, is_terminator};
use yargs::text::{long_option, negated_name, LongOption};
use yargs::{ArgParser, Flag, FlagType, FlagValue, FlagValues};

#[test]
fn new_grammar_is_empty() {
    let grammar = ArgParser::new();
    assert_eq!(grammar.len(), 0);
    assert!(!grammar.allows_anything());
    assert_eq!(grammar.find_by_name("x"), None);
    assert_eq!(grammar.find_by_abbr('x'), None);
    let other = ArgParser::default();
    assert_eq!(other.len(), 0);
    assert!(!other.allows_anything());
}

#[test]
fn allow_anything_sets_the_toggle() {
    let mut grammar = ArgParser::new();
    assert!(grammar.allow_anything(true).allows_anything());
    assert!(grammar.allows_anything());
    grammar.allow_anything(false);
    assert!(!grammar.allows_anything());
}

#[test]
fn add_flag_declares_a_switch() {
    let mut grammar = ArgParser::new();
    grammar.add_flag("debug".into(), Some('d'), Some("some help".into()), false, true);
    let flag = grammar.find_by_name("debug").unwrap();
    assert_eq!(
        *flag,
        Flag {
            name: "debug".into(),
            abbr: Some('d'),
            help: Some("some help".into()),
            value_help: None,
            possible_values: None,
            negatable: true,
            flag_type: FlagType::Flag,
            required: false,
            default: None,
        }
    );
    assert!(flag.is_flag());
    assert!(!flag.is_option());
    assert!(flag.is_negatable());
    grammar.add_flag("on".into(), None, None, true, false);
    let on = grammar.find_by_name("on").unwrap();
    assert_eq!(on.default, Some(String::new()));
    assert!(!on.is_negatable());
}

#[test]
fn add_option_declares_a_value_option() {
    let mut grammar = ArgParser::new();
    grammar.add_option(
        "name".into(),
        Some('n'),
        Some("who".into()),
        Some("NAME".into()),
        Some(vec!["a".to_string(), "b".to_string()]),
        Some("a".into()),
        true,
    );
    let flag = grammar.find_by_abbr('n').unwrap();
    assert_eq!(
        flag,
        Flag {
            name: "name".into(),
            abbr: Some('n'),
            help: Some("who".into()),
            value_help: Some("NAME".into()),
            possible_values: Some(vec!["a".to_string(), "b".to_string()]),
            negatable: false,
            flag_type: FlagType::Option,
            required: true,
            default: Some("a".into()),
        }
    );
    assert!(flag.is_option());
    assert!(!flag.is_flag());
    assert!(!flag.is_negatable());
}

#[test]
fn registering_a_name_again_overwrites_in_place() {
    let mut grammar = ArgParser::new();
    grammar.add_flag("a".into(), Some('x'), None, false, false);
    grammar.add_flag("b".into(), Some('x'), None, false, false);
    grammar.add_option("a".into(), Some('y'), None, None, None, None, false);
    assert_eq!(grammar.len(), 2);
    assert_eq!(grammar.flag_at(0).name, "a");
    assert_eq!(grammar.flag_at(0).flag_type, FlagType::Option);
    assert_eq!(grammar.flag_at(1).name, "b");
    assert_eq!(grammar.find_by_abbr('x').unwrap().name, "b");
    assert_eq!(grammar.find_by_abbr('y').unwrap().name, "a");
}

#[test]
fn first_registered_abbreviation_wins() {
    let mut grammar = ArgParser::new();
    grammar.add_flag("first".into(), Some('f'), None, false, false);
    grammar.add_flag("second".into(), Some('f'), None, false, false);
    assert_eq!(grammar.find_by_abbr('f').unwrap().name, "first");
    assert_eq!(grammar.find_by_abbr('g'), None);
}

#[test]
fn lookup_by_name_is_exact() {
    let mut grammar = ArgParser::new();
    grammar.add_flag("debug".into(), None, None, false, false);
    assert!(grammar.find_by_name("debug").is_some());
    assert!(grammar.find_by_name("debu").is_none());
    assert!(grammar.find_by_name("debugg").is_none());
    assert!(grammar.find_by_name("Debug").is_none());
    assert!(grammar.find_by_name("").is_none());
}

#[test]
fn cloned_grammar_is_independent() {
    let mut grammar = ArgParser::new();
    grammar.add_flag("a".into(), None, None, false, false);
    grammar.allow_anything(true);
    let copy = grammar.clone();
    grammar.add_flag("b".into(), None, None, false, false);
    assert_eq!(copy.len(), 1);
    assert!(copy.allows_anything());
    assert_eq!(copy.flag_at(0), grammar.flag_at(0));
    assert_eq!(grammar.len(), 2);
}

#[test]
fn default_kind_is_switch() {
    assert_eq!(FlagType::default(), FlagType::Flag);
}

#[test]
fn default_flag_is_a_bare_switch() {
    let flag = Flag::default();
    assert_eq!(flag.name, "");
    assert_eq!(flag.abbr, None);
    assert_eq!(flag.help, None);
    assert_eq!(flag.value_help, None);
    assert_eq!(flag.possible_values, None);
    assert_eq!(flag.default, None);
    assert!(flag.is_flag());
    assert!(!flag.required);
    assert!(!flag.is_negatable());
    assert_eq!(flag.clone(), flag);
}

#[test]
fn values_insert_and_get() {
    let mut values = FlagValues::new();
    assert_eq!(values.len(), 0);
    assert!(!values.contains_key("a"));
    values.insert("a".into(), FlagValue::Bool(true));
    values.insert("b".into(), FlagValue::String("x".into()));
    values.insert("a".into(), FlagValue::Bool(false));
    assert_eq!(values.len(), 2);
    assert_eq!(values.get("a"), Some(&FlagValue::Bool(false)));
    assert_eq!(values.get("b"), Some(&FlagValue::String("x".into())));
    assert_eq!(values.get("c"), None);
    assert!(values.contains_key("b"));
    assert_eq!(values.entry_at(0), (&"a".to_string(), &FlagValue::Bool(false)));
    assert_eq!(values.entry_at(1), (&"b".to_string(), &FlagValue::String("x".into())));
    let copy = values.clone();
    assert_eq!(copy.len(), 2);
    assert_eq!(copy.entry_at(0), values.entry_at(0));
    assert_eq!(copy.entry_at(1), values.entry_at(1));
}

#[test]
fn terminator_is_exactly_two_dashes() {
    assert!(is_terminator("--"));
    assert!(!is_terminator("-"));
    assert!(!is_terminator("---"));
    assert!(!is_terminator("--x"));
    assert!(!is_terminator(""));
}

#[test]
fn dashed_char_wants_a_dash_and_one_character() {
    assert_eq!(dashed_char("-a"), Some('a'));
    assert_eq!(dashed_char("-1"), Some('1'));
    assert_eq!(dashed_char("--"), Some('-'));
    assert_eq!(dashed_char("-é"), Some('é'));
    assert_eq!(dashed_char("-"), None);
    assert_eq!(dashed_char("-ab"), None);
    assert_eq!(dashed_char("ab"), None);
    assert_eq!(dashed_char(""), None);
}

#[test]
fn chars_of_lists_characters() {
    assert_eq!(chars_of("a=é"), vec!['a', '=', 'é']);
    assert_eq!(chars_of(""), Vec::<char>::new());
}

#[test]
fn long_option_splits_at_the_equals_sign() {
    assert_eq!(long_option("-x"), LongOption::NotLong);
    assert_eq!(long_option("name=1"), LongOption::NotLong);
    assert_eq!(long_option("-"), LongOption::NotLong);
    assert_eq!(
        long_option("--name"),
        LongOption::Named { name: "name".into(), value: None }
    );
    assert_eq!(
        long_option("--name=é1"),
        LongOption::Named { name: "name".into(), value: Some("é1".into()) }
    );
    assert_eq!(
        long_option("--name="),
        LongOption::Named { name: "name".into(), value: Some("".into()) }
    );
    assert_eq!(
        long_option("--=v"),
        LongOption::Named { name: "".into(), value: Some("v".into()) }
    );
    assert_eq!(long_option("--"), LongOption::Named { name: "".into(), value: None });
    assert_eq!(long_option("--a=b=c"), LongOption::Invalid);
    assert_eq!(long_option("--a=="), LongOption::Invalid);
}

#[test]
fn line_break_values() {
    assert!(is_lone_line_break("\n"));
    assert!(is_lone_line_break("\r"));
    assert!(!is_lone_line_break("\r\n"));
    assert!(!is_lone_line_break(""));
    assert!(!is_lone_line_break("n"));
}

#[test]
fn negated_name_strips_the_prefix() {
    assert_eq!(negated_name("no-color"), Some("color".to_string()));
    assert_eq!(negated_name("no-"), Some(String::new()));
    assert_eq!(negated_name("no"), None);
    assert_eq!(negated_name("not-color"), None);
    assert_eq!(negated_name("color"), None);
}
