use yargs::{ArgParser, ArgResult, FlagValue, ParseError, Parser};

fn tokens(items: &[&str]) -> Vec<String> {
    items.iter().map(|s| s.to_string()).collect()
}

fn text(s: &str) -> FlagValue {
    FlagValue::String(s.to_string())
}

fn sample() -> ArgParser {
    let mut grammar = ArgParser::new();
    grammar.add_flag("debug".into(), Some('d'), Some("some help".into()), false, false);
    grammar.add_flag("color".into(), None, None, true, true);
    grammar.add_option("name".into(), Some('n'), None, None, None, None, false);
    grammar.add_option("level".into(), Some('l'), None, None, None, Some("info".into()), false);
    grammar
}

#[test]
fn default_is_recorded_when_option_is_absent() {
    let mut grammar = ArgParser::new();
    grammar.add_option("X".into(), None, None, None, None, Some("d".into()), false);
    let result = grammar.parse_from(Vec::new()).unwrap();
    assert_eq!(result.flags.get("X"), Some(&text("d")));
    assert!(result.rest.is_empty());
}

#[test]
fn required_option_without_value_fails() {
    let mut grammar = ArgParser::new();
    grammar.add_option("Y".into(), None, None, None, None, None, true);
    let outcome = grammar.parse_from(tokens(&["build", "now"]));
    assert_eq!(outcome.unwrap_err(), ParseError::MissingRequiredOption("Y".into()));
}

#[test]
fn required_option_with_value_succeeds() {
    let mut grammar = ArgParser::new();
    grammar.add_option("Y".into(), None, None, None, None, None, true);
    let result = grammar.parse_from(tokens(&["--Y", "1"])).unwrap();
    assert_eq!(result.flags.get("Y"), Some(&text("1")));
}

#[test]
fn required_option_with_default_succeeds() {
    let mut grammar = ArgParser::new();
    grammar.add_option("Y".into(), None, None, None, None, Some("z".into()), true);
    let result = grammar.parse_from(Vec::new()).unwrap();
    assert_eq!(result.flags.get("Y"), Some(&text("z")));
}

#[test]
fn first_missing_required_option_is_reported() {
    let mut grammar = ArgParser::new();
    grammar.add_option("first".into(), None, None, None, None, None, true);
    grammar.add_option("second".into(), None, None, None, None, None, true);
    let outcome = grammar.parse_from(Vec::new());
    assert_eq!(outcome.unwrap_err(), ParseError::MissingRequiredOption("first".into()));
    let outcome = grammar.parse_from(tokens(&["--first=1"]));
    assert_eq!(outcome.unwrap_err(), ParseError::MissingRequiredOption("second".into()));
}

#[test]
fn terminator_stops_scanning() {
    let mut grammar = ArgParser::new();
    grammar.add_flag("flag".into(), None, None, false, false);
    let result = grammar.parse_from(tokens(&["--flag", "--", "--flag"])).unwrap();
    assert_eq!(result.flags.get("flag"), Some(&FlagValue::Bool(true)));
    assert_eq!(result.rest, tokens(&["--flag"]));
}

#[test]
fn terminator_keeps_everything_after_it() {
    let grammar = sample();
    let result = grammar.parse_from(tokens(&["a", "--", "-d", "--", "--bogus=1=2", "b"])).unwrap();
    assert_eq!(result.rest, tokens(&["a", "-d", "--", "--bogus=1=2", "b"]));
    assert_eq!(result.flags.get("debug"), None);
}

#[test]
fn short_option_consumes_next_token() {
    let mut grammar = ArgParser::new();
    grammar.add_option("name".into(), Some('n'), None, None, None, None, false);
    let result = grammar.parse_from(tokens(&["-n", "alice"])).unwrap();
    assert_eq!(result.flags.get("name"), Some(&text("alice")));
    assert!(result.rest.is_empty());
}

#[test]
fn short_option_takes_any_next_token_as_value() {
    let grammar = sample();
    let result = grammar.parse_from(tokens(&["-n", "--debug", "x"])).unwrap();
    assert_eq!(result.flags.get("name"), Some(&text("--debug")));
    assert_eq!(result.flags.get("debug"), None);
    assert_eq!(result.rest, tokens(&["x"]));
}

#[test]
fn short_switch_is_recorded_as_present() {
    let grammar = sample();
    let result = grammar.parse_from(tokens(&["-d", "x"])).unwrap();
    assert_eq!(result.flags.get("debug"), Some(&FlagValue::Bool(true)));
    assert_eq!(result.rest, tokens(&["x"]));
}

#[test]
fn negation_records_false() {
    let mut grammar = ArgParser::new();
    grammar.add_flag("color".into(), None, None, true, true);
    let result = grammar.parse_from(tokens(&["--no-color"])).unwrap();
    assert_eq!(result.flags.get("color"), Some(&FlagValue::Bool(false)));
}

#[test]
fn negation_ignores_inline_value() {
    let grammar = sample();
    let result = grammar.parse_from(tokens(&["--no-color=x"])).unwrap();
    assert_eq!(result.flags.get("color"), Some(&FlagValue::Bool(false)));
}

#[test]
fn declared_name_wins_over_negation() {
    let mut grammar = ArgParser::new();
    grammar.add_flag("color".into(), None, None, false, true);
    grammar.add_flag("no-color".into(), None, None, false, false);
    let result = grammar.parse_from(tokens(&["--no-color"])).unwrap();
    assert_eq!(result.flags.get("no-color"), Some(&FlagValue::Bool(true)));
    assert_eq!(result.flags.get("color"), None);
}

#[test]
fn undeclared_long_option_fails() {
    let grammar = ArgParser::new();
    let outcome = grammar.parse_from(tokens(&["build", "--target=x"]));
    assert_eq!(outcome.unwrap_err(), ParseError::UnknownOption("target".into()));
}

#[test]
fn plain_token_is_passed_over() {
    let grammar = ArgParser::new();
    let result = grammar.parse_from(tokens(&["build"])).unwrap();
    assert_eq!(result.rest, tokens(&["build"]));
    assert_eq!(result.flags.len(), 0);
}

#[test]
fn rest_keeps_the_order_of_the_tokens() {
    let grammar = sample();
    let result = grammar.parse_from(
        tokens(&["one", "-d", "two", "--name", "n", "-", "-1", "three", "--", "four"]),
    ).unwrap();
    assert_eq!(result.rest, tokens(&["one", "two", "-", "-1", "three", "four"]));
    assert_eq!(result.flags.get("debug"), Some(&FlagValue::Bool(true)));
    assert_eq!(result.flags.get("name"), Some(&text("n")));
}

#[test]
fn child_delegates_long_switch_to_parent() {
    let mut parent_grammar = ArgParser::new();
    parent_grammar.add_flag("verbose".into(), Some('v'), None, false, false);
    let parent = Parser::new(None, parent_grammar, Vec::new(), None);
    let child_grammar = ArgParser::new();
    let mut child = Parser::new(
        Some("sub".into()),
        child_grammar,
        tokens(&["--verbose"]),
        Some(parent),
    );
    assert_eq!(child.parse(), Ok(()));
    assert_eq!(child.results.get("verbose"), Some(&FlagValue::Bool(true)));
    let result = ArgResult::new(&child);
    assert_eq!(result.flags.get("verbose"), Some(&FlagValue::Bool(true)));
    assert!(result.rest.is_empty());
    let parent = child.parent.as_ref().unwrap();
    assert_eq!(parent.results.len(), 0);
}

#[test]
fn child_delegates_short_option_and_takes_value_from_own_queue() {
    let mut root = ArgParser::new();
    root.add_option("user".into(), Some('u'), None, None, None, None, false);
    let grandparent = Parser::new(None, root, tokens(&["ignored"]), None);
    let parent = Parser::new(None, ArgParser::new(), Vec::new(), Some(grandparent));
    let mut child = Parser::new(None, ArgParser::new(), tokens(&["-u", "bob", "x"]), Some(parent));
    assert_eq!(child.parse(), Ok(()));
    assert_eq!(child.results.get("user"), Some(&text("bob")));
    assert_eq!(child.rest, tokens(&["x"]));
}

#[test]
fn child_negates_switch_of_parent() {
    let mut root = ArgParser::new();
    root.add_flag("color".into(), None, None, true, true);
    let parent = Parser::new(None, root, Vec::new(), None);
    let mut child = Parser::new(None, ArgParser::new(), tokens(&["--no-color"]), Some(parent));
    assert_eq!(child.parse(), Ok(()));
    assert_eq!(child.results.get("color"), Some(&FlagValue::Bool(false)));
}

#[test]
fn child_declaration_shadows_parent() {
    let mut root = ArgParser::new();
    root.add_flag("mode".into(), Some('m'), None, false, false);
    let parent = Parser::new(None, root, Vec::new(), None);
    let mut inner = ArgParser::new();
    inner.add_option("mode".into(), Some('m'), None, None, None, None, false);
    let mut child = Parser::new(None, inner, tokens(&["-m", "fast"]), Some(parent));
    assert_eq!(child.parse(), Ok(()));
    assert_eq!(child.results.get("mode"), Some(&text("fast")));
}

#[test]
fn parent_defaults_are_not_applied_to_child() {
    let mut root = ArgParser::new();
    root.add_option("level".into(), None, None, None, None, Some("info".into()), false);
    root.add_option("must".into(), None, None, None, None, None, true);
    let parent = Parser::new(None, root, Vec::new(), None);
    let mut child = Parser::new(None, ArgParser::new(), Vec::new(), Some(parent));
    assert_eq!(child.parse(), Ok(()));
    assert_eq!(child.results.len(), 0);
}

#[test]
fn unknown_everywhere_fails_through_the_chain() {
    let parent = Parser::new(None, sample(), Vec::new(), None);
    let mut child = Parser::new(None, ArgParser::new(), tokens(&["--nope"]), Some(parent));
    assert_eq!(child.parse(), Err(ParseError::UnknownOption("nope".into())));
    let parent = Parser::new(None, sample(), Vec::new(), None);
    let mut child = Parser::new(None, ArgParser::new(), tokens(&["-z"]), Some(parent));
    assert_eq!(child.parse(), Err(ParseError::UnknownFlag('z')));
}

#[test]
fn one_grammar_serves_independent_parses() {
    let grammar = sample();
    let first = grammar.parse_from(tokens(&["-d", "--name=a", "x"])).unwrap();
    let second = grammar.parse_from(tokens(&["--level", "warn", "y"])).unwrap();
    assert_eq!(first.flags.get("debug"), Some(&FlagValue::Bool(true)));
    assert_eq!(first.flags.get("name"), Some(&text("a")));
    assert_eq!(first.flags.get("level"), Some(&text("info")));
    assert_eq!(first.rest, tokens(&["x"]));
    assert_eq!(second.flags.get("debug"), None);
    assert_eq!(second.flags.get("name"), None);
    assert_eq!(second.flags.get("level"), Some(&text("warn")));
    assert_eq!(second.rest, tokens(&["y"]));
    let again = grammar.parse_from(tokens(&["-d", "--name=a", "x"])).unwrap();
    assert_eq!(again.rest, first.rest);
    assert_eq!(again.flags.len(), first.flags.len());
    assert_eq!(again.flags.entry_at(0), first.flags.entry_at(0));
    assert_eq!(again.flags.entry_at(1), first.flags.entry_at(1));
    assert_eq!(again.flags.entry_at(2), first.flags.entry_at(2));
    assert_eq!(again.flags.entry_at(3), first.flags.entry_at(3));
}

#[test]
fn failed_parse_leaves_grammar_usable() {
    let grammar = sample();
    assert!(grammar.parse_from(tokens(&["--bogus"])).is_err());
    let result = grammar.parse_from(tokens(&["-d"])).unwrap();
    assert_eq!(result.flags.get("debug"), Some(&FlagValue::Bool(true)));
}

#[test]
fn switch_default_is_recorded_as_empty_text() {
    let grammar = sample();
    let result = grammar.parse_from(Vec::new()).unwrap();
    assert_eq!(result.flags.get("color"), Some(&text("")));
    assert_eq!(result.flags.get("level"), Some(&text("info")));
    assert_eq!(result.flags.get("debug"), None);
    assert_eq!(result.flags.get("name"), None);
    assert_eq!(result.flags.len(), 2);
}

#[test]
fn given_value_wins_over_default() {
    let grammar = sample();
    let result = grammar.parse_from(tokens(&["--level=debug", "--color"])).unwrap();
    assert_eq!(result.flags.get("level"), Some(&text("debug")));
    assert_eq!(result.flags.get("color"), Some(&FlagValue::Bool(true)));
}

#[test]
fn later_occurrence_overwrites_earlier() {
    let grammar = sample();
    let result = grammar.parse_from(tokens(&["--name=a", "-n", "b", "--color", "--no-color"]))
        .unwrap();
    assert_eq!(result.flags.get("name"), Some(&text("b")));
    assert_eq!(result.flags.get("color"), Some(&FlagValue::Bool(false)));
}

#[test]
fn long_option_takes_inline_or_next_value() {
    let grammar = sample();
    let inline = grammar.parse_from(tokens(&["--name=alice", "x"])).unwrap();
    assert_eq!(inline.flags.get("name"), Some(&text("alice")));
    assert_eq!(inline.rest, tokens(&["x"]));
    let next = grammar.parse_from(tokens(&["--name", "alice", "x"])).unwrap();
    assert_eq!(next.flags.get("name"), Some(&text("alice")));
    assert_eq!(next.rest, tokens(&["x"]));
    let empty = grammar.parse_from(tokens(&["--name="])).unwrap();
    assert_eq!(empty.flags.get("name"), Some(&text("")));
}

#[test]
fn unknown_short_flag_fails() {
    let grammar = sample();
    assert_eq!(grammar.parse_from(tokens(&["-x"])).unwrap_err(), ParseError::UnknownFlag('x'));
}

#[test]
fn missing_value_fails() {
    let grammar = sample();
    assert_eq!(
        grammar.parse_from(tokens(&["-n"])).unwrap_err(),
        ParseError::MissingValue("name".into())
    );
    assert_eq!(
        grammar.parse_from(tokens(&["x", "--name"])).unwrap_err(),
        ParseError::MissingValue("name".into())
    );
}

#[test]
fn extra_value_fails() {
    let grammar = sample();
    assert_eq!(
        grammar.parse_from(tokens(&["--debug=yes"])).unwrap_err(),
        ParseError::ExtraValue("debug".into())
    );
}

#[test]
fn unknown_negated_option_fails_with_full_name() {
    let grammar = sample();
    assert_eq!(
        grammar.parse_from(tokens(&["--no-such"])).unwrap_err(),
        ParseError::UnknownOption("no-such".into())
    );
}

#[test]
fn negating_a_value_option_fails() {
    let grammar = sample();
    assert_eq!(
        grammar.parse_from(tokens(&["--no-name"])).unwrap_err(),
        ParseError::CannotNegateOption("no-name".into())
    );
}

#[test]
fn negating_a_fixed_switch_fails() {
    let grammar = sample();
    assert_eq!(
        grammar.parse_from(tokens(&["--no-debug"])).unwrap_err(),
        ParseError::NotNegatable("no-debug".into())
    );
}

#[test]
fn second_equals_sign_fails() {
    let grammar = sample();
    assert_eq!(
        grammar.parse_from(tokens(&["--name=a=b"])).unwrap_err(),
        ParseError::InvalidLongOptionSyntax("--name=a=b".into())
    );
    assert_eq!(
        grammar.parse_from(tokens(&["--bogus=a=b"])).unwrap_err(),
        ParseError::InvalidLongOptionSyntax("--bogus=a=b".into())
    );
}

#[test]
fn lone_line_break_value_is_passed_over() {
    let grammar = sample();
    let result = grammar.parse_from(tokens(&["--name=\n", "--bogus=\r", "--name=\n\n"])).unwrap();
    assert_eq!(result.rest, tokens(&["--name=\n", "--bogus=\r"]));
    assert_eq!(result.flags.get("name"), Some(&text("\n\n")));
}

#[test]
fn first_failure_ends_the_parse() {
    let grammar = sample();
    assert_eq!(
        grammar.parse_from(tokens(&["-x", "--bogus"])).unwrap_err(),
        ParseError::UnknownFlag('x')
    );
    assert_eq!(
        grammar.parse_from(tokens(&["--bogus", "-x"])).unwrap_err(),
        ParseError::UnknownOption("bogus".into())
    );
}

#[test]
fn scan_failure_comes_before_required_check() {
    let mut grammar = ArgParser::new();
    grammar.add_option("need".into(), None, None, None, None, None, true);
    assert_eq!(
        grammar.parse_from(tokens(&["--bogus"])).unwrap_err(),
        ParseError::UnknownOption("bogus".into())
    );
}

#[test]
fn only_alphabetic_characters_make_solo_options() {
    let grammar = sample();
    let result = grammar.parse_from(tokens(&["-1", "-=", "-", "-dd", "d"])).unwrap();
    assert_eq!(result.rest, tokens(&["-1", "-=", "-", "-dd", "d"]));
    assert_eq!(result.flags.get("debug"), None);
    assert_eq!(grammar.parse_from(tokens(&["-D"])).unwrap_err(), ParseError::UnknownFlag('D'));
}

#[test]
fn alphabetic_character_beyond_ascii_makes_a_solo_option() {
    let mut grammar = ArgParser::new();
    grammar.add_flag("eclair".into(), Some('é'), None, false, false);
    let result = grammar.parse_from(tokens(&["-é"])).unwrap();
    assert_eq!(result.flags.get("eclair"), Some(&FlagValue::Bool(true)));
    assert_eq!(grammar.parse_from(tokens(&["-ß"])).unwrap_err(), ParseError::UnknownFlag('ß'));
}

#[test]
fn failed_step_leaves_parser_as_it_was() {
    let mut parser = Parser::new(None, sample(), tokens(&["a", "-d", "-n"]), None);
    assert_eq!(parser.parse(), Err(ParseError::MissingValue("name".into())));
    assert_eq!(parser.rest, tokens(&["a"]));
    assert_eq!(parser.results.get("debug"), Some(&FlagValue::Bool(true)));
    assert_eq!(parser.current(), Some(&"-n".to_string()));
    assert_eq!(parser.args.len(), 1);
}

#[test]
fn parser_keeps_tokens_after_terminator_in_queue() {
    let mut parser = Parser::new(Some("top".into()), sample(), tokens(&["--", "x", "y"]), None);
    assert_eq!(parser.parse(), Ok(()));
    assert_eq!(parser.rest, tokens(&["x", "y"]));
    assert_eq!(parser.args.len(), 2);
    assert_eq!(parser.name, Some("top".to_string()));
}

#[test]
fn recognisers_report_whether_they_handled_the_token() {
    let mut parser = Parser::new(None, sample(), tokens(&["plain", "--debug", "-d"]), None);
    assert_eq!(parser.parse_solo_option(), Ok(false));
    assert_eq!(parser.parse_long_option(), Ok(false));
    assert_eq!(parser.args.len(), 3);
    parser.args.pop_front();
    assert_eq!(parser.parse_solo_option(), Ok(false));
    assert_eq!(parser.parse_long_option(), Ok(true));
    assert_eq!(parser.parse_long_option(), Ok(false));
    assert_eq!(parser.parse_solo_option(), Ok(true));
    assert_eq!(parser.current(), None);
    assert_eq!(parser.results.get("debug"), Some(&FlagValue::Bool(true)));
}

#[test]
fn handlers_work_on_the_front_of_the_queue() {
    let mut parser = Parser::new(None, sample(), tokens(&["-n", "v", "--level=x", "t"]), None);
    assert_eq!(parser.handle_solo_option('n'), Ok(true));
    assert_eq!(parser.results.get("name"), Some(&text("v")));
    assert_eq!(parser.handle_long_option("level", Some("x")), Ok(true));
    assert_eq!(parser.results.get("level"), Some(&text("x")));
    assert_eq!(parser.current(), Some(&"t".to_string()));
    assert_eq!(parser.handle_solo_option('q'), Err(ParseError::UnknownFlag('q')));
    assert_eq!(
        parser.handle_long_option("debug", Some("1")),
        Err(ParseError::ExtraValue("debug".into()))
    );
    assert_eq!(parser.current(), Some(&"t".to_string()));
    assert_eq!(parser.accept_solo_option('d', false), Ok(false));
    assert_eq!(parser.results.get("debug"), None);
    assert_eq!(parser.accept_solo_option('d', true), Ok(true));
    assert_eq!(parser.results.get("debug"), Some(&FlagValue::Bool(true)));
    assert_eq!(parser.current(), None);
}

#[test]
fn clusters_and_attached_values_are_passed_over() {
    let grammar = sample();
    let result = grammar.parse_from(tokens(&["-dn", "-nalice", "-d=1"])).unwrap();
    assert_eq!(result.rest, tokens(&["-dn", "-nalice", "-d=1"]));
    assert_eq!(result.flags.get("debug"), None);
    assert_eq!(result.flags.get("name"), None);
}

#[test]
fn toggle_for_unrecognised_tokens_does_not_change_parsing() {
    let mut grammar = sample();
    grammar.allow_anything(true);
    assert_eq!(
        grammar.parse_from(tokens(&["--bogus"])).unwrap_err(),
        ParseError::UnknownOption("bogus".into())
    );
    assert_eq!(grammar.parse_from(tokens(&["-x"])).unwrap_err(), ParseError::UnknownFlag('x'));
    let result = grammar.parse_from(tokens(&["free"])).unwrap();
    assert_eq!(result.rest, tokens(&["free"]));
}

#[test]
fn empty_token_is_passed_over() {
    let grammar = sample();
    let result = grammar.parse_from(tokens(&["", "-d", ""])).unwrap();
    assert_eq!(result.rest, tokens(&["", ""]));
    assert_eq!(result.flags.get("debug"), Some(&FlagValue::Bool(true)));
}

#[test]
fn empty_long_name_is_looked_up_like_any_other() {
    let grammar = sample();
    assert_eq!(
        grammar.parse_from(tokens(&["--=x"])).unwrap_err(),
        ParseError::UnknownOption("".into())
    );
    assert_eq!(
        grammar.parse_from(tokens(&["--no-"])).unwrap_err(),
        ParseError::UnknownOption("no-".into())
    );
}

#[test]
fn solo_option_goes_by_the_alphabetic_property() {
    let mut parser = Parser::new(None, sample(), tokens(&["-京", "- ", "--"]), None);
    assert_eq!(parser.parse_solo_option(), Err(ParseError::UnknownFlag('京')));
    parser.args.pop_front();
    assert_eq!(parser.parse_solo_option(), Ok(false));
    parser.args.pop_front();
    assert_eq!(parser.parse_solo_option(), Ok(false));
    assert_eq!(parser.args.len(), 1);
}
