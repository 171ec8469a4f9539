use pest::error::Error;
use pest::iterators::Pairs;
use pest::{ParseResult, ParserState, RuleType};
use pest_ascii_tree::{into_ascii_tree, report, ParseNode, Report};

// A parser for sums with parentheses, written by hand on `pest`'s state:
//
//   val       = { 'a'..'z'+ }
//   op        = { "+" }
//   expr      = { expr_root }
//   expr_root = _{ term ~ (op ~ term)* }      term = _{ val | "(" ~ expr ~ ")" }
//   root      = _{ SOI ~ expr ~ EOI }
//
// with blanks between the parts.

#[allow(non_camel_case_types, clippy::upper_case_acronyms)]
#[derive(Clone, Copy, Debug, PartialEq, Eq, PartialOrd, Ord, Hash)]
enum Rule {
    EOI,
    root,
    expr,
    expr_root,
    val,
    op,
}

type State<'i> = Box<ParserState<'i, Rule>>;

fn blanks(state: State<'_>) -> ParseResult<State<'_>> {
    state.repeat(|state| state.match_string(" "))
}

fn val(state: State<'_>) -> ParseResult<State<'_>> {
    state.rule(Rule::val, |state| {
        state
            .match_range('a'..'z')
            .and_then(|state| state.repeat(|state| state.match_range('a'..'z')))
    })
}

fn op(state: State<'_>) -> ParseResult<State<'_>> {
    state.rule(Rule::op, |state| state.match_string("+"))
}

fn term(state: State<'_>) -> ParseResult<State<'_>> {
    val(state).or_else(|state| {
        state.sequence(|state| {
            state
                .match_string("(")
                .and_then(blanks)
                .and_then(expr)
                .and_then(blanks)
                .and_then(|state| state.match_string(")"))
        })
    })
}

fn expr_root(state: State<'_>) -> ParseResult<State<'_>> {
    state.sequence(|state| {
        term(state).and_then(|state| {
            state.repeat(|state| {
                state.sequence(|state| {
                    blanks(state).and_then(op).and_then(blanks).and_then(term)
                })
            })
        })
    })
}

fn expr(state: State<'_>) -> ParseResult<State<'_>> {
    state.rule(Rule::expr, expr_root)
}

fn root(state: State<'_>) -> ParseResult<State<'_>> {
    state.sequence(|state| {
        state
            .start_of_input()
            .and_then(expr)
            .and_then(|state| state.rule(Rule::EOI, |state| state.end_of_input()))
    })
}

fn parse(rule: Rule, input: &str) -> Result<Pairs<'_, Rule>, Error<Rule>> {
    pest::state(input, |state| match rule {
        Rule::EOI => state.rule(Rule::EOI, |state| state.end_of_input()),
        Rule::root => root(state),
        Rule::expr => expr(state),
        Rule::expr_root => expr_root(state),
        Rule::val => val(state),
        Rule::op => op(state),
    })
}

fn forest_of<R: RuleType>(pairs: Pairs<'_, R>) -> Vec<ParseNode> {
    pairs
        .map(|pair| ParseNode {
            rule: format!("{:?}", pair.as_rule()),
            text: pair.as_span().as_str().to_string(),
            children: forest_of(pair.into_inner()),
        })
        .collect()
}

#[test]
fn it_works() {
    let result = into_ascii_tree(&forest_of(parse(Rule::expr, "a + b + c").unwrap())).unwrap();
    assert_eq!(
        result,
        String::new()
            + " expr\n"
            + " ├─ val \"a\"\n"
            + " ├─ op \"+\"\n"
            + " ├─ val \"b\"\n"
            + " ├─ op \"+\"\n"
            + " └─ val \"c\"\n"
    );

    let result =
        into_ascii_tree(&forest_of(parse(Rule::expr_root, "x + y + z").unwrap())).unwrap();
    assert_eq!(
        result,
        String::new()
            + " ├─ val \"x\"\n"
            + " ├─ op \"+\"\n"
            + " ├─ val \"y\"\n"
            + " ├─ op \"+\"\n"
            + " └─ val \"z\"\n"
    );

    let result = into_ascii_tree(&forest_of(parse(Rule::val, "m").unwrap())).unwrap();
    assert_eq!(result, String::new() + " val \"m\"\n");

    let result = into_ascii_tree(&forest_of(
        parse(Rule::expr, "(u + (v + w)) + (x + y) + z").unwrap(),
    ))
    .unwrap();
    assert_eq!(
        result,
        String::new()
            + " expr\n"
            + " ├─ expr\n"
            + " │  ├─ val \"u\"\n"
            + " │  ├─ op \"+\"\n"
            + " │  └─ expr\n"
            + " │     ├─ val \"v\"\n"
            + " │     ├─ op \"+\"\n"
            + " │     └─ val \"w\"\n"
            + " ├─ op \"+\"\n"
            + " ├─ expr\n"
            + " │  ├─ val \"x\"\n"
            + " │  ├─ op \"+\"\n"
            + " │  └─ val \"y\"\n"
            + " ├─ op \"+\"\n"
            + " └─ val \"z\"\n"
    );

    let result = into_ascii_tree(&forest_of(
        parse(Rule::root, "(u + (v + w)) + (x + y) + z").unwrap(),
    ))
    .unwrap();
    assert_eq!(
        result,
        String::new()
            + " expr\n"
            + " ├─ expr\n"
            + " │  ├─ val \"u\"\n"
            + " │  ├─ op \"+\"\n"
            + " │  └─ expr\n"
            + " │     ├─ val \"v\"\n"
            + " │     ├─ op \"+\"\n"
            + " │     └─ val \"w\"\n"
            + " ├─ op \"+\"\n"
            + " ├─ expr\n"
            + " │  ├─ val \"x\"\n"
            + " │  ├─ op \"+\"\n"
            + " │  └─ val \"y\"\n"
            + " ├─ op \"+\"\n"
            + " └─ val \"z\"\n"
    );

    let result = into_ascii_tree(&forest_of(
        parse(Rule::expr_root, "(u + (v + w)) + (x + y) + z").unwrap(),
    ))
    .unwrap();
    assert_eq!(
        result,
        String::new()
            + " ├─ expr\n"
            + " │  ├─ val \"u\"\n"
            + " │  ├─ op \"+\"\n"
            + " │  └─ expr\n"
            + " │     ├─ val \"v\"\n"
            + " │     ├─ op \"+\"\n"
            + " │     └─ val \"w\"\n"
            + " ├─ op \"+\"\n"
            + " ├─ expr\n"
            + " │  ├─ val \"x\"\n"
            + " │  ├─ op \"+\"\n"
            + " │  └─ val \"y\"\n"
            + " ├─ op \"+\"\n"
            + " └─ val \"z\"\n"
    );
}

#[test]
fn the_end_of_input_is_matched_and_left_out() {
    let forest = forest_of(parse(Rule::root, "a + b").unwrap());
    assert_eq!(forest.len(), 2);
    assert_eq!(forest[1].rule, "EOI");
    assert_eq!(
        into_ascii_tree(&forest).unwrap(),
        " expr\n ├─ val \"a\"\n ├─ op \"+\"\n └─ val \"b\"\n"
    );
    let forest = forest_of(parse(Rule::EOI, "").unwrap());
    assert_eq!(forest.len(), 1);
    assert_eq!(into_ascii_tree(&forest).unwrap(), "");
}

#[test]
fn a_parse_is_reported_on_one_stream() {
    let parsed = parse(Rule::expr, "a + b").map(forest_of).map_err(|error| error.to_string());
    assert_eq!(
        report(parsed),
        Report::Output(" expr\n ├─ val \"a\"\n ├─ op \"+\"\n └─ val \"b\"\n".to_string())
    );
    let failed = parse(Rule::expr, "+").unwrap_err();
    let parsed = parse(Rule::expr, "+").map(forest_of).map_err(|error| error.to_string());
    assert_eq!(report(parsed), Report::Diagnostic(failed.to_string()));
}
