use shparse::ast::{
    CommandExpr, CommandLineExpr, CommandLineOp, CommandOp, JobExpr, JobOp, SimpleCmdExpr,
};
use shparse::lexer::LexicalAnalyzer;
use shparse::parser::{ParseError, Parser};
use shparse::token::{Sym, Token};

fn parse_str(input: &str) -> Result<Option<Box<CommandLineExpr>>, ParseError> {
    let mut lexer = LexicalAnalyzer::new();
    lexer.tokenize(input).unwrap();
    let mut parser = Parser::new(lexer.token_list);
    parser.parse()
}

fn exe(path: &str) -> Box<SimpleCmdExpr> {
    Box::new(SimpleCmdExpr::Exe(path.to_string()))
}

#[test]
fn test_cmdline_expr() {
    let input = "ls > file; cat < file";
    let tree = parse_str(input).unwrap().unwrap();
    let expected = CommandLineExpr::Sequenced(
        Box::new(JobExpr::Single(Box::new(CommandExpr::Redirected(
            exe("ls"),
            CommandOp::RedirectOut,
            "file".to_string(),
        )))),
        CommandLineOp::Sequence,
        Box::new(CommandLineExpr::Single(Box::new(JobExpr::Single(
            Box::new(CommandExpr::Redirected(
                exe("cat"),
                CommandOp::RedirectIn,
                "file".to_string(),
            )),
        )))),
    );
    assert_eq!(*tree, expected);
}

#[test]
fn minimal_pipeline_round_trip() {
    let tree = parse_str("ls | wc").unwrap().unwrap();
    let expected = CommandLineExpr::Single(Box::new(JobExpr::Piped(
        Box::new(CommandExpr::Bare(exe("ls"))),
        JobOp::Pipe,
        Box::new(JobExpr::Single(Box::new(CommandExpr::Bare(exe("wc"))))),
    )));
    assert_eq!(*tree, expected);
}

#[test]
fn dangling_background_separator() {
    let tree = parse_str("sleep 5 &").unwrap().unwrap();
    let expected = CommandLineExpr::Dangling(
        Box::new(JobExpr::Single(Box::new(CommandExpr::Bare(Box::new(
            SimpleCmdExpr::ExeWithArgs("sleep".to_string(), vec!["5".to_string()]),
        ))))),
        CommandLineOp::Background,
    );
    assert_eq!(*tree, expected);
}

#[test]
fn dangling_sequence_separator() {
    let tree = parse_str("ls;").unwrap().unwrap();
    let expected = CommandLineExpr::Dangling(
        Box::new(JobExpr::Single(Box::new(CommandExpr::Bare(exe("ls"))))),
        CommandLineOp::Sequence,
    );
    assert_eq!(*tree, expected);
}

#[test]
fn trailing_garbage_is_rejected() {
    let r = parse_str("ls | | wc");
    assert_eq!(r, Err(ParseError::TrailingTokens(Token::Symbols(Sym::Pipe))));
}

#[test]
fn redirect_without_target_degrades_then_trails() {
    // The redirect operator with no filename is not consumed by the command;
    // the top-level check then rejects it as the trailing token.
    let r = parse_str("ls >");
    assert_eq!(r, Err(ParseError::TrailingTokens(Token::Symbols(Sym::Gt))));
}

#[test]
fn leading_operator_is_missing_required_token() {
    let r = parse_str("< file");
    assert_eq!(r, Err(ParseError::MissingRequiredToken));
    let r = parse_str("| ls");
    assert_eq!(r, Err(ParseError::MissingRequiredToken));
}

#[test]
fn empty_input_parses_to_none() {
    assert_eq!(parse_str(""), Ok(None));
    assert_eq!(parse_str("   "), Ok(None));
}

#[test]
fn arguments_are_collected_in_order() {
    let tree = parse_str("cp -r src dst").unwrap().unwrap();
    let expected = CommandLineExpr::Single(Box::new(JobExpr::Single(Box::new(
        CommandExpr::Bare(Box::new(SimpleCmdExpr::ExeWithArgs(
            "cp".to_string(),
            vec!["-r".to_string(), "src".to_string(), "dst".to_string()],
        ))),
    ))));
    assert_eq!(*tree, expected);
}

#[test]
fn quoted_argument_keeps_spaces() {
    let tree = parse_str("echo 'a b'").unwrap().unwrap();
    let expected = CommandLineExpr::Single(Box::new(JobExpr::Single(Box::new(
        CommandExpr::Bare(Box::new(SimpleCmdExpr::ExeWithArgs(
            "echo".to_string(),
            vec!["a b".to_string()],
        ))),
    ))));
    assert_eq!(*tree, expected);
}

#[test]
fn sequence_background_chain() {
    let tree = parse_str("a & b ; c").unwrap().unwrap();
    let expected = CommandLineExpr::Sequenced(
        Box::new(JobExpr::Single(Box::new(CommandExpr::Bare(exe("a"))))),
        CommandLineOp::Background,
        Box::new(CommandLineExpr::Sequenced(
            Box::new(JobExpr::Single(Box::new(CommandExpr::Bare(exe("b"))))),
            CommandLineOp::Sequence,
            Box::new(CommandLineExpr::Single(Box::new(JobExpr::Single(
                Box::new(CommandExpr::Bare(exe("c"))),
            )))),
        )),
    );
    assert_eq!(*tree, expected);
}

#[test]
fn reserved_symbols_trail_after_valid_parse() {
    // `&&` is recognised lexically but consumed by no production.
    let r = parse_str("ls && wc");
    assert_eq!(
        r,
        Err(ParseError::TrailingTokens(Token::Symbols(Sym::AndAnd)))
    );
}
