use shparse::lexer::{starts_with_symbol, LexicalAnalyzer, LexicalError};
use shparse::token::{Sym, Token};

#[test]
fn test_analyzer() {
    let string = "Hello World, you are \"sometimes\" 'ok' && sometimes not!!!";
    println!("String: {}", string);
    let mut lexer = LexicalAnalyzer::new();
    lexer.tokenize(&string).unwrap();
    println!("Token list: {:?}", lexer.token_list);
}

#[test]
fn test_symbol_presence() {
    let string = "<< Help";
    match starts_with_symbol(string) {
        Some(x) => println!("{}", x),
        None => (),
    }
}

#[test]
fn symbol_longest_match_first() {
    assert_eq!(starts_with_symbol("<< Help"), Some("<<"));
    assert_eq!(starts_with_symbol("&& x"), Some("&&"));
    assert_eq!(starts_with_symbol("&x"), Some("&"));
    assert_eq!(starts_with_symbol(">>out"), Some(">>"));
    assert_eq!(starts_with_symbol(">out"), Some(">"));
    assert_eq!(starts_with_symbol("||"), Some("||"));
    assert_eq!(starts_with_symbol(";rest"), Some(";"));
    assert_eq!(starts_with_symbol("abc"), None);
    assert_eq!(starts_with_symbol(""), None);
}

#[test]
fn longest_match_double_ampersand() {
    let mut lexer = LexicalAnalyzer::new();
    lexer.tokenize("&&").unwrap();
    assert_eq!(lexer.token_list, vec![Token::Symbols(Sym::AndAnd)]);
}

#[test]
fn whitespace_only_separates() {
    let mut one = LexicalAnalyzer::new();
    one.tokenize("a b").unwrap();
    let mut two = LexicalAnalyzer::new();
    two.tokenize("a  b").unwrap();
    let sig = |l: &LexicalAnalyzer| -> Vec<Token> {
        l.token_list
            .iter()
            .filter(|t| !matches!(t, Token::WhiteSpace))
            .map(|t| t.dup())
            .collect()
    };
    let expected = vec![
        Token::VarString("a".to_string()),
        Token::VarString("b".to_string()),
    ];
    assert_eq!(sig(&one), expected);
    assert_eq!(sig(&two), expected);
}

#[test]
fn quoted_spans_are_literal() {
    let mut lexer = LexicalAnalyzer::new();
    lexer.tokenize("say \"a 'b' c\" 'd \"e\"'").unwrap();
    assert_eq!(
        lexer.token_list,
        vec![
            Token::VarString("say".to_string()),
            Token::WhiteSpace,
            Token::VarString("a 'b' c".to_string()),
            Token::WhiteSpace,
            Token::VarString("d \"e\"".to_string()),
        ]
    );
}

#[test]
fn text_run_flushed_before_interrupting_token() {
    let mut lexer = LexicalAnalyzer::new();
    lexer.tokenize("ab&&cd'q'").unwrap();
    assert_eq!(
        lexer.token_list,
        vec![
            Token::VarString("ab".to_string()),
            Token::Symbols(Sym::AndAnd),
            Token::VarString("cd".to_string()),
            Token::VarString("q".to_string()),
        ]
    );
}

#[test]
fn reconstruction_from_tokens() {
    // No quoted span in this input, so each token's source text is the
    // token's own text (one space per whitespace token).
    let input = "ls -l | wc >>out;x";
    let mut lexer = LexicalAnalyzer::new();
    lexer.tokenize(input).unwrap();
    let mut rebuilt = String::new();
    for t in lexer.token_list.iter() {
        match t {
            Token::WhiteSpace => rebuilt.push(' '),
            Token::Symbols(s) => rebuilt.push_str(s.text()),
            Token::VarString(v) => rebuilt.push_str(v),
        }
    }
    assert_eq!(rebuilt, input);
}

#[test]
fn unterminated_quote_is_reported() {
    let mut lexer = LexicalAnalyzer::new();
    let r = lexer.tokenize("echo \"hi");
    assert_eq!(r, Err(LexicalError::UnterminatedQuote));
    assert!(lexer.token_list.is_empty());

    let mut single = LexicalAnalyzer::new();
    let r = single.tokenize("echo 'hi");
    assert_eq!(r, Err(LexicalError::UnterminatedQuote));
}

#[test]
fn empty_input_yields_no_tokens() {
    let mut lexer = LexicalAnalyzer::new();
    lexer.tokenize("").unwrap();
    assert!(lexer.token_list.is_empty());
}

#[test]
fn tokenize_appends_across_calls() {
    let mut lexer = LexicalAnalyzer::new();
    lexer.tokenize("a").unwrap();
    lexer.tokenize(";").unwrap();
    assert_eq!(
        lexer.token_list,
        vec![
            Token::VarString("a".to_string()),
            Token::Symbols(Sym::Semi),
        ]
    );
}
