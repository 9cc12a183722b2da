//! Lexical tokens: the wire format between the tokenizer and the parser.

use vstd::prelude::*;

verus! {

/// One of the fixed, closed set of operator strings the tokenizer recognises.
/// The two-character symbols exist so that longest-match tokenization keeps
/// `&&` from being read as two `&`; the grammar itself only consumes `;`,
/// `&`, `|`, `<` and `>`.
#[derive(Clone, Copy, Debug, PartialEq, Eq, Structural)]
pub enum Sym {
    AndAnd,
    OrOr,
    GtGt,
    LtLt,
    Semi,
    Amp,
    Pipe,
    Gt,
    Lt,
}

/// The characters a symbol is written with.
pub open spec fn sym_text(s: Sym) -> Seq<char> {
    match s {
        Sym::AndAnd => seq!['&', '&'],
        Sym::OrOr => seq!['|', '|'],
        Sym::GtGt => seq!['>', '>'],
        Sym::LtLt => seq!['<', '<'],
        Sym::Semi => seq![';'],
        Sym::Amp => seq!['&'],
        Sym::Pipe => seq!['|'],
        Sym::Gt => seq!['>'],
        Sym::Lt => seq!['<'],
    }
}

/// How many characters a symbol is written with.
pub open spec fn sym_len(s: Sym) -> int {
    match s {
        Sym::AndAnd | Sym::OrOr | Sym::GtGt | Sym::LtLt => 2,
        Sym::Semi | Sym::Amp | Sym::Pipe | Sym::Gt | Sym::Lt => 1,
    }
}

impl Sym {
    /// The operator text of this symbol.
    pub fn text(&self) -> (r: &'static str)
        ensures
            r@ == sym_text(*self),
    {
        proof {
            reveal_strlit("&&");
            reveal_strlit("||");
            reveal_strlit(">>");
            reveal_strlit("<<");
            reveal_strlit(";");
            reveal_strlit("&");
            reveal_strlit("|");
            reveal_strlit(">");
            reveal_strlit("<");
        }
        match self {
            Sym::AndAnd => "&&",
            Sym::OrOr => "||",
            Sym::GtGt => ">>",
            Sym::LtLt => "<<",
            Sym::Semi => ";",
            Sym::Amp => "&",
            Sym::Pipe => "|",
            Sym::Gt => ">",
            Sym::Lt => "<",
        }
    }
}

/// One lexical token.
#[derive(Debug, PartialEq)]
pub enum Token {
    /// A single space or tab character.
    WhiteSpace,
    /// One operator of the fixed symbol set.
    Symbols(Sym),
    /// A run of unrecognised characters, or the body of a quoted span with
    /// the quote characters stripped.
    VarString(String),
}

/// The mathematical model of a token: payload text as a sequence of
/// characters.
pub enum TokenView {
    WhiteSpace,
    Symbols(Sym),
    VarString(Seq<char>),
}

impl View for Token {
    type V = TokenView;

    open spec fn view(&self) -> TokenView {
        match self {
            Token::WhiteSpace => TokenView::WhiteSpace,
            Token::Symbols(s) => TokenView::Symbols(*s),
            Token::VarString(t) => TokenView::VarString(t@),
        }
    }
}

impl Token {
    /// An exact copy with a contract (the derived `Clone` tells the verifier
    /// nothing).
    pub fn dup(&self) -> (t: Token)
        ensures
            t@ == self@,
    {
        match self {
            Token::WhiteSpace => Token::WhiteSpace,
            Token::Symbols(s) => Token::Symbols(*s),
            Token::VarString(v) => Token::VarString(v.clone()),
        }
    }

    /// True on the whitespace marker, which separates tokens but is never
    /// matched by a grammar rule.
    pub fn is_whitespace(&self) -> (b: bool)
        ensures
            b == !is_significant(self@),
    {
        match self {
            Token::WhiteSpace => true,
            _ => false,
        }
    }
}

/// Whitespace tokens are separators; every other token is significant to the
/// grammar.
pub open spec fn is_significant(t: TokenView) -> bool {
    !(t is WhiteSpace)
}

/// The models of a sequence of tokens.
pub open spec fn toks_view(ts: Seq<Token>) -> Seq<TokenView> {
    ts.map(|i: int, t: Token| t@)
}

/// The significant (non-whitespace) tokens of a sequence, in order.
pub open spec fn significant_of(ts: Seq<TokenView>) -> Seq<TokenView> {
    ts.filter(|t: TokenView| is_significant(t))
}

} // verus!
