//! The tokenizer: one left-to-right scan of the input producing whitespace
//! markers, symbols (longest match first) and text runs, with quoted spans
//! taken literally and their quote characters stripped.

use vstd::prelude::*;

use crate::token::{is_significant, significant_of, sym_len, sym_text, toks_view, Sym, Token,
    TokenView};

verus! {

/// A space or tab: the characters that become whitespace tokens.
pub open spec fn is_ws_char(c: char) -> bool {
    c == ' ' || c == '\t'
}

/// A quote delimiter. Both kinds delimit literal spans; one kind cannot
/// close the other.
pub open spec fn is_quote_char(c: char) -> bool {
    c == '"' || c == '\''
}

/// A character that can begin a symbol. Every two-character symbol begins
/// with the one-character symbol of the same family, so this is exactly the
/// set of first characters of the symbol table.
pub open spec fn is_symbol_char(c: char) -> bool {
    c == ';' || c == '&' || c == '|' || c == '>' || c == '<'
}

/// A character that extends an unrecognised-text run.
pub open spec fn is_text_char(c: char) -> bool {
    !is_ws_char(c) && !is_quote_char(c) && !is_symbol_char(c)
}

/// The symbol that a longest-first match recognises at the head of `s`.
/// Two-character symbols are tried before their one-character prefixes.
pub open spec fn symbol_first(s: Seq<char>) -> Sym
    recommends
        s.len() > 0,
        is_symbol_char(s[0]),
{
    if s[0] == '&' {
        if s.len() > 1 && s[1] == '&' {
            Sym::AndAnd
        } else {
            Sym::Amp
        }
    } else if s[0] == '|' {
        if s.len() > 1 && s[1] == '|' {
            Sym::OrOr
        } else {
            Sym::Pipe
        }
    } else if s[0] == '>' {
        if s.len() > 1 && s[1] == '>' {
            Sym::GtGt
        } else {
            Sym::Gt
        }
    } else if s[0] == '<' {
        if s.len() > 1 && s[1] == '<' {
            Sym::LtLt
        } else {
            Sym::Lt
        }
    } else {
        Sym::Semi
    }
}

/// The smallest index at or after `from` where `q` occurs in `s`, if any.
pub open spec fn find_from(s: Seq<char>, from: int, q: char) -> Option<int>
    decreases s.len() - from
        when 0 <= from <= s.len()
{
    if from >= s.len() {
        None
    } else if s[from] == q {
        Some(from)
    } else {
        find_from(s, from + 1, q)
    }
}

/// The end of the text run that begins at `i`: the first index at or after
/// `i` holding a non-text character, or the length of `s`.
pub open spec fn run_end(s: Seq<char>, i: int) -> int
    decreases s.len() - i
        when 0 <= i <= s.len()
{
    if i < s.len() && is_text_char(s[i]) {
        run_end(s, i + 1)
    } else {
        i
    }
}

/// A token together with the source characters it was read from: whitespace
/// remembers which character it was, a quoted text span remembers its quote.
/// This is the tokenizer's mathematical result; erasing the extra detail
/// gives the tokens the parser sees.
pub enum SrcToken {
    WhiteSpace { ch: char },
    Symbols { sym: Sym },
    VarString { content: Seq<char>, quote: Option<char> },
}

/// Erase the source detail of a token.
pub open spec fn erase(t: SrcToken) -> TokenView {
    match t {
        SrcToken::WhiteSpace { ch } => TokenView::WhiteSpace,
        SrcToken::Symbols { sym } => TokenView::Symbols(sym),
        SrcToken::VarString { content, quote } => TokenView::VarString(content),
    }
}

/// Erase the source detail of a token sequence.
pub open spec fn erase_all(ts: Seq<SrcToken>) -> Seq<TokenView> {
    ts.map(|i: int, t: SrcToken| erase(t))
}

/// The source characters a token was read from, quote delimiters included.
pub open spec fn token_src(t: SrcToken) -> Seq<char> {
    match t {
        SrcToken::WhiteSpace { ch } => seq![ch],
        SrcToken::Symbols { sym } => sym_text(sym),
        SrcToken::VarString { content, quote } => match quote {
            Some(q) => seq![q] + content + seq![q],
            None => content,
        },
    }
}

/// The source characters of a token sequence, concatenated in order.
pub open spec fn tokens_src(ts: Seq<SrcToken>) -> Seq<char>
    decreases ts.len(),
{
    if ts.len() == 0 {
        Seq::empty()
    } else {
        token_src(ts[0]) + tokens_src(ts.drop_first())
    }
}

/// Prepend a token to a tokenization result; a lexical error propagates.
pub open spec fn cons_token(t: SrcToken, rest: Option<Seq<SrcToken>>) -> Option<Seq<SrcToken>> {
    match rest {
        Some(r) => Some(seq![t] + r),
        None => None,
    }
}

/// What tokenizing `s` yields: the token sequence, or `None` on an
/// unterminated quote. One token is read at the head of `s`, and the rest of
/// the input is tokenized recursively.
pub open spec fn spec_tokenize(s: Seq<char>) -> Option<Seq<SrcToken>>
    decreases s.len()
        via spec_tokenize_decreases
{
    if s.len() == 0 {
        Some(Seq::empty())
    } else {
        let c = s[0];
        if is_ws_char(c) {
            cons_token(SrcToken::WhiteSpace { ch: c }, spec_tokenize(s.skip(1)))
        } else if is_quote_char(c) {
            match find_from(s, 1, c) {
                Some(j) => cons_token(
                    SrcToken::VarString { content: s.subrange(1, j), quote: Some(c) },
                    spec_tokenize(s.skip(j + 1)),
                ),
                None => None,
            }
        } else if is_symbol_char(c) {
            let sym = symbol_first(s);
            cons_token(SrcToken::Symbols { sym }, spec_tokenize(s.skip(sym_len(sym))))
        } else {
            let e = run_end(s, 0);
            cons_token(
                SrcToken::VarString { content: s.subrange(0, e), quote: None },
                spec_tokenize(s.skip(e)),
            )
        }
    }
}

#[via_fn]
proof fn spec_tokenize_decreases(s: Seq<char>) {
    if s.len() > 0 {
        let c = s[0];
        if is_quote_char(c) {
            lemma_find_from_props(s, 1, c);
        }
        if is_symbol_char(c) {
            assert(sym_len(symbol_first(s)) == 2 ==> s.len() >= 2);
        }
        if is_text_char(c) {
            lemma_run_end_props(s, 0);
            assert(run_end(s, 0) >= 1);
        }
    }
}

/// `find_from` returns the first occurrence, and `None` only when there is
/// none.
pub proof fn lemma_find_from_props(s: Seq<char>, from: int, q: char)
    requires
        0 <= from <= s.len(),
    ensures
        match find_from(s, from, q) {
            Some(j) => from <= j < s.len() && s[j] == q && (forall|k: int|
                from <= k < j ==> s[k] != q),
            None => forall|k: int| from <= k < s.len() ==> s[k] != q,
        },
    decreases s.len() - from,
{
    if from < s.len() && s[from] != q {
        lemma_find_from_props(s, from + 1, q);
    }
}

/// The first occurrence is the one the scan finds: an index holding `q` with
/// no occurrence before it.
pub proof fn lemma_find_from_eq(s: Seq<char>, from: int, q: char, j: int)
    requires
        0 <= from <= j < s.len(),
        s[j] == q,
        forall|k: int| from <= k < j ==> s[k] != q,
    ensures
        find_from(s, from, q) == Some(j),
    decreases j - from,
{
    if from < j {
        lemma_find_from_eq(s, from + 1, q, j);
    }
}

/// With no occurrence at all, `find_from` is `None`.
pub proof fn lemma_find_from_none(s: Seq<char>, from: int, q: char)
    requires
        0 <= from <= s.len(),
        forall|k: int| from <= k < s.len() ==> s[k] != q,
    ensures
        find_from(s, from, q) is None,
    decreases s.len() - from,
{
    if from < s.len() {
        lemma_find_from_none(s, from + 1, q);
    }
}

/// The run end lies at or after `i`, every character before it is a text
/// character, and the character at it (if any) is not.
pub proof fn lemma_run_end_props(s: Seq<char>, i: int)
    requires
        0 <= i <= s.len(),
    ensures
        i <= run_end(s, i) <= s.len(),
        forall|k: int| i <= k < run_end(s, i) ==> is_text_char(s[k]),
        run_end(s, i) < s.len() ==> !is_text_char(s[run_end(s, i)]),
    decreases s.len() - i,
{
    if i < s.len() && is_text_char(s[i]) {
        lemma_run_end_props(s, i + 1);
    }
}

/// The run end is the index the scan finds: text characters up to it, and a
/// non-text character (or the end of input) at it.
pub proof fn lemma_run_end_eq(s: Seq<char>, i: int, e: int)
    requires
        0 <= i <= e <= s.len(),
        forall|k: int| i <= k < e ==> is_text_char(s[k]),
        e < s.len() ==> !is_text_char(s[e]),
    ensures
        run_end(s, i) == e,
    decreases e - i,
{
    if i < e {
        lemma_run_end_eq(s, i + 1, e);
    }
}

} // verus!

verus! {

/// Glue an already-read prefix of tokens onto the tokenization of the rest
/// of the input.
pub open spec fn glue(gs: Seq<SrcToken>, rest: Option<Seq<SrcToken>>) -> Option<Seq<SrcToken>> {
    match rest {
        Some(r) => Some(gs + r),
        None => None,
    }
}

/// Reading one more token moves it from the pending rest into the prefix.
proof fn lemma_glue_step(s: Seq<char>, i: int, i2: int, gs: Seq<SrcToken>, g: SrcToken)
    requires
        spec_tokenize(s) == glue(gs, spec_tokenize(s.skip(i))),
        spec_tokenize(s.skip(i)) == cons_token(g, spec_tokenize(s.skip(i2))),
    ensures
        spec_tokenize(s) == glue(gs.push(g), spec_tokenize(s.skip(i2))),
{
    match spec_tokenize(s.skip(i2)) {
        Some(r) => {
            assert(gs + (seq![g] + r) =~= gs.push(g) + r);
        },
        None => {},
    }
}

/// Pushing an executable token and its source-level counterpart keeps the
/// two sequences aligned.
proof fn lemma_views_push(ts: Seq<Token>, t: Token, gs: Seq<SrcToken>, g: SrcToken)
    requires
        toks_view(ts) == erase_all(gs),
        t@ == erase(g),
    ensures
        toks_view(ts.push(t)) == erase_all(gs.push(g)),
{
    let a = toks_view(ts);
    let b = erase_all(gs);
    assert(a.len() == ts.len()) by {
        reveal_with_fuel(Seq::map, 1);
        assert(a == ts.map(|i: int, x: Token| x@));
    }
    assert(b.len() == gs.len());
    assert forall|k: int| 0 <= k < ts.len() + 1 implies toks_view(ts.push(t))[k] == erase_all(
        gs.push(g),
    )[k] by {
        if k < ts.len() {
            assert(toks_view(ts)[k] == erase_all(gs)[k]);
        }
    }
    assert(toks_view(ts.push(t)) =~= erase_all(gs.push(g)));
}

/// Token views of a concatenation are the concatenated token views.
proof fn lemma_toks_view_concat(a: Seq<Token>, b: Seq<Token>)
    ensures
        toks_view(a + b) == toks_view(a) + toks_view(b),
{
    assert forall|k: int| 0 <= k < a.len() + b.len() implies toks_view(a + b)[k] == (toks_view(a)
        + toks_view(b))[k] by {
        if k < a.len() {
            assert((a + b)[k] == a[k]);
        } else {
            assert((a + b)[k] == b[k - a.len()]);
        }
    }
    assert(toks_view(a + b) =~= toks_view(a) + toks_view(b));
}

/// True on the characters that extend an unrecognised-text run.
fn is_text(c: char) -> (r: bool)
    ensures
        r == is_text_char(c),
{
    !(c == ' ' || c == '\t' || c == '"' || c == '\'' || c == ';' || c == '&' || c == '|' || c
        == '>' || c == '<')
}

/// The symbol that longest-first matching recognises at the head of `line`,
/// as its operator text, or `None` when `line` does not start with a symbol.
/// Every two-character symbol is its one-character prefix doubled, so the
/// longest-match rule is one character of lookahead.
pub fn starts_with_symbol(line: &str) -> (r: Option<&'static str>)
    ensures
        match r {
            Some(t) => line@.len() > 0 && is_symbol_char(line@[0]) && t@ == sym_text(
                symbol_first(line@),
            ),
            None => line@.len() == 0 || !is_symbol_char(line@[0]),
        },
{
    let n = line.unicode_len();
    if n == 0 {
        return None;
    }
    let c = line.get_char(0);
    if c == ';' || c == '&' || c == '|' || c == '>' || c == '<' {
        let doubled = n > 1 && line.get_char(1) == c;
        let sym = if c == '&' {
            if doubled {
                Sym::AndAnd
            } else {
                Sym::Amp
            }
        } else if c == '|' {
            if doubled {
                Sym::OrOr
            } else {
                Sym::Pipe
            }
        } else if c == '>' {
            if doubled {
                Sym::GtGt
            } else {
                Sym::Gt
            }
        } else if c == '<' {
            if doubled {
                Sym::LtLt
            } else {
                Sym::Lt
            }
        } else {
            Sym::Semi
        };
        Some(sym.text())
    } else {
        None
    }
}

/// The tokenizer's error: an opening quote with no matching closing quote
/// before the end of the input.
#[derive(Debug, PartialEq, Eq)]
pub enum LexicalError {
    UnterminatedQuote,
}

/// The tokenizer. Each call of `tokenize` appends the tokens of one input
/// string to `token_list`.
pub struct LexicalAnalyzer {
    pub token_list: Vec<Token>,
}

impl LexicalAnalyzer {
    /// A tokenizer with an empty token list.
    pub fn new() -> (r: LexicalAnalyzer)
        ensures
            r.token_list@.len() == 0,
    {
        LexicalAnalyzer { token_list: Vec::new() }
    }

    /// Scan `input` once, left to right, and append its tokens to
    /// `token_list`. On an unterminated quote nothing is appended and the
    /// lexical error is returned instead.
    pub fn tokenize(&mut self, input: &str) -> (r: Result<(), LexicalError>)
        ensures
            match spec_tokenize(input@) {
                Some(g) => r is Ok && toks_view(final(self).token_list@) == toks_view(
                    old(self).token_list@,
                ) + erase_all(g),
                None => r == Err::<(), LexicalError>(LexicalError::UnterminatedQuote)
                    && *final(self) == *old(self),
            },
    {
        let ghost s = input@;
        let n = input.unicode_len();
        let mut out: Vec<Token> = Vec::new();
        let ghost mut gs: Seq<SrcToken> = Seq::empty();
        let mut i: usize = 0;
        proof {
            assert(s.skip(0) =~= s);
            assert(glue(gs, spec_tokenize(s)) == spec_tokenize(s));
        }
        while i < n
            invariant
                s == input@,
                n == s.len(),
                i <= n,
                spec_tokenize(s) == glue(gs, spec_tokenize(s.skip(i as int))),
                toks_view(out@) == erase_all(gs),
            decreases n - i,
        {
            let ghost w = s.skip(i as int);
            proof {
                assert(w.len() == n - i);
            }
            let c = input.get_char(i);
            if c == ' ' || c == '\t' {
                let ghost g = SrcToken::WhiteSpace { ch: c };
                let ghost prev = out@;
                out.push(Token::WhiteSpace);
                proof {
                    assert(spec_tokenize(w) == cons_token(g, spec_tokenize(w.skip(1))));
                    assert(w.skip(1) =~= s.skip(i + 1));
                    lemma_glue_step(s, i as int, i + 1, gs, g);
                    lemma_views_push(prev, Token::WhiteSpace, gs, g);
                    gs = gs.push(g);
                }
                i = i + 1;
            } else if c == '"' || c == '\'' {
                let mut j = i + 1;
                while j < n && input.get_char(j) != c
                    invariant
                        s == input@,
                        n == s.len(),
                        i + 1 <= j <= n,
                        i < n,
                        c == s[i as int],
                        forall|k: int| i + 1 <= k < j ==> s[k] != c,
                    decreases n - j,
                {
                    j = j + 1;
                }
                if j == n {
                    proof {
                        assert forall|k: int| 1 <= k < w.len() implies w[k] != c by {
                            assert(w[k] == s[i + k]);
                        }
                        lemma_find_from_none(w, 1, c);
                        assert(spec_tokenize(w) is None);
                    }
                    return Err(LexicalError::UnterminatedQuote);
                }
                let content = input.substring_char(i + 1, j);
                let tok = Token::VarString(content.to_owned());
                let ghost g = SrcToken::VarString {
                    content: w.subrange(1, j - i),
                    quote: Some(c),
                };
                let ghost prev = out@;
                out.push(tok);
                proof {
                    assert(w[j - i] == s[j as int]);
                    assert forall|k: int| 1 <= k < j - i implies w[k] != c by {
                        assert(w[k] == s[i + k]);
                    }
                    lemma_find_from_eq(w, 1, c, j - i);
                    assert(spec_tokenize(w) == cons_token(g, spec_tokenize(w.skip(j - i + 1))));
                    assert(w.subrange(1, j - i) =~= s.subrange(i + 1, j as int));
                    assert(w.skip(j - i + 1) =~= s.skip(j + 1));
                    lemma_glue_step(s, i as int, j + 1, gs, g);
                    lemma_views_push(prev, tok, gs, g);
                    gs = gs.push(g);
                }
                i = j + 1;
            } else if c == ';' || c == '&' || c == '|' || c == '>' || c == '<' {
                let doubled = c != ';' && i + 1 < n && input.get_char(i + 1) == c;
                let sym = if c == ';' {
                    Sym::Semi
                } else if c == '&' {
                    if doubled {
                        Sym::AndAnd
                    } else {
                        Sym::Amp
                    }
                } else if c == '|' {
                    if doubled {
                        Sym::OrOr
                    } else {
                        Sym::Pipe
                    }
                } else if c == '>' {
                    if doubled {
                        Sym::GtGt
                    } else {
                        Sym::Gt
                    }
                } else {
                    if doubled {
                        Sym::LtLt
                    } else {
                        Sym::Lt
                    }
                };
                let wdt: usize = if doubled {
                    2
                } else {
                    1
                };
                let ghost g = SrcToken::Symbols { sym };
                let ghost prev = out@;
                out.push(Token::Symbols(sym));
                proof {
                    assert(w.len() > 1 ==> w[1] == s[i + 1]);
                    assert(sym == symbol_first(w));
                    assert(wdt as int == sym_len(sym));
                    assert(spec_tokenize(w) == cons_token(g, spec_tokenize(w.skip(sym_len(sym)))));
                    assert(w.skip(wdt as int) =~= s.skip(i + wdt));
                    lemma_glue_step(s, i as int, i + wdt, gs, g);
                    lemma_views_push(prev, Token::Symbols(sym), gs, g);
                    gs = gs.push(g);
                }
                i = i + wdt;
            } else {
                let mut e = i + 1;
                while e < n && is_text(input.get_char(e))
                    invariant
                        s == input@,
                        n == s.len(),
                        i + 1 <= e <= n,
                        i < n,
                        forall|k: int| i <= k < e ==> is_text_char(s[k]),
                    decreases n - e,
                {
                    e = e + 1;
                }
                let content = input.substring_char(i, e);
                let tok = Token::VarString(content.to_owned());
                let ghost g = SrcToken::VarString { content: w.subrange(0, e - i), quote: None };
                let ghost prev = out@;
                out.push(tok);
                proof {
                    assert forall|k: int| 0 <= k < e - i implies is_text_char(w[k]) by {
                        assert(w[k] == s[i + k]);
                    }
                    assert(e - i < w.len() ==> !is_text_char(w[e - i]));
                    lemma_run_end_eq(w, 0, e - i);
                    assert(spec_tokenize(w) == cons_token(g, spec_tokenize(w.skip(e - i))));
                    assert(w.subrange(0, e - i) =~= s.subrange(i as int, e as int));
                    assert(w.skip(e - i) =~= s.skip(e as int));
                    lemma_glue_step(s, i as int, e as int, gs, g);
                    lemma_views_push(prev, tok, gs, g);
                    gs = gs.push(g);
                }
                i = e;
            }
        }
        proof {
            assert(s.skip(n as int) =~= Seq::<char>::empty());
            assert(spec_tokenize(s.skip(n as int)) == Some(Seq::<SrcToken>::empty()));
            assert(gs + Seq::<SrcToken>::empty() =~= gs);
            assert(spec_tokenize(s) == Some(gs));
        }
        let ghost mine = self.token_list@;
        let ghost fresh = out@;
        self.token_list.append(&mut out);
        proof {
            lemma_toks_view_concat(mine, fresh);
        }
        Ok(())
    }
}

} // verus!

verus! {

/// Reading one token splits a token sequence into head and tail.
proof fn lemma_src_cons(g: SrcToken, rest: Seq<SrcToken>)
    ensures
        tokens_src(seq![g] + rest) == token_src(g) + tokens_src(rest),
{
    let ts = seq![g] + rest;
    assert(ts[0] == g);
    assert(ts.drop_first() =~= rest);
}

/// Law: the tokenizer drops no character and invents none. For every input
/// without an unterminated quote, concatenating the source characters each
/// token was read from — quote delimiters reinserted around quoted text —
/// reproduces the input exactly.
pub proof fn lemma_tokenize_reconstructs(s: Seq<char>)
    requires
        spec_tokenize(s) is Some,
    ensures
        tokens_src(spec_tokenize(s)->Some_0) == s,
    decreases s.len(),
{
    let r = spec_tokenize(s)->Some_0;
    if s.len() == 0 {
        assert(tokens_src(r) =~= s);
    } else {
        let c = s[0];
        if is_ws_char(c) {
            let g = SrcToken::WhiteSpace { ch: c };
            let rest = s.skip(1);
            assert(spec_tokenize(s) == cons_token(g, spec_tokenize(rest)));
            lemma_tokenize_reconstructs(rest);
            lemma_src_cons(g, spec_tokenize(rest)->Some_0);
            assert(seq![c] + rest =~= s);
        } else if is_quote_char(c) {
            lemma_find_from_props(s, 1, c);
            match find_from(s, 1, c) {
                Some(j) => {
                    let g = SrcToken::VarString { content: s.subrange(1, j), quote: Some(c) };
                    let rest = s.skip(j + 1);
                    assert(spec_tokenize(s) == cons_token(g, spec_tokenize(rest)));
                    lemma_tokenize_reconstructs(rest);
                    lemma_src_cons(g, spec_tokenize(rest)->Some_0);
                    assert(token_src(g) =~= s.subrange(0, j + 1));
                    assert(s.subrange(0, j + 1) + rest =~= s);
                },
                None => {
                    assert(false);
                },
            }
        } else if is_symbol_char(c) {
            let sym = symbol_first(s);
            let m = sym_len(sym);
            assert(m == 2 ==> s.len() >= 2);
            let g = SrcToken::Symbols { sym };
            let rest = s.skip(m);
            assert(spec_tokenize(s) == cons_token(g, spec_tokenize(rest)));
            lemma_tokenize_reconstructs(rest);
            lemma_src_cons(g, spec_tokenize(rest)->Some_0);
            assert(sym_text(sym) =~= s.subrange(0, m));
            assert(s.subrange(0, m) + rest =~= s);
        } else {
            lemma_run_end_props(s, 0);
            let e = run_end(s, 0);
            assert(e >= 1);
            let g = SrcToken::VarString { content: s.subrange(0, e), quote: None };
            let rest = s.skip(e);
            assert(spec_tokenize(s) == cons_token(g, spec_tokenize(rest)));
            lemma_tokenize_reconstructs(rest);
            lemma_src_cons(g, spec_tokenize(rest)->Some_0);
            assert(s.subrange(0, e) + rest =~= s);
        }
    }
}

/// Tokenizing splits at a whitespace boundary: when `u` ends in whitespace
/// and tokenizes cleanly, the tokens of `u + v` are the tokens of `u`
/// followed by the tokens of `v`, and `u + v` has an unterminated quote
/// exactly when `v` has one.
pub proof fn lemma_split_at_ws(u: Seq<char>, v: Seq<char>)
    requires
        u.len() > 0,
        is_ws_char(u.last()),
        spec_tokenize(u) is Some,
    ensures
        spec_tokenize(u + v) == glue(spec_tokenize(u)->Some_0, spec_tokenize(v)),
    decreases u.len(),
{
    let w = u + v;
    let c = u[0];
    assert(w[0] == c);
    if is_ws_char(c) {
        let g = SrcToken::WhiteSpace { ch: c };
        let u1 = u.skip(1);
        assert(spec_tokenize(u) == cons_token(g, spec_tokenize(u1)));
        assert(spec_tokenize(w) == cons_token(g, spec_tokenize(w.skip(1))));
        if u.len() == 1 {
            assert(w.skip(1) =~= v);
            assert(u1 =~= Seq::<char>::empty());
            assert(spec_tokenize(u)->Some_0 =~= seq![g]);
            match spec_tokenize(v) {
                Some(tv) => {
                    assert(seq![g] + tv =~= spec_tokenize(u)->Some_0 + tv);
                },
                None => {},
            }
        } else {
            assert(u1.last() == u.last());
            lemma_split_at_ws(u1, v);
            assert(w.skip(1) =~= u1 + v);
            let tu1 = spec_tokenize(u1)->Some_0;
            match spec_tokenize(v) {
                Some(tv) => {
                    assert(seq![g] + (tu1 + tv) =~= (seq![g] + tu1) + tv);
                },
                None => {},
            }
        }
    } else if is_quote_char(c) {
        lemma_find_from_props(u, 1, c);
        match find_from(u, 1, c) {
            Some(j) => {
                assert(u[j] == c && !is_ws_char(c));
                assert(j != u.len() - 1);
                assert forall|k: int| 1 <= k < j implies w[k] != c by {
                    assert(w[k] == u[k]);
                }
                assert(w[j] == u[j]);
                lemma_find_from_eq(w, 1, c, j);
                let g = SrcToken::VarString { content: u.subrange(1, j), quote: Some(c) };
                assert(w.subrange(1, j) =~= u.subrange(1, j));
                assert(spec_tokenize(u) == cons_token(g, spec_tokenize(u.skip(j + 1))));
                assert(spec_tokenize(w) == cons_token(g, spec_tokenize(w.skip(j + 1))));
                let u1 = u.skip(j + 1);
                assert(u1.len() > 0 && u1.last() == u.last());
                lemma_split_at_ws(u1, v);
                assert(w.skip(j + 1) =~= u1 + v);
                let tu1 = spec_tokenize(u1)->Some_0;
                match spec_tokenize(v) {
                    Some(tv) => {
                        assert(seq![g] + (tu1 + tv) =~= (seq![g] + tu1) + tv);
                    },
                    None => {},
                }
            },
            None => {
                assert(false);
            },
        }
    } else if is_symbol_char(c) {
        assert(u.len() >= 2);
        assert(w[1] == u[1]);
        let sym = symbol_first(u);
        assert(symbol_first(w) == sym);
        let m = sym_len(sym);
        assert(m == 2 ==> u[1] == u[0] && !is_ws_char(u[1]));
        assert(m < u.len());
        let g = SrcToken::Symbols { sym };
        assert(spec_tokenize(u) == cons_token(g, spec_tokenize(u.skip(m))));
        assert(spec_tokenize(w) == cons_token(g, spec_tokenize(w.skip(m))));
        let u1 = u.skip(m);
        assert(u1.len() > 0 && u1.last() == u.last());
        lemma_split_at_ws(u1, v);
        assert(w.skip(m) =~= u1 + v);
        let tu1 = spec_tokenize(u1)->Some_0;
        match spec_tokenize(v) {
            Some(tv) => {
                assert(seq![g] + (tu1 + tv) =~= (seq![g] + tu1) + tv);
            },
            None => {},
        }
    } else {
        lemma_run_end_props(u, 0);
        let e = run_end(u, 0);
        assert(e >= 1);
        assert(e < u.len());
        assert forall|k: int| 0 <= k < e implies is_text_char(w[k]) by {
            assert(w[k] == u[k]);
        }
        assert(w[e] == u[e] && !is_text_char(w[e]));
        lemma_run_end_eq(w, 0, e);
        let g = SrcToken::VarString { content: u.subrange(0, e), quote: None };
        assert(w.subrange(0, e) =~= u.subrange(0, e));
        assert(spec_tokenize(u) == cons_token(g, spec_tokenize(u.skip(e))));
        assert(spec_tokenize(w) == cons_token(g, spec_tokenize(w.skip(e))));
        let u1 = u.skip(e);
        assert(u1.len() > 0 && u1.last() == u.last());
        lemma_split_at_ws(u1, v);
        assert(w.skip(e) =~= u1 + v);
        let tu1 = spec_tokenize(u1)->Some_0;
        match spec_tokenize(v) {
            Some(tv) => {
                assert(seq![g] + (tu1 + tv) =~= (seq![g] + tu1) + tv);
            },
            None => {},
        }
    }
}

/// Erasure distributes over concatenation.
proof fn lemma_erase_all_concat(a: Seq<SrcToken>, b: Seq<SrcToken>)
    ensures
        erase_all(a + b) == erase_all(a) + erase_all(b),
{
    assert forall|k: int| 0 <= k < a.len() + b.len() implies erase_all(a + b)[k] == (erase_all(a)
        + erase_all(b))[k] by {
        if k < a.len() {
            assert((a + b)[k] == a[k]);
        } else {
            assert((a + b)[k] == b[k - a.len()]);
        }
    }
    assert(erase_all(a + b) =~= erase_all(a) + erase_all(b));
}

/// Law: whitespace between tokens only separates. Inserting one more
/// whitespace character where the input already has whitespace changes no
/// significant token, and introduces no lexical error. The prefix `u` must
/// itself tokenize — which places the insertion point outside any quoted
/// span, where an extra space would change a token's text — and end in
/// whitespace.
pub proof fn lemma_extra_whitespace(u: Seq<char>, d: char, v: Seq<char>)
    requires
        u.len() > 0,
        is_ws_char(u.last()),
        is_ws_char(d),
        spec_tokenize(u) is Some,
    ensures
        spec_tokenize(u + seq![d] + v) is Some <==> spec_tokenize(u + v) is Some,
        spec_tokenize(u + v) is Some ==> significant_of(
            erase_all(spec_tokenize(u + seq![d] + v)->Some_0),
        ) == significant_of(erase_all(spec_tokenize(u + v)->Some_0)),
{
    broadcast use vstd::seq_lib::group_seq_lib_default;

    let tu = spec_tokenize(u)->Some_0;
    let gd = SrcToken::WhiteSpace { ch: d };
    lemma_split_at_ws(u, v);
    lemma_split_at_ws(u, seq![d]);
    assert(seq![d].skip(1) =~= Seq::<char>::empty());
    assert(spec_tokenize(seq![d].skip(1)) == Some(Seq::<SrcToken>::empty()));
    assert(spec_tokenize(seq![d]) == Some(seq![gd] + Seq::<SrcToken>::empty()));
    let ud = u + seq![d];
    assert(spec_tokenize(ud) == Some(tu + (seq![gd] + Seq::<SrcToken>::empty())));
    assert(tu + (seq![gd] + Seq::<SrcToken>::empty()) =~= tu + seq![gd]);
    assert(ud.len() > 0 && ud.last() == d);
    lemma_split_at_ws(ud, v);
    match spec_tokenize(v) {
        Some(tv) => {
            assert(spec_tokenize(ud + v) == Some((tu + seq![gd]) + tv));
            assert(spec_tokenize(u + v) == Some(tu + tv));
            lemma_erase_all_concat(tu + seq![gd], tv);
            lemma_erase_all_concat(tu, seq![gd]);
            lemma_erase_all_concat(tu, tv);
            assert(erase_all(seq![gd]) =~= seq![TokenView::WhiteSpace]);
            let pred = |t: TokenView| is_significant(t);
            assert(seq![TokenView::WhiteSpace].filter(pred) =~= Seq::<TokenView>::empty()) by {
                reveal_with_fuel(Seq::filter, 2);
            }
            assert(significant_of(erase_all((tu + seq![gd]) + tv)) == significant_of(
                erase_all(tu + tv),
            )) by {
                assert(erase_all((tu + seq![gd]) + tv) == (erase_all(tu) + seq![
                    TokenView::WhiteSpace,
                ]) + erase_all(tv));
                assert(erase_all(tu + tv) == erase_all(tu) + erase_all(tv));
                assert(((erase_all(tu) + seq![TokenView::WhiteSpace]) + erase_all(tv)).filter(pred)
                    == (erase_all(tu).filter(pred) + seq![TokenView::WhiteSpace].filter(pred))
                    + erase_all(tv).filter(pred));
                assert((erase_all(tu) + erase_all(tv)).filter(pred) == erase_all(tu).filter(pred)
                    + erase_all(tv).filter(pred));
                assert(erase_all(tu).filter(pred) + Seq::<TokenView>::empty() =~= erase_all(
                    tu,
                ).filter(pred));
            }
        },
        None => {},
    }
}

} // verus!
