//! The recursive-descent parser. A cursor (a plain index into the token
//! sequence) supports checkpoint and rollback: each production advances the
//! cursor only when it commits, and a failed tentative parse restores the
//! saved position. Whitespace tokens are skipped by every peek and never
//! matched by a grammar rule.

use vstd::prelude::*;

use crate::ast::{CommandExpr, CommandLineExpr, CommandLineOp, CommandLineView, CommandOp,
    CommandView, JobExpr, JobOp, JobView, SimpleCmdExpr, SimpleCmdView};
use crate::token::{is_significant, toks_view, Sym, Token, TokenView};

verus! {

/// The first position at or after `pos` holding a significant token, or the
/// end of the sequence.
pub open spec fn skip_ws(ts: Seq<TokenView>, pos: int) -> int
    decreases ts.len() - pos
        when 0 <= pos <= ts.len()
{
    if pos < ts.len() && !is_significant(ts[pos]) {
        skip_ws(ts, pos + 1)
    } else {
        pos
    }
}

/// `skip_ws` lands at or after `pos`, on a significant token or the end,
/// having passed only whitespace.
pub proof fn lemma_skip_ws(ts: Seq<TokenView>, pos: int)
    requires
        0 <= pos <= ts.len(),
    ensures
        pos <= skip_ws(ts, pos) <= ts.len(),
        skip_ws(ts, pos) < ts.len() ==> is_significant(ts[skip_ws(ts, pos)]),
        forall|k: int| pos <= k < skip_ws(ts, pos) ==> !is_significant(ts[k]),
    decreases ts.len() - pos,
{
    if pos < ts.len() && !is_significant(ts[pos]) {
        lemma_skip_ws(ts, pos + 1);
    }
}

/// The greedy run of text tokens from `pos`, whitespace skipped between
/// them: the argument texts in order, and the position just after the last
/// one consumed (or `pos` itself when there is none).
pub open spec fn spec_cmd_args(ts: Seq<TokenView>, pos: int) -> (Seq<Seq<char>>, int)
    decreases ts.len() - pos
        when 0 <= pos <= ts.len()
{
    let q = skip_ws(ts, pos);
    if q < ts.len() && pos <= q {
        match ts[q] {
            TokenView::VarString(arg) => {
                let rest = spec_cmd_args(ts, q + 1);
                (seq![arg] + rest.0, rest.1)
            },
            _ => (Seq::empty(), pos),
        }
    } else {
        (Seq::empty(), pos)
    }
}

/// What parsing a simple command from `pos` yields: the first significant
/// token must be text (the executable path); following text tokens are
/// consumed greedily as arguments. On success the new position follows the
/// last token consumed.
pub open spec fn spec_simplecmd(ts: Seq<TokenView>, pos: int) -> Option<(SimpleCmdView, int)> {
    let q = skip_ws(ts, pos);
    if q < ts.len() {
        match ts[q] {
            TokenView::VarString(exe) => {
                let rest = spec_cmd_args(ts, q + 1);
                if rest.0.len() == 0 {
                    Some((SimpleCmdView::Exe(exe), q + 1))
                } else {
                    Some((SimpleCmdView::ExeWithArgs(exe, rest.0), rest.1))
                }
            },
            _ => None,
        }
    } else {
        None
    }
}

/// What parsing a command from `pos` yields: a simple command, then — when
/// the next significant token is `<` or `>` followed by a text token — that
/// redirection. A redirection operator without a text target is left
/// unconsumed and the bare command returned: the enclosing productions, and
/// finally the top-level trailing-token check, deal with what remains.
pub open spec fn spec_command(ts: Seq<TokenView>, pos: int) -> Option<(CommandView, int)> {
    match spec_simplecmd(ts, pos) {
        None => None,
        Some((sc, p1)) => {
            let q = skip_ws(ts, p1);
            if q < ts.len() && (ts[q] == TokenView::Symbols(Sym::Lt) || ts[q]
                == TokenView::Symbols(Sym::Gt)) {
                let op = if ts[q] == TokenView::Symbols(Sym::Gt) {
                    CommandOp::RedirectOut
                } else {
                    CommandOp::RedirectIn
                };
                let r = skip_ws(ts, q + 1);
                if r < ts.len() && ts[r] is VarString {
                    Some((CommandView::Redirected(sc, op, ts[r]->VarString_0), r + 1))
                } else {
                    Some((CommandView::Bare(sc), p1))
                }
            } else {
                Some((CommandView::Bare(sc), p1))
            }
        },
    }
}

/// What parsing a job (a pipeline) from `pos` yields: a command, then — when
/// the next significant token is `|` — the rest of the job recursively. When
/// nothing valid follows the pipe, the pipe's consumption is rolled back and
/// the single-stage job returned, the pipe token left for the top-level
/// trailing-token check.
pub open spec fn spec_job(ts: Seq<TokenView>, pos: int) -> Option<(JobView, int)>
    decreases ts.len() - pos
        when 0 <= pos <= ts.len()
{
    match spec_command(ts, pos) {
        None => None,
        Some((c, p1)) => {
            let q = skip_ws(ts, p1);
            if q < ts.len() && pos <= q && ts[q] == TokenView::Symbols(Sym::Pipe) {
                match spec_job(ts, q + 1) {
                    Some((j, p2)) => Some((JobView::Piped(c, JobOp::Pipe, Box::new(j)), p2)),
                    None => Some((JobView::Single(c), p1)),
                }
            } else {
                Some((JobView::Single(c), p1))
            }
        },
    }
}

/// What parsing a whole command line from `pos` yields: a job, then — when
/// the next significant token is `;` or `&` — the separator and the rest
/// recursively. A trailing separator with nothing valid after it is a
/// dangling separator, not an error.
pub open spec fn spec_cmdline(ts: Seq<TokenView>, pos: int) -> Option<(CommandLineView, int)>
    decreases ts.len() - pos
        when 0 <= pos <= ts.len()
{
    match spec_job(ts, pos) {
        None => None,
        Some((j, p1)) => {
            let q = skip_ws(ts, p1);
            if q < ts.len() && pos <= q && (ts[q] == TokenView::Symbols(Sym::Semi) || ts[q]
                == TokenView::Symbols(Sym::Amp)) {
                let op = if ts[q] == TokenView::Symbols(Sym::Semi) {
                    CommandLineOp::Sequence
                } else {
                    CommandLineOp::Background
                };
                match spec_cmdline(ts, q + 1) {
                    Some((rest, p2)) => Some(
                        (CommandLineView::Sequenced(j, op, Box::new(rest)), p2),
                    ),
                    None => Some((CommandLineView::Dangling(j, op), q + 1)),
                }
            } else {
                Some((CommandLineView::Single(j), p1))
            }
        },
    }
}

/// The argument run ends at or after `pos`, within the sequence, and moves
/// only when it consumes an argument.
pub proof fn lemma_args_bounds(ts: Seq<TokenView>, pos: int)
    requires
        0 <= pos <= ts.len(),
    ensures
        pos <= spec_cmd_args(ts, pos).1 <= ts.len(),
        spec_cmd_args(ts, pos).0.len() > 0 ==> pos < spec_cmd_args(ts, pos).1,
    decreases ts.len() - pos,
{
    lemma_skip_ws(ts, pos);
    let q = skip_ws(ts, pos);
    if q < ts.len() && ts[q] is VarString {
        lemma_args_bounds(ts, q + 1);
    }
}

/// A successful simple-command parse advances the cursor and stays within
/// the sequence.
pub proof fn lemma_simplecmd_bounds(ts: Seq<TokenView>, pos: int)
    requires
        0 <= pos <= ts.len(),
    ensures
        spec_simplecmd(ts, pos) matches Some(r) ==> pos < r.1 <= ts.len(),
{
    lemma_skip_ws(ts, pos);
    let q = skip_ws(ts, pos);
    if q < ts.len() {
        lemma_args_bounds(ts, q + 1);
    }
}

/// A successful command parse advances the cursor and stays within the
/// sequence.
pub proof fn lemma_command_bounds(ts: Seq<TokenView>, pos: int)
    requires
        0 <= pos <= ts.len(),
    ensures
        spec_command(ts, pos) matches Some(r) ==> pos < r.1 <= ts.len(),
{
    lemma_simplecmd_bounds(ts, pos);
    match spec_simplecmd(ts, pos) {
        Some((sc, p1)) => {
            lemma_skip_ws(ts, p1);
            let q = skip_ws(ts, p1);
            if q < ts.len() {
                lemma_skip_ws(ts, q + 1);
            }
        },
        None => {},
    }
}

/// A successful job parse advances the cursor and stays within the sequence.
pub proof fn lemma_job_bounds(ts: Seq<TokenView>, pos: int)
    requires
        0 <= pos <= ts.len(),
    ensures
        spec_job(ts, pos) matches Some(r) ==> pos < r.1 <= ts.len(),
    decreases ts.len() - pos,
{
    lemma_command_bounds(ts, pos);
    match spec_command(ts, pos) {
        Some((c, p1)) => {
            lemma_skip_ws(ts, p1);
            let q = skip_ws(ts, p1);
            if q < ts.len() && pos <= q && ts[q] == TokenView::Symbols(Sym::Pipe) {
                lemma_job_bounds(ts, q + 1);
            }
        },
        None => {},
    }
}

/// A successful command-line parse advances the cursor and stays within the
/// sequence.
pub proof fn lemma_cmdline_bounds(ts: Seq<TokenView>, pos: int)
    requires
        0 <= pos <= ts.len(),
    ensures
        spec_cmdline(ts, pos) matches Some(r) ==> pos < r.1 <= ts.len(),
    decreases ts.len() - pos,
{
    lemma_job_bounds(ts, pos);
    match spec_job(ts, pos) {
        Some((j, p1)) => {
            lemma_skip_ws(ts, p1);
            let q = skip_ws(ts, p1);
            if q < ts.len() && pos <= q && (ts[q] == TokenView::Symbols(Sym::Semi) || ts[q]
                == TokenView::Symbols(Sym::Amp)) {
                lemma_cmdline_bounds(ts, q + 1);
            }
        },
        None => {},
    }
}

} // verus!

verus! {

/// The parser's error: what remains after the top-level production has done
/// all it can.
#[derive(Debug, PartialEq)]
pub enum ParseError {
    /// After a maximal successful parse, this significant token remained.
    TrailingTokens(Token),
    /// A required slot had no valid token at all: the input has significant
    /// tokens but no leading text token to start a command.
    MissingRequiredToken,
}

/// The recursive-descent parser over a token sequence, with a cursor that
/// productions advance only when they commit.
pub struct Parser {
    tokens: Vec<Token>,
    pos: usize,
}

impl Parser {
    /// The models of the tokens this parser reads.
    pub closed spec fn toks(&self) -> Seq<TokenView> {
        toks_view(self.tokens@)
    }

    /// The cursor: the next position the parser will read.
    pub closed spec fn cursor(&self) -> int {
        self.pos as int
    }

    /// The cursor lies within the token sequence.
    pub open spec fn wf(&self) -> bool {
        0 <= self.cursor() <= self.toks().len()
    }

    /// A parser over `tokens`, cursor at the start.
    pub fn new(tokens: Vec<Token>) -> (r: Parser)
        ensures
            r.toks() == toks_view(tokens@),
            r.cursor() == 0,
            r.wf(),
    {
        Parser { tokens, pos: 0 }
    }

    /// The first position at or after `from` holding a significant token.
    fn next_significant(&self, from: usize) -> (p: usize)
        requires
            from <= self.toks().len(),
        ensures
            p as int == skip_ws(self.toks(), from as int),
            from <= p <= self.toks().len(),
    {
        let ghost ts = self.toks();
        proof {
            assert(ts.len() == self.tokens@.len());
        }
        let mut p = from;
        while p < self.tokens.len() && self.tokens[p].is_whitespace()
            invariant
                ts == self.toks(),
                ts.len() == self.tokens@.len(),
                from <= p <= ts.len(),
                skip_ws(ts, from as int) == skip_ws(ts, p as int),
            decreases self.tokens@.len() - p,
        {
            proof {
                assert(ts[p as int] == self.tokens@[p as int]@);
            }
            p = p + 1;
        }
        proof {
            if p < self.tokens.len() {
                assert(ts[p as int] == self.tokens@[p as int]@);
            }
            assert(skip_ws(ts, p as int) == p as int);
        }
        p
    }

    /// Parse `SimpleCmd := Text Text*`: the executable path, then following
    /// text tokens greedily as arguments. On failure the cursor is untouched.
    pub fn create_simplecmd_expr(&mut self) -> (r: Option<Box<SimpleCmdExpr>>)
        requires
            old(self).wf(),
        ensures
            final(self).wf(),
            final(self).toks() == old(self).toks(),
            match spec_simplecmd(old(self).toks(), old(self).cursor()) {
                Some(scp) => r matches Some(b) && b@ == scp.0 && final(self).cursor() == scp.1,
                None => r is None && final(self).cursor() == old(self).cursor(),
            },
    {
        let ghost ts = self.toks();
        let q = self.next_significant(self.pos);
        if q == self.tokens.len() {
            return None;
        }
        proof {
            assert(ts[q as int] == self.tokens@[q as int]@);
        }
        let exe: String;
        match &self.tokens[q] {
            Token::VarString(t) => {
                exe = t.clone();
            },
            _ => {
                return None;
            },
        }
        self.pos = q + 1;
        let ghost astart = self.cursor();
        let mut args: Vec<String> = Vec::new();
        let mut done = false;
        proof {
            assert(spec_cmd_args(ts, astart).0 =~= args.deep_view() + spec_cmd_args(
                ts,
                astart,
            ).0);
        }
        while !done
            invariant
                ts == self.toks(),
                self.wf(),
                astart <= self.cursor() <= ts.len(),
                spec_cmd_args(ts, astart).0 == args.deep_view() + spec_cmd_args(
                    ts,
                    self.cursor(),
                ).0,
                spec_cmd_args(ts, astart).1 == spec_cmd_args(ts, self.cursor()).1,
                done ==> spec_cmd_args(ts, self.cursor()) == (Seq::<Seq<char>>::empty(),
                self.cursor()),
            decreases ts.len() - self.cursor(), (if done {
                0int
            } else {
                1int
            }),
        {
            let ghost cur = self.cursor();
            proof {
                lemma_skip_ws(ts, cur);
            }
            let w = self.next_significant(self.pos);
            if w == self.tokens.len() {
                done = true;
            } else {
                proof {
                    assert(ts[w as int] == self.tokens@[w as int]@);
                }
                let arg: Option<String> = match &self.tokens[w] {
                    Token::VarString(t) => Some(t.clone()),
                    _ => None,
                };
                match arg {
                    Some(a) => {
                        let ghost prev_args = args.deep_view();
                        let ghost av = a@;
                        args.push(a);
                        self.pos = w + 1;
                        proof {
                            assert(args.deep_view() =~= prev_args.push(av));
                            let rest = spec_cmd_args(ts, w + 1);
                            assert(spec_cmd_args(ts, cur) == (seq![av] + rest.0, rest.1));
                            assert(prev_args + (seq![av] + rest.0) =~= prev_args.push(av)
                                + rest.0);
                        }
                    },
                    None => {
                        done = true;
                    },
                }
            }
        }
        let r = if args.len() == 0 {
            proof {
                assert(args.deep_view() =~= Seq::<Seq<char>>::empty());
                assert(spec_cmd_args(ts, astart).0 =~= Seq::<Seq<char>>::empty());
            }
            Some(Box::new(SimpleCmdExpr::Exe(exe)))
        } else {
            proof {
                assert(args.deep_view() + Seq::<Seq<char>>::empty() =~= args.deep_view());
            }
            Some(Box::new(SimpleCmdExpr::ExeWithArgs(exe, args)))
        };
        r
    }
}

} // verus!

verus! {

impl Parser {
    /// Parse `Command := SimpleCmd ( ("<" | ">") Text )?`. A redirection
    /// operator not followed by a text token is left unconsumed and the bare
    /// command returned. On failure the cursor is untouched.
    pub fn create_command_expr(&mut self) -> (r: Option<Box<CommandExpr>>)
        requires
            old(self).wf(),
        ensures
            final(self).wf(),
            final(self).toks() == old(self).toks(),
            match spec_command(old(self).toks(), old(self).cursor()) {
                Some(cp) => r matches Some(b) && b@ == cp.0 && final(self).cursor() == cp.1,
                None => r is None && final(self).cursor() == old(self).cursor(),
            },
    {
        let ghost ts = self.toks();
        let sc = match self.create_simplecmd_expr() {
            Some(x) => x,
            None => {
                return None;
            },
        };
        let q = self.next_significant(self.pos);
        if q < self.tokens.len() {
            proof {
                assert(ts[q as int] == self.tokens@[q as int]@);
            }
            let redir: Option<CommandOp> = match &self.tokens[q] {
                Token::Symbols(Sym::Gt) => Some(CommandOp::RedirectOut),
                Token::Symbols(Sym::Lt) => Some(CommandOp::RedirectIn),
                _ => None,
            };
            if let Some(op) = redir {
                let t = self.next_significant(q + 1);
                if t < self.tokens.len() {
                    proof {
                        assert(ts[t as int] == self.tokens@[t as int]@);
                    }
                    let target: Option<String> = match &self.tokens[t] {
                        Token::VarString(v) => Some(v.clone()),
                        _ => None,
                    };
                    if let Some(tgt) = target {
                        self.pos = t + 1;
                        return Some(Box::new(CommandExpr::Redirected(sc, op, tgt)));
                    }
                }
            }
        }
        Some(Box::new(CommandExpr::Bare(sc)))
    }

    /// Parse `Job := Command ( "|" Job )?`. When nothing valid follows a
    /// pipe, its consumption is rolled back and the single-stage job
    /// returned. On failure the cursor is untouched.
    pub fn create_job_expr(&mut self) -> (r: Option<Box<JobExpr>>)
        requires
            old(self).wf(),
        ensures
            final(self).wf(),
            final(self).toks() == old(self).toks(),
            match spec_job(old(self).toks(), old(self).cursor()) {
                Some(jp) => r matches Some(b) && b@ == jp.0 && final(self).cursor() == jp.1,
                None => r is None && final(self).cursor() == old(self).cursor(),
            },
        decreases old(self).toks().len() - old(self).cursor(), 1int,
    {
        let ghost ts = self.toks();
        let ghost pos0 = self.cursor();
        let cmd = match self.create_command_expr() {
            Some(x) => x,
            None => {
                return None;
            },
        };
        proof {
            lemma_command_bounds(ts, pos0);
        }
        let save = self.pos;
        let q = self.next_significant(self.pos);
        if q < self.tokens.len() {
            proof {
                assert(ts[q as int] == self.tokens@[q as int]@);
            }
            let is_pipe = match &self.tokens[q] {
                Token::Symbols(Sym::Pipe) => true,
                _ => false,
            };
            if is_pipe {
                self.pos = q + 1;
                match self.create_job_expr() {
                    Some(rest) => {
                        return Some(Box::new(JobExpr::Piped(cmd, JobOp::Pipe, rest)));
                    },
                    None => {
                        self.pos = save;
                    },
                }
            }
        }
        Some(Box::new(JobExpr::Single(cmd)))
    }

    /// Parse `CommandLine := Job ( (";" | "&") CommandLine? )?`. A trailing
    /// separator with nothing valid after it yields a dangling command line,
    /// not an error. On failure the cursor is untouched.
    pub fn create_commandline_expr(&mut self) -> (r: Option<Box<CommandLineExpr>>)
        requires
            old(self).wf(),
        ensures
            final(self).wf(),
            final(self).toks() == old(self).toks(),
            match spec_cmdline(old(self).toks(), old(self).cursor()) {
                Some(cp) => r matches Some(b) && b@ == cp.0 && final(self).cursor() == cp.1,
                None => r is None && final(self).cursor() == old(self).cursor(),
            },
        decreases old(self).toks().len() - old(self).cursor(), 2int,
    {
        let ghost ts = self.toks();
        let ghost pos0 = self.cursor();
        let job = match self.create_job_expr() {
            Some(x) => x,
            None => {
                return None;
            },
        };
        proof {
            lemma_job_bounds(ts, pos0);
        }
        let q = self.next_significant(self.pos);
        if q < self.tokens.len() {
            proof {
                assert(ts[q as int] == self.tokens@[q as int]@);
            }
            let sep: Option<CommandLineOp> = match &self.tokens[q] {
                Token::Symbols(Sym::Semi) => Some(CommandLineOp::Sequence),
                Token::Symbols(Sym::Amp) => Some(CommandLineOp::Background),
                _ => None,
            };
            if let Some(op) = sep {
                self.pos = q + 1;
                return match self.create_commandline_expr() {
                    Some(rest) => Some(Box::new(CommandLineExpr::Sequenced(job, op, rest))),
                    None => Some(Box::new(CommandLineExpr::Dangling(job, op))),
                };
            }
        }
        Some(Box::new(CommandLineExpr::Single(job)))
    }

    /// Parse a whole token sequence. `Ok(None)` exactly when no significant
    /// token is there at all; `TrailingTokens` names the first significant
    /// token no production could consume after a maximal successful parse;
    /// `MissingRequiredToken` reports significant input that no production
    /// could begin to parse.
    pub fn parse(&mut self) -> (r: Result<Option<Box<CommandLineExpr>>, ParseError>)
        requires
            old(self).wf(),
        ensures
            final(self).wf(),
            final(self).toks() == old(self).toks(),
            match spec_cmdline(old(self).toks(), old(self).cursor()) {
                Some(cp) => {
                    let q = skip_ws(old(self).toks(), cp.1);
                    &&& q < old(self).toks().len() ==> (r matches Err(
                        ParseError::TrailingTokens(t),
                    ) && t@ == old(self).toks()[q] && final(self).cursor() == q + 1)
                    &&& q == old(self).toks().len() ==> (r matches Ok(o) && o matches Some(b)
                        && b@ == cp.0 && final(self).cursor() == q)
                },
                None => {
                    let q = skip_ws(old(self).toks(), old(self).cursor());
                    &&& q < old(self).toks().len() ==> r == Err::<
                        Option<Box<CommandLineExpr>>,
                        ParseError,
                    >(ParseError::MissingRequiredToken) && final(self).cursor() == q + 1
                    &&& q == old(self).toks().len() ==> (r matches Ok(o) && o is None
                        && final(self).cursor() == q)
                },
            },
    {
        let ghost ts = self.toks();
        let ghost pos0 = self.cursor();
        let tree = self.create_commandline_expr();
        let q = self.next_significant(self.pos);
        if q < self.tokens.len() {
            proof {
                assert(ts[q as int] == self.tokens@[q as int]@);
                if spec_cmdline(ts, pos0) matches Some(cp) {
                    lemma_cmdline_bounds(ts, pos0);
                }
            }
            let bad = self.tokens[q].dup();
            self.pos = q + 1;
            match tree {
                Some(_) => Err(ParseError::TrailingTokens(bad)),
                None => Err(ParseError::MissingRequiredToken),
            }
        } else {
            self.pos = q;
            Ok(tree)
        }
    }
}

} // verus!
