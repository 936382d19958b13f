//! Recursive-descent parsing of statements, collecting diagnostics.
use vstd::prelude::*;
use vstd::string::StringExecFns;

use crate::ast::{Expression, Program, Statement, StatementModel};
use crate::lexer::Lexer;
use crate::token::{describe, describe_option, same_kind, Token, TokenModel};

verus! {

/// The first token of `ts`, if any.
pub open spec fn first(ts: Seq<TokenModel>) -> Option<TokenModel> {
    if ts.len() > 0 {
        Some(ts[0])
    } else {
        None
    }
}

/// The diagnostic for a token of the wrong kind, or for a missing one.
pub open spec fn mismatch(expected: TokenModel, got: Option<TokenModel>) -> Seq<char> {
    "expected next token to be "@ + describe_option(Some(expected)) + ", got "@
        + describe_option(got) + " instead"@
}

/// What is left of `ts` once its first semicolon has been consumed: nothing
/// where it holds none.
pub open spec fn past_semicolon(ts: Seq<TokenModel>) -> Seq<TokenModel>
    decreases ts.len(),
{
    if ts.len() == 0 {
        ts
    } else if ts[0] is Semicolon {
        ts.skip(1)
    } else {
        past_semicolon(ts.skip(1))
    }
}

/// Parsing the tokens that follow `let`: the statement, unless it is
/// dropped; the diagnostics; the tokens left.
pub open spec fn let_statement(ts: Seq<TokenModel>) -> (
    Option<StatementModel>,
    Seq<Seq<char>>,
    Seq<TokenModel>,
) {
    if !(first(ts) matches Some(Token::Ident(_))) {
        (None, seq![mismatch(Token::Ident(Seq::empty()), first(ts))], ts)
    } else {
        let after = ts.skip(1);
        if !(first(after) matches Some(Token::Assign)) {
            (None, seq![mismatch(Token::Assign, first(after))], after)
        } else {
            (
                Some(Statement::Let { identifier: ts[0]->Ident_0, value: Expression }),
                Seq::empty(),
                past_semicolon(after.skip(1)),
            )
        }
    }
}

/// Parsing a statement that begins `ts`: the statement, unless it is
/// dropped; the diagnostics; the tokens left.
pub open spec fn statement(ts: Seq<TokenModel>) -> (
    Option<StatementModel>,
    Seq<Seq<char>>,
    Seq<TokenModel>,
) {
    let rest = ts.skip(1);
    match ts[0] {
        Token::Let => let_statement(rest),
        Token::Return => (Some(Statement::Return(Expression)), Seq::empty(), past_semicolon(rest)),
        _ => (None, Seq::empty(), rest),
    }
}

/// Parsing a whole token sequence: the statements in order, and the
/// diagnostics in order.
pub open spec fn parse(ts: Seq<TokenModel>) -> (Seq<StatementModel>, Seq<Seq<char>>)
    decreases ts.len(),
    via parse_decreases
{
    if ts.len() == 0 {
        (Seq::empty(), Seq::empty())
    } else {
        let (s, d, rest) = statement(ts);
        let (ss, ds) = parse(rest);
        (
            match s {
                Some(s) => seq![s] + ss,
                None => ss,
            },
            d + ds,
        )
    }
}

proof fn lemma_past_semicolon_shrinks(ts: Seq<TokenModel>)
    ensures
        past_semicolon(ts).len() <= ts.len(),
    decreases ts.len(),
{
    if ts.len() > 0 && !(ts[0] is Semicolon) {
        lemma_past_semicolon_shrinks(ts.skip(1));
    }
}

proof fn lemma_statement_shrinks(ts: Seq<TokenModel>)
    requires
        ts.len() > 0,
    ensures
        statement(ts).2.len() < ts.len(),
{
    let rest = ts.skip(1);
    lemma_past_semicolon_shrinks(rest);
    if rest.len() > 0 {
        lemma_past_semicolon_shrinks(rest.skip(1));
        if rest.skip(1).len() > 0 {
            lemma_past_semicolon_shrinks(rest.skip(1).skip(1));
        }
    }
}

#[via_fn]
proof fn parse_decreases(ts: Seq<TokenModel>) {
    if ts.len() > 0 {
        lemma_statement_shrinks(ts);
    }
}

fn describe_option_text(t: Option<&Token>) -> (r: String)
    ensures
        r@ == describe_option(
            match t {
                Some(t) => Some(t@),
                None => None,
            },
        ),
{
    match t {
        Some(t) => "Some(".to_owned().concat(t.describe().as_str()).concat(")"),
        None => "None".to_owned(),
    }
}

/// Parses statements from a lexer, one token of lookahead at a time.
pub struct Parser<'a> {
    l: Lexer<'a>,
    peeked: Option<Token>,
    /// The diagnostics so far, in the order they arose.
    pub errors: Vec<String>,
}

impl<'a> Parser<'a> {
    /// The tokens still to parse.
    pub closed spec fn pending(&self) -> Seq<TokenModel> {
        match self.peeked {
            Some(t) => seq![t@] + self.l.rest(),
            None => Seq::empty(),
        }
    }

    /// The lookahead is empty only once the lexer is spent.
    pub closed spec fn wf(&self) -> bool {
        &&& self.l.wf()
        &&& self.peeked is None ==> self.l.rest() == Seq::<TokenModel>::empty()
    }

    /// The diagnostics so far, as text.
    pub closed spec fn diagnostics(&self) -> Seq<Seq<char>> {
        self.errors@.map_values(|e: String| e@)
    }

    /// A parser over the tokens that `l` has still to give.
    pub fn new(l: Lexer<'a>) -> (r: Parser<'a>)
        requires
            l.wf(),
        ensures
            r.wf(),
            r.pending() == l.rest(),
            r.diagnostics() == Seq::<Seq<char>>::empty(),
    {
        let mut l = l;
        let peeked = l.next_token();
        Parser { l, peeked, errors: Vec::new() }
    }

    /// The diagnostics so far.
    pub fn errors(&self) -> (r: &Vec<String>)
        ensures
            r@.map_values(|e: String| e@) == self.diagnostics(),
    {
        &self.errors
    }

    fn next(&mut self) -> (r: Option<Token>)
        requires
            old(self).wf(),
        ensures
            final(self).wf(),
            final(self).errors == old(self).errors,
            r is None ==> old(self).pending() == Seq::<TokenModel>::empty()
                && final(self).pending() == Seq::<TokenModel>::empty(),
            r is Some ==> old(self).pending() == seq![r->0@] + final(self).pending(),
    {
        match self.peeked.take() {
            None => None,
            Some(t) => {
                self.peeked = self.l.next_token();
                Some(t)
            },
        }
    }

    /// Parses every statement left: a statement that does not parse is
    /// dropped, with a diagnostic, and parsing goes on after it.
    pub fn parse_program(&mut self) -> (r: Program)
        requires
            old(self).wf(),
        ensures
            final(self).wf(),
            final(self).pending() == Seq::<TokenModel>::empty(),
            r@ == parse(old(self).pending()).0,
            final(self).diagnostics() == old(self).diagnostics() + parse(old(self).pending()).1,
    {
        let mut statements: Vec<Statement> = Vec::new();
        while self.peeked.is_some()
            invariant
                self.wf(),
                statements@.map_values(|s: Statement| s@) + parse(self.pending()).0 == parse(
                    old(self).pending(),
                ).0,
                self.diagnostics() + parse(self.pending()).1 == old(self).diagnostics() + parse(
                    old(self).pending(),
                ).1,
            decreases self.pending().len(),
        {
            let ghost ts = self.pending();
            let ghost done = statements@.map_values(|s: Statement| s@);
            let ghost said = self.diagnostics();
            proof {
                lemma_statement_shrinks(ts);
            }
            let s = self.parse_statement();
            let ghost (gs, gd, rest) = statement(ts);
            assert(self.diagnostics() == said + gd);
            assert(said + gd + parse(rest).1 =~= said + (gd + parse(rest).1));
            match s {
                Some(s) => {
                    statements.push(s);
                    assert(statements@.map_values(|s: Statement| s@) =~= done.push(gs->0));
                    assert(done.push(gs->0) + parse(rest).0 =~= done + (seq![gs->0] + parse(
                        rest,
                    ).0));
                },
                None => {},
            }
        }
        Program { statements }
    }

    fn parse_statement(&mut self) -> (r: Option<Statement>)
        requires
            old(self).wf(),
            old(self).pending().len() > 0,
        ensures
            final(self).wf(),
            ({
                let (s, d, rest) = statement(old(self).pending());
                &&& r matches Some(st) ==> s == Some(st@)
                &&& r is None ==> s is None
                &&& final(self).pending() == rest
                &&& final(self).diagnostics() == old(self).diagnostics() + d
            }),
    {
        let ghost ts = self.pending();
        let t = self.next();
        assert(ts.skip(1) =~= self.pending());
        match t {
            Some(Token::Let) => self.parse_let_statement(),
            Some(Token::Return) => self.parse_return_statement(),
            _ => {
                assert(self.diagnostics() =~= old(self).diagnostics() + Seq::<Seq<char>>::empty());
                None
            },
        }
    }

    fn parse_let_statement(&mut self) -> (r: Option<Statement>)
        requires
            old(self).wf(),
        ensures
            final(self).wf(),
            ({
                let (s, d, rest) = let_statement(old(self).pending());
                &&& r matches Some(st) ==> s == Some(st@)
                &&& r is None ==> s is None
                &&& final(self).pending() == rest
                &&& final(self).diagnostics() == old(self).diagnostics() + d
            }),
    {
        let ghost ts = self.pending();
        let ghost said = self.diagnostics();
        if !self.expect_peek(&Token::Ident(String::new())) {
            assert(self.diagnostics() =~= said + seq![mismatch(Token::Ident(Seq::empty()), first(ts))]);
            return None;
        }
        let value = match self.next() {
            Some(Token::Ident(v)) => v,
            _ => {
                assert(false);
                return None;
            },
        };
        assert(ts.skip(1) =~= self.pending());
        if !self.expect_peek(&Token::Assign) {
            assert(self.diagnostics() =~= said + seq![mismatch(Token::Assign, first(ts.skip(1)))]);
            return None;
        }
        let ghost after = self.pending();
        let _ = self.next();
        assert(after.skip(1) =~= self.pending());
        self.skip_past_semicolon();
        assert(self.diagnostics() =~= said + Seq::<Seq<char>>::empty());
        Some(Statement::Let { identifier: value, value: Expression })
    }

    /// Whether the next token is of the kind of `expected`; where it is not,
    /// a diagnostic is added.
    fn expect_peek(&mut self, expected: &Token) -> (r: bool)
        requires
            old(self).wf(),
        ensures
            final(self).wf(),
            final(self).pending() == old(self).pending(),
            r == (first(old(self).pending()) matches Some(t) && same_kind(t, expected@)),
            r ==> final(self).errors == old(self).errors,
            !r ==> final(self).diagnostics() == old(self).diagnostics().push(
                mismatch(expected@, first(old(self).pending())),
            ),
    {
        let actual_is_expected = match &self.peeked {
            Some(actual) => actual.same_kind(expected),
            None => false,
        };
        if !actual_is_expected {
            self.peek_error(expected);
        }
        actual_is_expected
    }

    fn peek_error(&mut self, expected: &Token)
        requires
            old(self).wf(),
        ensures
            final(self).wf(),
            final(self).pending() == old(self).pending(),
            final(self).diagnostics() == old(self).diagnostics().push(
                mismatch(expected@, first(old(self).pending())),
            ),
    {
        let msg = "expected next token to be ".to_owned().concat(
            describe_option_text(Some(expected)).as_str(),
        ).concat(", got ").concat(describe_option_text(self.peeked.as_ref()).as_str()).concat(
            " instead",
        );
        let ghost said = self.diagnostics();
        self.errors.push(msg);
        assert(self.diagnostics() =~= said.push(msg@));
    }

    fn parse_return_statement(&mut self) -> (r: Option<Statement>)
        requires
            old(self).wf(),
        ensures
            final(self).wf(),
            r matches Some(Statement::Return(_)),
            final(self).pending() == past_semicolon(old(self).pending()),
            final(self).errors == old(self).errors,
    {
        self.skip_past_semicolon();
        Some(Statement::Return(Expression))
    }

    fn skip_past_semicolon(&mut self)
        requires
            old(self).wf(),
        ensures
            final(self).wf(),
            final(self).pending() == past_semicolon(old(self).pending()),
            final(self).errors == old(self).errors,
    {
        loop
            invariant
                self.wf(),
                self.errors == old(self).errors,
                past_semicolon(self.pending()) == past_semicolon(old(self).pending()),
            decreases self.pending().len(),
        {
            let ghost ts = self.pending();
            match self.next() {
                None => {
                    return;
                },
                Some(Token::Semicolon) => {
                    assert(ts.skip(1) =~= self.pending());
                    return;
                },
                Some(_) => {
                    assert(ts.skip(1) =~= self.pending());
                },
            }
        }
    }
}

} // verus!
