//! Scanning source text into tokens.
use vstd::prelude::*;
use vstd::std_specs::iter::IteratorSpec;
use vstd::string::StrSliceExecFns;

use crate::token::{keyword_or_ident, look_up_ident, Token, TokenModel};

verus! {

broadcast use vstd::string::group_string_axioms;

/// Whether `c` has the Unicode White_Space property.
pub open spec fn white_space(c: char) -> bool {
    ('\u{9}' <= c && c <= '\u{d}') || c == ' ' || c == '\u{85}' || c == '\u{a0}'
        || c == '\u{1680}' || ('\u{2000}' <= c && c <= '\u{200a}') || c == '\u{2028}'
        || c == '\u{2029}' || c == '\u{202f}' || c == '\u{205f}' || c == '\u{3000}'
}

pub open spec fn ascii_digit(c: char) -> bool {
    '0' <= c && c <= '9'
}

/// Whether `c` has the Unicode Alphabetic property.
pub uninterp spec fn alphabetic(c: char) -> bool;

/// The first index at or after `i` that holds no whitespace.
pub open spec fn skip_white(s: Seq<char>, i: int) -> int
    decreases s.len() - i,
{
    if 0 <= i < s.len() && white_space(s[i]) {
        skip_white(s, i + 1)
    } else {
        i
    }
}

/// The first index at or after `i` that holds no ASCII digit.
pub open spec fn digit_run_end(s: Seq<char>, i: int) -> int
    decreases s.len() - i,
{
    if 0 <= i < s.len() && ascii_digit(s[i]) {
        digit_run_end(s, i + 1)
    } else {
        i
    }
}

/// The first index at or after `i` that holds no alphabetic character.
pub open spec fn alpha_run_end(s: Seq<char>, i: int) -> int
    decreases s.len() - i,
{
    if 0 <= i < s.len() && alphabetic(s[i]) {
        alpha_run_end(s, i + 1)
    } else {
        i
    }
}

/// The number written by a run of decimal digits.
pub open spec fn digits_value(d: Seq<char>) -> nat
    decreases d.len(),
{
    if d.len() == 0 {
        0
    } else {
        digits_value(d.drop_last()) * 10 + (d.last() as nat - '0' as nat) as nat
    }
}

/// The token that begins at index `i` of `s`, with the index just past it.
pub open spec fn scan(s: Seq<char>, i: int) -> (TokenModel, int) {
    let c = s[i];
    if c == '=' {
        if i + 1 < s.len() && s[i + 1] == '=' {
            (Token::Eq, i + 2)
        } else {
            (Token::Assign, i + 1)
        }
    } else if c == '!' {
        if i + 1 < s.len() && s[i + 1] == '=' {
            (Token::NotEq, i + 2)
        } else {
            (Token::Bang, i + 1)
        }
    } else if c == '+' {
        (Token::Plus, i + 1)
    } else if c == '-' {
        (Token::Minus, i + 1)
    } else if c == '/' {
        (Token::Slash, i + 1)
    } else if c == '*' {
        (Token::Asterisk, i + 1)
    } else if c == '<' {
        (Token::LT, i + 1)
    } else if c == '>' {
        (Token::GT, i + 1)
    } else if c == ';' {
        (Token::Semicolon, i + 1)
    } else if c == ',' {
        (Token::Comma, i + 1)
    } else if c == '(' {
        (Token::LParen, i + 1)
    } else if c == ')' {
        (Token::RParen, i + 1)
    } else if c == '{' {
        (Token::LBrace, i + 1)
    } else if c == '}' {
        (Token::RBrace, i + 1)
    } else if ascii_digit(c) {
        // No ASCII digit is alphabetic, so testing digits first changes nothing.
        let end = digit_run_end(s, i + 1);
        let v = digits_value(s.subrange(i, end));
        (if v <= usize::MAX {
            Token::Int(v as usize)
        } else {
            Token::Illegal
        }, end)
    } else if alphabetic(c) {
        let end = alpha_run_end(s, i + 1);
        (keyword_or_ident(s.subrange(i, end)), end)
    } else {
        (Token::Illegal, i + 1)
    }
}

/// The next token at or after index `i`, after whitespace, with the index just
/// past it; `None` once only whitespace is left.
pub open spec fn next_in(s: Seq<char>, i: int) -> Option<(TokenModel, int)> {
    let j = skip_white(s, i);
    if 0 <= j < s.len() {
        Some(scan(s, j))
    } else {
        None
    }
}

/// Every token from index `i` to the end of `s`, in order.
pub open spec fn lex(s: Seq<char>, i: int) -> Seq<TokenModel>
    decreases s.len() - i,
    via lex_decreases
{
    match next_in(s, i) {
        None => Seq::empty(),
        Some((t, end)) => seq![t] + lex(s, end),
    }
}

proof fn lemma_runs_advance(s: Seq<char>, i: int)
    ensures
        skip_white(s, i) >= i,
        digit_run_end(s, i) >= i,
        alpha_run_end(s, i) >= i,
        0 <= i <= s.len() ==> skip_white(s, i) <= s.len() && digit_run_end(s, i) <= s.len()
            && alpha_run_end(s, i) <= s.len(),
    decreases s.len() - i,
{
    if 0 <= i < s.len() {
        lemma_runs_advance(s, i + 1);
    }
}

proof fn lemma_scan_advances(s: Seq<char>, i: int)
    requires
        0 <= i < s.len(),
    ensures
        i < scan(s, i).1 <= s.len(),
{
    lemma_runs_advance(s, i + 1);
}

#[via_fn]
proof fn lex_decreases(s: Seq<char>, i: int) {
    lemma_runs_advance(s, i);
    let j = skip_white(s, i);
    if 0 <= j < s.len() {
        lemma_scan_advances(s, j);
    }
}


proof fn lemma_digit_run_to_end(s: Seq<char>, i: int)
    requires
        0 <= i <= s.len(),
        forall|k: int| i <= k < s.len() ==> ascii_digit(#[trigger] s[k]),
    ensures
        digit_run_end(s, i) == s.len(),
    decreases s.len() - i,
{
    if i < s.len() {
        lemma_digit_run_to_end(s, i + 1);
    }
}

/// A nonempty run of ASCII digits scans as exactly one token, never split:
/// the integer it writes, or the illegal token where that number does not
/// fit in `usize`.
pub proof fn lemma_digits_scan_whole(s: Seq<char>)
    requires
        s.len() > 0,
        forall|k: int| 0 <= k < s.len() ==> ascii_digit(#[trigger] s[k]),
    ensures
        lex(s, 0).len() == 1,
        digits_value(s) <= usize::MAX ==> lex(s, 0) == seq![TokenModel::Int(digits_value(s) as usize)],
{
    assert(ascii_digit(s[0]));
    assert(skip_white(s, 0) == 0);
    lemma_digit_run_to_end(s, 1);
    assert(s.subrange(0, s.len() as int) =~= s);
    assert(skip_white(s, s.len() as int) == s.len());
    assert(lex(s, s.len() as int) =~= Seq::<TokenModel>::empty());
    reveal_with_fuel(lex, 2);
}

/// Relies on `char::is_alphabetic`: whether `c` has the Unicode Alphabetic
/// property.
#[verifier::external_body]
fn is_alphabetic(c: char) -> (r: bool)
    ensures
        r == alphabetic(c),
{
    c.is_alphabetic()
}

/// Whether `c` is whitespace, as `char::is_whitespace` tells.
fn is_white_space(c: char) -> (r: bool)
    ensures
        r == white_space(c),
{
    ('\u{9}' <= c && c <= '\u{d}') || c == ' ' || c == '\u{85}' || c == '\u{a0}'
        || c == '\u{1680}' || ('\u{2000}' <= c && c <= '\u{200a}') || c == '\u{2028}'
        || c == '\u{2029}' || c == '\u{202f}' || c == '\u{205f}' || c == '\u{3000}'
}

fn is_ascii_digit(c: char) -> (r: bool)
    ensures
        r == ascii_digit(c),
{
    '0' <= c && c <= '9'
}

/// A pull-based scanner over a source text.
pub struct Lexer<'a> {
    input: &'a str,
    chars: Vec<char>,
    position: usize,
    read_position: usize,
}

impl<'a> Lexer<'a> {
    /// The source text.
    pub closed spec fn text(&self) -> Seq<char> {
        self.input@
    }

    /// The index of the next character to read.
    pub closed spec fn cursor(&self) -> int {
        self.read_position as int
    }

    /// The cursors lie within the text, in order, over its characters.
    pub closed spec fn wf(&self) -> bool {
        &&& self.chars@ == self.input@
        &&& self.position <= self.read_position <= self.chars.len()
    }

    /// Tokens still to come.
    pub open spec fn rest(&self) -> Seq<TokenModel> {
        lex(self.text(), self.cursor())
    }

    /// A lexer at the start of `input`.
    pub fn new(input: &str) -> (r: Lexer<'_>)
        ensures
            r.wf(),
            r.text() == input@,
            r.cursor() == 0,
    {
        let mut chars: Vec<char> = Vec::new();
        for c in it: input.chars()
            invariant
                chars@ == it.seq().take(it.index() as int),
        {
            chars.push(c);
        }
        assert(chars@ =~= input@);
        Lexer { input, chars, position: 0, read_position: 0 }
    }

    fn read_char(&mut self) -> (r: Option<char>)
        requires
            old(self).wf(),
        ensures
            final(self).wf(),
            final(self).input == old(self).input,
            final(self).chars == old(self).chars,
            old(self).read_position < old(self).chars.len() ==> {
                &&& r == Some(old(self).chars@[old(self).read_position as int])
                &&& final(self).position == old(self).read_position
                &&& final(self).read_position == old(self).read_position + 1
            },
            old(self).read_position >= old(self).chars.len() ==> r is None && *final(self)
                == *old(self),
    {
        if self.read_position < self.chars.len() {
            let c = self.chars[self.read_position];
            self.position = self.read_position;
            self.read_position = self.read_position + 1;
            Some(c)
        } else {
            None
        }
    }

    fn peek_char(&self) -> (r: Option<char>)
        requires
            self.wf(),
        ensures
            self.read_position < self.chars.len() ==> r == Some(
                self.chars@[self.read_position as int],
            ),
            self.read_position >= self.chars.len() ==> r is None,
    {
        if self.read_position < self.chars.len() {
            Some(self.chars[self.read_position])
        } else {
            None
        }
    }

    fn skip_whitespace(&mut self)
        requires
            old(self).wf(),
        ensures
            final(self).wf(),
            final(self).input == old(self).input,
            final(self).chars == old(self).chars,
            final(self).read_position == skip_white(
                old(self).chars@,
                old(self).read_position as int,
            ),
    {
        let ghost start = self.read_position as int;
        while self.peek_char() matches Some(c) && is_white_space(c)
            invariant
                self.wf(),
                self.input == old(self).input,
                self.chars == old(self).chars,
                skip_white(self.chars@, self.read_position as int) == skip_white(
                    self.chars@,
                    start,
                ),
            decreases self.chars.len() - self.read_position,
        {
            self.read_char();
        }
    }

    fn read_identifier(&mut self) -> (r: &'a str)
        requires
            old(self).wf(),
            old(self).position < old(self).read_position,
        ensures
            final(self).wf(),
            final(self).input == old(self).input,
            final(self).chars == old(self).chars,
            final(self).read_position == alpha_run_end(
                old(self).chars@,
                old(self).read_position as int,
            ),
            r@ == old(self).chars@.subrange(
                old(self).position as int,
                final(self).read_position as int,
            ),
    {
        let start = self.position;
        let ghost from = self.read_position as int;
        while self.peek_char() matches Some(c) && is_alphabetic(c)
            invariant
                self.wf(),
                self.input == old(self).input,
                self.chars == old(self).chars,
                start < self.read_position,
                alpha_run_end(self.chars@, self.read_position as int) == alpha_run_end(
                    self.chars@,
                    from,
                ),
            decreases self.chars.len() - self.read_position,
        {
            self.read_char();
        }
        self.input.substring_char(start, self.read_position)
    }

    fn read_number(&mut self) -> (r: Option<usize>)
        requires
            old(self).wf(),
            old(self).read_position == old(self).position + 1,
            ascii_digit(old(self).chars@[old(self).position as int]),
        ensures
            final(self).wf(),
            final(self).input == old(self).input,
            final(self).chars == old(self).chars,
            final(self).read_position == digit_run_end(
                old(self).chars@,
                old(self).read_position as int,
            ),
            ({
                let v = digits_value(
                    old(self).chars@.subrange(
                        old(self).position as int,
                        final(self).read_position as int,
                    ),
                );
                if v <= usize::MAX {
                    r == Some(v as usize)
                } else {
                    r is None
                }
            }),
    {
        let start = self.position;
        let ghost from = self.read_position as int;
        let first = self.chars[start];
        let mut value: Option<usize> = Some((first as u32 - '0' as u32) as usize);
        proof {
            let d = self.chars@.subrange(start as int, self.read_position as int);
            assert(d.drop_last() =~= Seq::<char>::empty());
            assert(d.last() == first);
            assert(digits_value(d.drop_last()) == 0);
            assert(digits_value(d) == (first as nat - '0' as nat));
        }
        while self.peek_char() matches Some(c) && is_ascii_digit(c)
            invariant
                self.wf(),
                self.input == old(self).input,
                self.chars == old(self).chars,
                start < self.read_position,
                digit_run_end(self.chars@, self.read_position as int) == digit_run_end(
                    self.chars@,
                    from,
                ),
                ({
                    let v = digits_value(
                        self.chars@.subrange(start as int, self.read_position as int),
                    );
                    if v <= usize::MAX {
                        value == Some(v as usize)
                    } else {
                        value is None
                    }
                }),
            decreases self.chars.len() - self.read_position,
        {
            let ghost before = self.chars@.subrange(start as int, self.read_position as int);
            self.read_char();
            let c = self.chars[self.position];
            let d = (c as u32 - '0' as u32) as usize;
            let ghost after = self.chars@.subrange(start as int, self.read_position as int);
            assert(after.drop_last() =~= before);
            let ghost pv = digits_value(before);
            assert(digits_value(after) == pv * 10 + d);
            value = match value {
                Some(v) => {
                    if v <= (usize::MAX - d) / 10 {
                        assert(v * 10 + d <= usize::MAX) by (nonlinear_arith)
                            requires
                                v <= (usize::MAX - d) / 10,
                                d <= 9,
                        ;
                        Some(v * 10 + d)
                    } else {
                        assert(v * 10 + d > usize::MAX) by (nonlinear_arith)
                            requires
                                v > (usize::MAX - d) / 10,
                                d <= 9,
                        ;
                        None
                    }
                },
                None => {
                    assert(pv * 10 + d > usize::MAX) by (nonlinear_arith)
                        requires
                            pv > usize::MAX,
                    ;
                    None
                },
            };
        }
        value
    }

    /// Scans the next token: `None` once only whitespace is left.
    pub fn next_token(&mut self) -> (r: Option<Token>)
        requires
            old(self).wf(),
        ensures
            final(self).wf(),
            final(self).text() == old(self).text(),
            match next_in(old(self).text(), old(self).cursor()) {
                None => r is None,
                Some((t, end)) => r is Some && r->0@ == t && final(self).cursor() == end,
            },
            r is None ==> old(self).rest() == Seq::<TokenModel>::empty() && final(self).rest()
                == Seq::<TokenModel>::empty(),
            r is Some ==> old(self).rest() == seq![r->0@] + final(self).rest(),
    {
        proof {
            lemma_runs_advance(self.chars@, self.read_position as int);
        }
        self.skip_whitespace();
        let r = match self.read_char() {
            None => None,
            Some(c) => {
                proof {
                    lemma_runs_advance(self.chars@, self.read_position as int);
                }
                let t = if c == '=' {
                    if self.peek_char() == Some('=') {
                        self.read_char();
                        Token::Eq
                    } else {
                        Token::Assign
                    }
                } else if c == '!' {
                    if self.peek_char() == Some('=') {
                        self.read_char();
                        Token::NotEq
                    } else {
                        Token::Bang
                    }
                } else if c == '+' {
                    Token::Plus
                } else if c == '-' {
                    Token::Minus
                } else if c == '/' {
                    Token::Slash
                } else if c == '*' {
                    Token::Asterisk
                } else if c == '<' {
                    Token::LT
                } else if c == '>' {
                    Token::GT
                } else if c == ';' {
                    Token::Semicolon
                } else if c == ',' {
                    Token::Comma
                } else if c == '(' {
                    Token::LParen
                } else if c == ')' {
                    Token::RParen
                } else if c == '{' {
                    Token::LBrace
                } else if c == '}' {
                    Token::RBrace
                } else if is_ascii_digit(c) {
                    match self.read_number() {
                        Some(n) => Token::Int(n),
                        None => Token::Illegal,
                    }
                } else if is_alphabetic(c) {
                    look_up_ident(self.read_identifier())
                } else {
                    Token::Illegal
                };
                Some(t)
            },
        };
        r
    }

    /// Scans every remaining token, in order.
    pub fn collect(self) -> (r: Vec<Token>)
        requires
            self.wf(),
        ensures
            r@.map_values(|t: Token| t@) == self.rest(),
    {
        let mut lexer = self;
        let mut out: Vec<Token> = Vec::new();
        loop
            invariant
                lexer.wf(),
                lexer.text() == self.text(),
                out@.map_values(|t: Token| t@) + lexer.rest() == self.rest(),
            decreases lexer.text().len() - lexer.cursor(),
        {
            let ghost before = lexer;
            match lexer.next_token() {
                None => {
                    assert(out@.map_values(|t: Token| t@) =~= self.rest());
                    return out;
                },
                Some(t) => {
                    proof {
                        lemma_runs_advance(before.text(), before.cursor());
                        let j = skip_white(before.text(), before.cursor());
                        lemma_scan_advances(before.text(), j);
                    }
                    let ghost v = t@;
                    let ghost done = out@.map_values(|t: Token| t@);
                    out.push(t);
                    assert(out@.map_values(|t: Token| t@) =~= done.push(v));
                    assert(done.push(v) + lexer.rest() =~= done + (seq![v] + lexer.rest()));
                },
            }
        }
    }
}

/// Gives a lexer over a source text.
pub trait Lex {
    /// The source text.
    spec fn source(&self) -> Seq<char>;

    /// A lexer at the start of the source text.
    fn tokens(&self) -> (r: Lexer<'_>)
        ensures
            r.wf(),
            r.text() == self.source(),
            r.cursor() == 0,
    ;
}

impl Lex for str {
    open spec fn source(&self) -> Seq<char> {
        self@
    }

    fn tokens(&self) -> (r: Lexer<'_>) {
        Lexer::new(self)
    }
}

impl Lex for String {
    open spec fn source(&self) -> Seq<char> {
        self@
    }

    fn tokens(&self) -> (r: Lexer<'_>) {
        Lexer::new(self.as_str())
    }
}


} // verus!
