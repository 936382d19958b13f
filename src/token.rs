//! The closed set of lexical categories of the language.
use vstd::prelude::*;
use vstd::string::StringExecFns;

verus! {

/// One lexical unit. The identifier text has type `I`: an owned `String` in
/// executable code, its character sequence in specifications.
#[derive(Debug, PartialEq, Eq)]
pub enum Token<I = String> {
    Illegal,
    EoF,
    // identifiers and literals
    Ident(I),
    Int(usize),
    // operators
    Assign,
    Plus,
    Minus,
    Bang,
    Asterisk,
    Slash,
    LT,
    GT,
    Eq,
    NotEq,
    // delimiters
    Comma,
    Semicolon,
    LParen,
    RParen,
    LBrace,
    RBrace,
    // keywords
    Function,
    Let,
    True,
    False,
    If,
    Else,
    Return,
}

/// A token as specifications see it: identifier text as a character sequence.
pub type TokenModel = Token<Seq<char>>;

impl View for Token<String> {
    type V = TokenModel;

    open spec fn view(&self) -> TokenModel {
        match self {
            Token::Illegal => Token::Illegal,
            Token::EoF => Token::EoF,
            Token::Ident(s) => Token::Ident(s@),
            Token::Int(n) => Token::Int(*n),
            Token::Assign => Token::Assign,
            Token::Plus => Token::Plus,
            Token::Minus => Token::Minus,
            Token::Bang => Token::Bang,
            Token::Asterisk => Token::Asterisk,
            Token::Slash => Token::Slash,
            Token::LT => Token::LT,
            Token::GT => Token::GT,
            Token::Eq => Token::Eq,
            Token::NotEq => Token::NotEq,
            Token::Comma => Token::Comma,
            Token::Semicolon => Token::Semicolon,
            Token::LParen => Token::LParen,
            Token::RParen => Token::RParen,
            Token::LBrace => Token::LBrace,
            Token::RBrace => Token::RBrace,
            Token::Function => Token::Function,
            Token::Let => Token::Let,
            Token::True => Token::True,
            Token::False => Token::False,
            Token::If => Token::If,
            Token::Else => Token::Else,
            Token::Return => Token::Return,
        }
    }
}

/// The keyword spelled by `w`, or an identifier holding `w`.
pub open spec fn keyword_or_ident(w: Seq<char>) -> TokenModel {
    if w == "fn"@ {
        Token::Function
    } else if w == "let"@ {
        Token::Let
    } else if w == "true"@ {
        Token::True
    } else if w == "false"@ {
        Token::False
    } else if w == "if"@ {
        Token::If
    } else if w == "else"@ {
        Token::Else
    } else if w == "return"@ {
        Token::Return
    } else {
        Token::Ident(w)
    }
}

fn spells(w: &String, keyword: &str) -> (r: bool)
    ensures
        r == (w@ == keyword@),
{
    let k = keyword.to_owned();
    *w == k
}

/// Classifies a word: one of the seven keywords, else an identifier.
pub fn look_up_ident(input: &str) -> (r: Token)
    ensures
        r@ == keyword_or_ident(input@),
{
    let w = input.to_owned();
    if spells(&w, "fn") {
        Token::Function
    } else if spells(&w, "let") {
        Token::Let
    } else if spells(&w, "true") {
        Token::True
    } else if spells(&w, "false") {
        Token::False
    } else if spells(&w, "if") {
        Token::If
    } else if spells(&w, "else") {
        Token::Else
    } else if spells(&w, "return") {
        Token::Return
    } else {
        Token::Ident(w)
    }
}

/// The position of a token's variant in the declaration, payload aside.
pub open spec fn kind_of(t: TokenModel) -> nat {
    match t {
        Token::Illegal => 0,
        Token::EoF => 1,
        Token::Ident(_) => 2,
        Token::Int(_) => 3,
        Token::Assign => 4,
        Token::Plus => 5,
        Token::Minus => 6,
        Token::Bang => 7,
        Token::Asterisk => 8,
        Token::Slash => 9,
        Token::LT => 10,
        Token::GT => 11,
        Token::Eq => 12,
        Token::NotEq => 13,
        Token::Comma => 14,
        Token::Semicolon => 15,
        Token::LParen => 16,
        Token::RParen => 17,
        Token::LBrace => 18,
        Token::RBrace => 19,
        Token::Function => 20,
        Token::Let => 21,
        Token::True => 22,
        Token::False => 23,
        Token::If => 24,
        Token::Else => 25,
        Token::Return => 26,
    }
}

/// Whether two tokens are of the same variant, whatever their payloads.
pub open spec fn same_kind(a: TokenModel, b: TokenModel) -> bool {
    kind_of(a) == kind_of(b)
}

/// The text of a decimal digit.
pub open spec fn digit_text(d: nat) -> Seq<char> {
    if d == 0 {
        "0"@
    } else if d == 1 {
        "1"@
    } else if d == 2 {
        "2"@
    } else if d == 3 {
        "3"@
    } else if d == 4 {
        "4"@
    } else if d == 5 {
        "5"@
    } else if d == 6 {
        "6"@
    } else if d == 7 {
        "7"@
    } else if d == 8 {
        "8"@
    } else {
        "9"@
    }
}

/// The decimal numeral of `n`, without leading zeros.
pub open spec fn decimal(n: nat) -> Seq<char>
    decreases n,
{
    if n < 10 {
        digit_text(n)
    } else {
        decimal(n / 10) + digit_text(n % 10)
    }
}

/// How a token reads in a diagnostic: its variant's name, then its payload
/// in parentheses, an identifier quoted.
pub open spec fn describe(t: TokenModel) -> Seq<char> {
    match t {
        Token::Illegal => "Illegal"@,
        Token::EoF => "EoF"@,
        Token::Ident(s) => "Ident(\""@ + s + "\")"@,
        Token::Int(n) => "Int("@ + decimal(n as nat) + ")"@,
        Token::Assign => "Assign"@,
        Token::Plus => "Plus"@,
        Token::Minus => "Minus"@,
        Token::Bang => "Bang"@,
        Token::Asterisk => "Asterisk"@,
        Token::Slash => "Slash"@,
        Token::LT => "LT"@,
        Token::GT => "GT"@,
        Token::Eq => "Eq"@,
        Token::NotEq => "NotEq"@,
        Token::Comma => "Comma"@,
        Token::Semicolon => "Semicolon"@,
        Token::LParen => "LParen"@,
        Token::RParen => "RParen"@,
        Token::LBrace => "LBrace"@,
        Token::RBrace => "RBrace"@,
        Token::Function => "Function"@,
        Token::Let => "Let"@,
        Token::True => "True"@,
        Token::False => "False"@,
        Token::If => "If"@,
        Token::Else => "Else"@,
        Token::Return => "Return"@,
    }
}

/// How a token that may be absent reads in a diagnostic.
pub open spec fn describe_option(t: Option<TokenModel>) -> Seq<char> {
    match t {
        Some(t) => "Some("@ + describe(t) + ")"@,
        None => "None"@,
    }
}

impl Token {
    /// The position of the variant in the declaration.
    pub fn kind(&self) -> (r: u8)
        ensures
            r as nat == kind_of(self@),
    {
        match self {
            Token::Illegal => 0,
            Token::EoF => 1,
            Token::Ident(_) => 2,
            Token::Int(_) => 3,
            Token::Assign => 4,
            Token::Plus => 5,
            Token::Minus => 6,
            Token::Bang => 7,
            Token::Asterisk => 8,
            Token::Slash => 9,
            Token::LT => 10,
            Token::GT => 11,
            Token::Eq => 12,
            Token::NotEq => 13,
            Token::Comma => 14,
            Token::Semicolon => 15,
            Token::LParen => 16,
            Token::RParen => 17,
            Token::LBrace => 18,
            Token::RBrace => 19,
            Token::Function => 20,
            Token::Let => 21,
            Token::True => 22,
            Token::False => 23,
            Token::If => 24,
            Token::Else => 25,
            Token::Return => 26,
        }
    }

    /// Whether both tokens are of one variant, payloads aside.
    pub fn same_kind(&self, other: &Token) -> (r: bool)
        ensures
            r == same_kind(self@, other@),
    {
        self.kind() == other.kind()
    }

    /// How the token reads in a diagnostic.
    pub fn describe(&self) -> (r: String)
        ensures
            r@ == describe(self@),
    {
        match self {
            Token::Illegal => "Illegal".to_owned(),
            Token::EoF => "EoF".to_owned(),
            Token::Ident(s) => "Ident(\"".to_owned().concat(s.as_str()).concat("\")"),
            Token::Int(n) => "Int(".to_owned().concat(decimal_text(*n).as_str()).concat(")"),
            Token::Assign => "Assign".to_owned(),
            Token::Plus => "Plus".to_owned(),
            Token::Minus => "Minus".to_owned(),
            Token::Bang => "Bang".to_owned(),
            Token::Asterisk => "Asterisk".to_owned(),
            Token::Slash => "Slash".to_owned(),
            Token::LT => "LT".to_owned(),
            Token::GT => "GT".to_owned(),
            Token::Eq => "Eq".to_owned(),
            Token::NotEq => "NotEq".to_owned(),
            Token::Comma => "Comma".to_owned(),
            Token::Semicolon => "Semicolon".to_owned(),
            Token::LParen => "LParen".to_owned(),
            Token::RParen => "RParen".to_owned(),
            Token::LBrace => "LBrace".to_owned(),
            Token::RBrace => "RBrace".to_owned(),
            Token::Function => "Function".to_owned(),
            Token::Let => "Let".to_owned(),
            Token::True => "True".to_owned(),
            Token::False => "False".to_owned(),
            Token::If => "If".to_owned(),
            Token::Else => "Else".to_owned(),
            Token::Return => "Return".to_owned(),
        }
    }
}

fn digit_str(d: usize) -> (r: &'static str)
    requires
        d < 10,
    ensures
        r@ == digit_text(d as nat),
{
    if d == 0 {
        "0"
    } else if d == 1 {
        "1"
    } else if d == 2 {
        "2"
    } else if d == 3 {
        "3"
    } else if d == 4 {
        "4"
    } else if d == 5 {
        "5"
    } else if d == 6 {
        "6"
    } else if d == 7 {
        "7"
    } else if d == 8 {
        "8"
    } else {
        "9"
    }
}

/// Writes `n` in decimal.
pub fn decimal_text(n: usize) -> (r: String)
    ensures
        r@ == decimal(n as nat),
    decreases n,
{
    if n < 10 {
        digit_str(n).to_owned()
    } else {
        decimal_text(n / 10).concat(digit_str(n % 10))
    }
}

} // verus!
