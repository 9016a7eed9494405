//! Tokens of the Carlo language: their classes, precedences and seed characters.

use vstd::prelude::*;

verus! {

/// Enumerates the classes of Carlo language tokens.
#[derive(Clone, Copy, PartialEq, Eq, Structural, Debug, Hash)]
pub enum TokenClass {
    Let,
    Identifier,
    Assignment,
    Plus,
    Minus,
    Times,
    Divide,
    Number,
    Symbolic,
    FullSymbolic,
    Comma,
    OpenParen,
    CloseParen,
    Newline,
    Comment,
    Header,
    Paragraph,
    Unknown,
}

/// The binding power of each token class; the infix loop of the parser
/// stops at any token whose precedence does not exceed the current floor.
pub open spec fn class_precedence(class: TokenClass) -> u8 {
    match class {
        TokenClass::Let => 1,
        TokenClass::Assignment | TokenClass::OpenParen | TokenClass::CloseParen => 2,
        TokenClass::Plus | TokenClass::Minus => 3,
        TokenClass::Times | TokenClass::Divide => 4,
        _ => 0,
    }
}

/// Is `c` an ASCII letter?
pub open spec fn is_letter(c: char) -> bool {
    ('a' <= c && c <= 'z') || ('A' <= c && c <= 'Z')
}

/// Is `c` an ASCII decimal digit?
pub open spec fn is_digit(c: char) -> bool {
    '0' <= c && c <= '9'
}

/// The class of the token that a character begins.
pub open spec fn class_of(c: char) -> TokenClass {
    if is_letter(c) || c == '_' {
        TokenClass::Identifier
    } else if is_digit(c) {
        TokenClass::Number
    } else if c == '=' {
        TokenClass::Assignment
    } else if c == '+' {
        TokenClass::Plus
    } else if c == '-' {
        TokenClass::Minus
    } else if c == '*' {
        TokenClass::Times
    } else if c == '/' {
        TokenClass::Divide
    } else if c == '&' {
        TokenClass::Symbolic
    } else if c == '!' {
        TokenClass::FullSymbolic
    } else if c == ',' {
        TokenClass::Comma
    } else if c == '(' {
        TokenClass::OpenParen
    } else if c == ')' {
        TokenClass::CloseParen
    } else if c == '@' {
        TokenClass::Header
    } else if c == '~' {
        TokenClass::Paragraph
    } else if c == '#' {
        TokenClass::Comment
    } else if c == '\n' {
        TokenClass::Newline
    } else {
        TokenClass::Unknown
    }
}

pub fn is_letter_exec(c: char) -> (r: bool)
    ensures
        r == is_letter(c),
{
    ('a' <= c && c <= 'z') || ('A' <= c && c <= 'Z')
}

pub fn is_digit_exec(c: char) -> (r: bool)
    ensures
        r == is_digit(c),
{
    '0' <= c && c <= '9'
}

impl TokenClass {
    /// Maps a character to the class of tokens that may begin with it.
    pub fn from_char(c: char) -> (r: TokenClass)
        ensures
            r == class_of(c),
    {
        if is_letter_exec(c) || c == '_' {
            TokenClass::Identifier
        } else if is_digit_exec(c) {
            TokenClass::Number
        } else if c == '=' {
            TokenClass::Assignment
        } else if c == '+' {
            TokenClass::Plus
        } else if c == '-' {
            TokenClass::Minus
        } else if c == '*' {
            TokenClass::Times
        } else if c == '/' {
            TokenClass::Divide
        } else if c == '&' {
            TokenClass::Symbolic
        } else if c == '!' {
            TokenClass::FullSymbolic
        } else if c == ',' {
            TokenClass::Comma
        } else if c == '(' {
            TokenClass::OpenParen
        } else if c == ')' {
            TokenClass::CloseParen
        } else if c == '@' {
            TokenClass::Header
        } else if c == '~' {
            TokenClass::Paragraph
        } else if c == '#' {
            TokenClass::Comment
        } else if c == '\n' {
            TokenClass::Newline
        } else {
            TokenClass::Unknown
        }
    }

    /// The precedence of this class.
    pub fn precedence(&self) -> (r: u8)
        ensures
            r == class_precedence(*self),
    {
        match self {
            TokenClass::Let => 1,
            TokenClass::Assignment | TokenClass::OpenParen | TokenClass::CloseParen => 2,
            TokenClass::Plus | TokenClass::Minus => 3,
            TokenClass::Times | TokenClass::Divide => 4,
            _ => 0,
        }
    }

    /// The name of this class, as diagnostics show it.
    pub open spec fn name_spec(&self) -> Seq<char> {
        match self {
            TokenClass::Let => "Let"@,
            TokenClass::Identifier => "Identifier"@,
            TokenClass::Assignment => "Assignment"@,
            TokenClass::Plus => "Plus"@,
            TokenClass::Minus => "Minus"@,
            TokenClass::Times => "Times"@,
            TokenClass::Divide => "Divide"@,
            TokenClass::Number => "Number"@,
            TokenClass::Symbolic => "Symbolic"@,
            TokenClass::FullSymbolic => "FullSymbolic"@,
            TokenClass::Comma => "Comma"@,
            TokenClass::OpenParen => "OpenParen"@,
            TokenClass::CloseParen => "CloseParen"@,
            TokenClass::Newline => "Newline"@,
            TokenClass::Comment => "Comment"@,
            TokenClass::Header => "Header"@,
            TokenClass::Paragraph => "Paragraph"@,
            TokenClass::Unknown => "Unknown"@,
        }
    }

    /// The name of this class, as diagnostics show it.
    pub fn name(&self) -> (r: &'static str)
        ensures
            r@ == self.name_spec(),
            r@.len() > 0,
    {
        let r = match self {
            TokenClass::Let => "Let",
            TokenClass::Identifier => "Identifier",
            TokenClass::Assignment => "Assignment",
            TokenClass::Plus => "Plus",
            TokenClass::Minus => "Minus",
            TokenClass::Times => "Times",
            TokenClass::Divide => "Divide",
            TokenClass::Number => "Number",
            TokenClass::Symbolic => "Symbolic",
            TokenClass::FullSymbolic => "FullSymbolic",
            TokenClass::Comma => "Comma",
            TokenClass::OpenParen => "OpenParen",
            TokenClass::CloseParen => "CloseParen",
            TokenClass::Newline => "Newline",
            TokenClass::Comment => "Comment",
            TokenClass::Header => "Header",
            TokenClass::Paragraph => "Paragraph",
            TokenClass::Unknown => "Unknown",
        };
        proof {
            reveal_strlit("Let");
            reveal_strlit("Identifier");
            reveal_strlit("Assignment");
            reveal_strlit("Plus");
            reveal_strlit("Minus");
            reveal_strlit("Times");
            reveal_strlit("Divide");
            reveal_strlit("Number");
            reveal_strlit("Symbolic");
            reveal_strlit("FullSymbolic");
            reveal_strlit("Comma");
            reveal_strlit("OpenParen");
            reveal_strlit("CloseParen");
            reveal_strlit("Newline");
            reveal_strlit("Comment");
            reveal_strlit("Header");
            reveal_strlit("Paragraph");
            reveal_strlit("Unknown");
        }
        r
    }
}

impl From<char> for TokenClass {
    fn from(c: char) -> (r: TokenClass) {
        TokenClass::from_char(c)
    }
}

impl vstd::std_specs::convert::FromSpecImpl<char> for TokenClass {
    open spec fn obeys_from_spec() -> bool {
        true
    }

    open spec fn from_spec(c: char) -> TokenClass {
        class_of(c)
    }
}

/// A Carlo language token: its class and the text it was read from.
#[derive(Clone, Debug)]
pub struct Token {
    pub class: TokenClass,
    pub value: String,
}

impl Token {
    /// Constructs a new token.
    pub fn new(class: TokenClass, value: String) -> (r: Token)
        ensures
            r.class == class,
            r.value@ == value@,
    {
        Token { class, value }
    }

    /// A copy of this token.
    pub fn duplicate(&self) -> (r: Token)
        ensures
            r.class == self.class,
            r.value@ == self.value@,
    {
        Token { class: self.class, value: self.value.clone() }
    }

    /// Checks if this token is of a given class.
    pub fn check(&self, class: TokenClass) -> (r: bool)
        ensures
            r == (self.class == class),
    {
        self.class == class
    }

    /// Gets the precedence of this token.
    pub fn precedence(&self) -> (r: u8)
        ensures
            r == class_precedence(self.class),
    {
        self.class.precedence()
    }
}

} // verus!
