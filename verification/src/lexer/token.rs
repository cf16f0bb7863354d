//! Tokens.
//!
//! Every token of ISO 7185 Pascal is recognised, and so are the UCSD
//! extensions (the reserved words `UNIT`, `INTERFACE`, `IMPLEMENTATION`,
//! `USES` and `OTHERWISE`, hexadecimal literals and compiler directives),
//! whatever the dialect: accepting or rejecting them by dialect is not the
//! lexer's business.

use vstd::prelude::*;

use crate::ast::Span;
use crate::strings::chars_of;

verus! {

/// One token with the source range it covers.
#[derive(Debug, PartialEq)]
pub struct Token {
    pub kind: TokenKind,
    pub span: Span,
}

impl Token {
    pub fn new(kind: TokenKind, span: Span) -> (t: Token)
        ensures
            t.kind == kind,
            t.span == span,
    {
        Token { kind, span }
    }
}

/// The kind of a token.
///
/// A compiler directive carries no span of its own: the token's span
/// covers it.
#[derive(Debug, PartialEq)]
pub enum TokenKind {
    Program,
    Begin,
    End,
    Var,
    Const,
    Type,
    Procedure,
    Function,
    If,
    Then,
    Else,
    While,
    Do,
    Repeat,
    Until,
    For,
    To,
    DownTo,
    Case,
    Of,
    Record,
    Array,
    SetKw,
    File,
    Packed,
    Label,
    Goto,
    With,
    Nil,
    Not,
    And,
    Or,
    Div,
    Mod,
    In,
    Unit,
    Interface,
    Implementation,
    Uses,
    Otherwise,
    Identifier(String),
    IntegerLiteral(i64),
    /// UCSD extension: a `$FF` hexadecimal literal, kept apart from
    /// [`TokenKind::IntegerLiteral`] so that a dialect check can tell `$1A`
    /// from `26`.
    HexIntegerLiteral(i64),
    /// A real literal, with the characters the source wrote.
    RealLiteral(String),
    /// A string literal with its `''` escapes resolved. One-character
    /// strings are not told apart from longer ones here.
    StringLiteral(String),
    /// `:=`
    Assign,
    /// `<=`
    Le,
    /// `>=`
    Ge,
    /// `<>`
    Ne,
    /// `..`
    DotDot,
    /// `+`
    Plus,
    /// `-`
    Minus,
    /// `*`
    Star,
    /// `/`
    Slash,
    /// `=`
    Eq,
    /// `<`
    Lt,
    /// `>`
    Gt,
    /// `(`
    LParen,
    /// `)`
    RParen,
    /// `[`
    LBracket,
    /// `]`
    RBracket,
    /// `.`
    Dot,
    /// `,`
    Comma,
    /// `;`
    Semicolon,
    /// `:`
    Colon,
    /// `^`
    Caret,
    /// UCSD extension: a compiler directive such as `(*$I foo.pas*)`.
    /// `name` is the run of ASCII letters and digits right after the `$`;
    /// `args` is the rest up to `*)`, without the blanks around it.
    CompilerDirective { name: String, args: String },
    /// The end of the source: always the last token.
    Eof,
}

/// The kind of a token without its contents, for comparing kinds.
#[derive(Debug, Clone, Copy, PartialEq, Eq, Structural)]
pub enum TokenTag {
    Program,
    Begin,
    End,
    Var,
    Const,
    Type,
    Procedure,
    Function,
    If,
    Then,
    Else,
    While,
    Do,
    Repeat,
    Until,
    For,
    To,
    DownTo,
    Case,
    Of,
    Record,
    Array,
    SetKw,
    File,
    Packed,
    Label,
    Goto,
    With,
    Nil,
    Not,
    And,
    Or,
    Div,
    Mod,
    In,
    Unit,
    Interface,
    Implementation,
    Uses,
    Otherwise,
    Identifier,
    IntegerLiteral,
    HexIntegerLiteral,
    RealLiteral,
    StringLiteral,
    Assign,
    Le,
    Ge,
    Ne,
    DotDot,
    Plus,
    Minus,
    Star,
    Slash,
    Eq,
    Lt,
    Gt,
    LParen,
    RParen,
    LBracket,
    RBracket,
    Dot,
    Comma,
    Semicolon,
    Colon,
    Caret,
    CompilerDirective,
    Eof,
}

impl TokenKind {
    pub open spec fn spec_tag(&self) -> TokenTag {
        match self {
            TokenKind::Program => TokenTag::Program,
            TokenKind::Begin => TokenTag::Begin,
            TokenKind::End => TokenTag::End,
            TokenKind::Var => TokenTag::Var,
            TokenKind::Const => TokenTag::Const,
            TokenKind::Type => TokenTag::Type,
            TokenKind::Procedure => TokenTag::Procedure,
            TokenKind::Function => TokenTag::Function,
            TokenKind::If => TokenTag::If,
            TokenKind::Then => TokenTag::Then,
            TokenKind::Else => TokenTag::Else,
            TokenKind::While => TokenTag::While,
            TokenKind::Do => TokenTag::Do,
            TokenKind::Repeat => TokenTag::Repeat,
            TokenKind::Until => TokenTag::Until,
            TokenKind::For => TokenTag::For,
            TokenKind::To => TokenTag::To,
            TokenKind::DownTo => TokenTag::DownTo,
            TokenKind::Case => TokenTag::Case,
            TokenKind::Of => TokenTag::Of,
            TokenKind::Record => TokenTag::Record,
            TokenKind::Array => TokenTag::Array,
            TokenKind::SetKw => TokenTag::SetKw,
            TokenKind::File => TokenTag::File,
            TokenKind::Packed => TokenTag::Packed,
            TokenKind::Label => TokenTag::Label,
            TokenKind::Goto => TokenTag::Goto,
            TokenKind::With => TokenTag::With,
            TokenKind::Nil => TokenTag::Nil,
            TokenKind::Not => TokenTag::Not,
            TokenKind::And => TokenTag::And,
            TokenKind::Or => TokenTag::Or,
            TokenKind::Div => TokenTag::Div,
            TokenKind::Mod => TokenTag::Mod,
            TokenKind::In => TokenTag::In,
            TokenKind::Unit => TokenTag::Unit,
            TokenKind::Interface => TokenTag::Interface,
            TokenKind::Implementation => TokenTag::Implementation,
            TokenKind::Uses => TokenTag::Uses,
            TokenKind::Otherwise => TokenTag::Otherwise,
            TokenKind::Assign => TokenTag::Assign,
            TokenKind::Le => TokenTag::Le,
            TokenKind::Ge => TokenTag::Ge,
            TokenKind::Ne => TokenTag::Ne,
            TokenKind::DotDot => TokenTag::DotDot,
            TokenKind::Plus => TokenTag::Plus,
            TokenKind::Minus => TokenTag::Minus,
            TokenKind::Star => TokenTag::Star,
            TokenKind::Slash => TokenTag::Slash,
            TokenKind::Eq => TokenTag::Eq,
            TokenKind::Lt => TokenTag::Lt,
            TokenKind::Gt => TokenTag::Gt,
            TokenKind::LParen => TokenTag::LParen,
            TokenKind::RParen => TokenTag::RParen,
            TokenKind::LBracket => TokenTag::LBracket,
            TokenKind::RBracket => TokenTag::RBracket,
            TokenKind::Dot => TokenTag::Dot,
            TokenKind::Comma => TokenTag::Comma,
            TokenKind::Semicolon => TokenTag::Semicolon,
            TokenKind::Colon => TokenTag::Colon,
            TokenKind::Caret => TokenTag::Caret,
            TokenKind::Identifier(_) => TokenTag::Identifier,
            TokenKind::IntegerLiteral(_) => TokenTag::IntegerLiteral,
            TokenKind::HexIntegerLiteral(_) => TokenTag::HexIntegerLiteral,
            TokenKind::RealLiteral(_) => TokenTag::RealLiteral,
            TokenKind::StringLiteral(_) => TokenTag::StringLiteral,
            TokenKind::CompilerDirective { .. } => TokenTag::CompilerDirective,
            TokenKind::Eof => TokenTag::Eof,
        }
    }

    /// The kind without its contents.
    pub fn tag(&self) -> (t: TokenTag)
        ensures
            t == self.spec_tag(),
    {
        match self {
            TokenKind::Program => TokenTag::Program,
            TokenKind::Begin => TokenTag::Begin,
            TokenKind::End => TokenTag::End,
            TokenKind::Var => TokenTag::Var,
            TokenKind::Const => TokenTag::Const,
            TokenKind::Type => TokenTag::Type,
            TokenKind::Procedure => TokenTag::Procedure,
            TokenKind::Function => TokenTag::Function,
            TokenKind::If => TokenTag::If,
            TokenKind::Then => TokenTag::Then,
            TokenKind::Else => TokenTag::Else,
            TokenKind::While => TokenTag::While,
            TokenKind::Do => TokenTag::Do,
            TokenKind::Repeat => TokenTag::Repeat,
            TokenKind::Until => TokenTag::Until,
            TokenKind::For => TokenTag::For,
            TokenKind::To => TokenTag::To,
            TokenKind::DownTo => TokenTag::DownTo,
            TokenKind::Case => TokenTag::Case,
            TokenKind::Of => TokenTag::Of,
            TokenKind::Record => TokenTag::Record,
            TokenKind::Array => TokenTag::Array,
            TokenKind::SetKw => TokenTag::SetKw,
            TokenKind::File => TokenTag::File,
            TokenKind::Packed => TokenTag::Packed,
            TokenKind::Label => TokenTag::Label,
            TokenKind::Goto => TokenTag::Goto,
            TokenKind::With => TokenTag::With,
            TokenKind::Nil => TokenTag::Nil,
            TokenKind::Not => TokenTag::Not,
            TokenKind::And => TokenTag::And,
            TokenKind::Or => TokenTag::Or,
            TokenKind::Div => TokenTag::Div,
            TokenKind::Mod => TokenTag::Mod,
            TokenKind::In => TokenTag::In,
            TokenKind::Unit => TokenTag::Unit,
            TokenKind::Interface => TokenTag::Interface,
            TokenKind::Implementation => TokenTag::Implementation,
            TokenKind::Uses => TokenTag::Uses,
            TokenKind::Otherwise => TokenTag::Otherwise,
            TokenKind::Assign => TokenTag::Assign,
            TokenKind::Le => TokenTag::Le,
            TokenKind::Ge => TokenTag::Ge,
            TokenKind::Ne => TokenTag::Ne,
            TokenKind::DotDot => TokenTag::DotDot,
            TokenKind::Plus => TokenTag::Plus,
            TokenKind::Minus => TokenTag::Minus,
            TokenKind::Star => TokenTag::Star,
            TokenKind::Slash => TokenTag::Slash,
            TokenKind::Eq => TokenTag::Eq,
            TokenKind::Lt => TokenTag::Lt,
            TokenKind::Gt => TokenTag::Gt,
            TokenKind::LParen => TokenTag::LParen,
            TokenKind::RParen => TokenTag::RParen,
            TokenKind::LBracket => TokenTag::LBracket,
            TokenKind::RBracket => TokenTag::RBracket,
            TokenKind::Dot => TokenTag::Dot,
            TokenKind::Comma => TokenTag::Comma,
            TokenKind::Semicolon => TokenTag::Semicolon,
            TokenKind::Colon => TokenTag::Colon,
            TokenKind::Caret => TokenTag::Caret,
            TokenKind::Identifier(_) => TokenTag::Identifier,
            TokenKind::IntegerLiteral(_) => TokenTag::IntegerLiteral,
            TokenKind::HexIntegerLiteral(_) => TokenTag::HexIntegerLiteral,
            TokenKind::RealLiteral(_) => TokenTag::RealLiteral,
            TokenKind::StringLiteral(_) => TokenTag::StringLiteral,
            TokenKind::CompilerDirective { .. } => TokenTag::CompilerDirective,
            TokenKind::Eof => TokenTag::Eof,
        }
    }

    /// The text a token kind carries: an identifier's spelling, a real
    /// literal's characters, a string literal's value or a directive's
    /// name; empty for the others.
    pub open spec fn spec_text(&self) -> Seq<char> {
        match self {
            TokenKind::Identifier(s) => s@,
            TokenKind::RealLiteral(s) => s@,
            TokenKind::StringLiteral(s) => s@,
            TokenKind::CompilerDirective { name, .. } => name@,
            _ => Seq::empty(),
        }
    }

    /// A compiler directive's arguments; empty for the others.
    pub open spec fn spec_args(&self) -> Seq<char> {
        match self {
            TokenKind::CompilerDirective { args, .. } => args@,
            _ => Seq::empty(),
        }
    }

    /// The value of an integer literal; zero for the others.
    pub open spec fn spec_value(&self) -> i64 {
        match self {
            TokenKind::IntegerLiteral(v) => *v,
            TokenKind::HexIntegerLiteral(v) => *v,
            _ => 0,
        }
    }

    /// The kind as plain values: its tag, text, arguments and value.
    pub open spec fn model(&self) -> KindModel {
        KindModel {
            tag: self.spec_tag(),
            text: self.spec_text(),
            args: self.spec_args(),
            value: self.spec_value(),
        }
    }
}

/// What a token kind holds, as plain values.
pub struct KindModel {
    pub tag: TokenTag,
    pub text: Seq<char>,
    pub args: Seq<char>,
    pub value: i64,
}

impl KindModel {
    /// The model of a kind that carries nothing but its tag.
    pub open spec fn bare(tag: TokenTag) -> KindModel {
        KindModel { tag, text: Seq::empty(), args: Seq::empty(), value: 0 }
    }
}

impl Clone for TokenKind {
    fn clone(&self) -> (r: Self)
        ensures
            r.model() == self.model(),
    {
        match self {
            TokenKind::Program => TokenKind::Program,
            TokenKind::Begin => TokenKind::Begin,
            TokenKind::End => TokenKind::End,
            TokenKind::Var => TokenKind::Var,
            TokenKind::Const => TokenKind::Const,
            TokenKind::Type => TokenKind::Type,
            TokenKind::Procedure => TokenKind::Procedure,
            TokenKind::Function => TokenKind::Function,
            TokenKind::If => TokenKind::If,
            TokenKind::Then => TokenKind::Then,
            TokenKind::Else => TokenKind::Else,
            TokenKind::While => TokenKind::While,
            TokenKind::Do => TokenKind::Do,
            TokenKind::Repeat => TokenKind::Repeat,
            TokenKind::Until => TokenKind::Until,
            TokenKind::For => TokenKind::For,
            TokenKind::To => TokenKind::To,
            TokenKind::DownTo => TokenKind::DownTo,
            TokenKind::Case => TokenKind::Case,
            TokenKind::Of => TokenKind::Of,
            TokenKind::Record => TokenKind::Record,
            TokenKind::Array => TokenKind::Array,
            TokenKind::SetKw => TokenKind::SetKw,
            TokenKind::File => TokenKind::File,
            TokenKind::Packed => TokenKind::Packed,
            TokenKind::Label => TokenKind::Label,
            TokenKind::Goto => TokenKind::Goto,
            TokenKind::With => TokenKind::With,
            TokenKind::Nil => TokenKind::Nil,
            TokenKind::Not => TokenKind::Not,
            TokenKind::And => TokenKind::And,
            TokenKind::Or => TokenKind::Or,
            TokenKind::Div => TokenKind::Div,
            TokenKind::Mod => TokenKind::Mod,
            TokenKind::In => TokenKind::In,
            TokenKind::Unit => TokenKind::Unit,
            TokenKind::Interface => TokenKind::Interface,
            TokenKind::Implementation => TokenKind::Implementation,
            TokenKind::Uses => TokenKind::Uses,
            TokenKind::Otherwise => TokenKind::Otherwise,
            TokenKind::Assign => TokenKind::Assign,
            TokenKind::Le => TokenKind::Le,
            TokenKind::Ge => TokenKind::Ge,
            TokenKind::Ne => TokenKind::Ne,
            TokenKind::DotDot => TokenKind::DotDot,
            TokenKind::Plus => TokenKind::Plus,
            TokenKind::Minus => TokenKind::Minus,
            TokenKind::Star => TokenKind::Star,
            TokenKind::Slash => TokenKind::Slash,
            TokenKind::Eq => TokenKind::Eq,
            TokenKind::Lt => TokenKind::Lt,
            TokenKind::Gt => TokenKind::Gt,
            TokenKind::LParen => TokenKind::LParen,
            TokenKind::RParen => TokenKind::RParen,
            TokenKind::LBracket => TokenKind::LBracket,
            TokenKind::RBracket => TokenKind::RBracket,
            TokenKind::Dot => TokenKind::Dot,
            TokenKind::Comma => TokenKind::Comma,
            TokenKind::Semicolon => TokenKind::Semicolon,
            TokenKind::Colon => TokenKind::Colon,
            TokenKind::Caret => TokenKind::Caret,
            TokenKind::Identifier(s) => TokenKind::Identifier(s.clone()),
            TokenKind::IntegerLiteral(v) => TokenKind::IntegerLiteral(*v),
            TokenKind::HexIntegerLiteral(v) => TokenKind::HexIntegerLiteral(*v),
            TokenKind::RealLiteral(s) => TokenKind::RealLiteral(s.clone()),
            TokenKind::StringLiteral(s) => TokenKind::StringLiteral(s.clone()),
            TokenKind::CompilerDirective { name, args } => TokenKind::CompilerDirective {
                name: name.clone(),
                args: args.clone(),
            },
            TokenKind::Eof => TokenKind::Eof,
        }
    }
}

impl Clone for Token {
    fn clone(&self) -> (r: Self)
        ensures
            r.kind.model() == self.kind.model(),
            r.span == self.span,
    {
        Token { kind: self.kind.clone(), span: self.span }
    }
}

/// The ASCII lower-case form of a character.
pub open spec fn ascii_lower(c: char) -> char {
    if 'A' <= c && c <= 'Z' {
        ((c as u32) + 32) as char
    } else {
        c
    }
}

/// The ASCII lower-case form of a text.
pub open spec fn lower_text(s: Seq<char>) -> Seq<char> {
    s.map_values(|c: char| ascii_lower(c))
}

/// The reserved word spelled `s`, compared without regard to ASCII case:
/// `Begin`, `BEGIN` and `begin` are the same word.
pub open spec fn keyword_tag(s: Seq<char>) -> Option<TokenTag> {
    let l = lower_text(s);
    if l == "program"@ {
        Some(TokenTag::Program)
    } else if l == "begin"@ {
        Some(TokenTag::Begin)
    } else if l == "end"@ {
        Some(TokenTag::End)
    } else if l == "var"@ {
        Some(TokenTag::Var)
    } else if l == "const"@ {
        Some(TokenTag::Const)
    } else if l == "type"@ {
        Some(TokenTag::Type)
    } else if l == "procedure"@ {
        Some(TokenTag::Procedure)
    } else if l == "function"@ {
        Some(TokenTag::Function)
    } else if l == "if"@ {
        Some(TokenTag::If)
    } else if l == "then"@ {
        Some(TokenTag::Then)
    } else if l == "else"@ {
        Some(TokenTag::Else)
    } else if l == "while"@ {
        Some(TokenTag::While)
    } else if l == "do"@ {
        Some(TokenTag::Do)
    } else if l == "repeat"@ {
        Some(TokenTag::Repeat)
    } else if l == "until"@ {
        Some(TokenTag::Until)
    } else if l == "for"@ {
        Some(TokenTag::For)
    } else if l == "to"@ {
        Some(TokenTag::To)
    } else if l == "downto"@ {
        Some(TokenTag::DownTo)
    } else if l == "case"@ {
        Some(TokenTag::Case)
    } else if l == "of"@ {
        Some(TokenTag::Of)
    } else if l == "record"@ {
        Some(TokenTag::Record)
    } else if l == "array"@ {
        Some(TokenTag::Array)
    } else if l == "set"@ {
        Some(TokenTag::SetKw)
    } else if l == "file"@ {
        Some(TokenTag::File)
    } else if l == "packed"@ {
        Some(TokenTag::Packed)
    } else if l == "label"@ {
        Some(TokenTag::Label)
    } else if l == "goto"@ {
        Some(TokenTag::Goto)
    } else if l == "with"@ {
        Some(TokenTag::With)
    } else if l == "nil"@ {
        Some(TokenTag::Nil)
    } else if l == "not"@ {
        Some(TokenTag::Not)
    } else if l == "and"@ {
        Some(TokenTag::And)
    } else if l == "or"@ {
        Some(TokenTag::Or)
    } else if l == "div"@ {
        Some(TokenTag::Div)
    } else if l == "mod"@ {
        Some(TokenTag::Mod)
    } else if l == "in"@ {
        Some(TokenTag::In)
    } else if l == "unit"@ {
        Some(TokenTag::Unit)
    } else if l == "interface"@ {
        Some(TokenTag::Interface)
    } else if l == "implementation"@ {
        Some(TokenTag::Implementation)
    } else if l == "uses"@ {
        Some(TokenTag::Uses)
    } else if l == "otherwise"@ {
        Some(TokenTag::Otherwise)
    } else {
        None
    }
}

/// Whether `text`, read without regard to ASCII case, is `word`.
pub fn eq_ignore_ascii_case(text: &Vec<char>, word: &str) -> (r: bool)
    ensures
        r == (lower_text(text@) == word@),
{
    let w = chars_of(word);
    if text.len() != w.len() {
        proof {
            assert(lower_text(text@).len() != word@.len());
        }
        return false;
    }
    let mut i: usize = 0;
    while i < w.len()
        invariant
            i <= w.len(),
            w@ == word@,
            text.len() == w.len(),
            forall|k: int| 0 <= k < i ==> ascii_lower(text@[k]) == w@[k],
        decreases w.len() - i,
    {
        if lower_char(text[i]) != w[i] {
            proof {
                assert(lower_text(text@)[i as int] != word@[i as int]);
            }
            return false;
        }
        i = i + 1;
    }
    proof {
        assert(lower_text(text@) =~= word@);
    }
    true
}

/// The ASCII lower-case form of a character.
pub fn lower_char(c: char) -> (r: char)
    ensures
        r == ascii_lower(c),
{
    if 'A' <= c && c <= 'Z' {
        let b = c as u8;
        (b + 32) as char
    } else {
        c
    }
}

/// Looks `text` up among the reserved words, without regard to ASCII
/// case.
pub fn lookup_keyword(text: &Vec<char>) -> (r: Option<TokenKind>)
    ensures
        r matches Some(k) ==> keyword_tag(text@) == Some(k.spec_tag()) && k.model() == KindModel::bare(k.spec_tag()),
        r is None <==> keyword_tag(text@) is None,
{
    if eq_ignore_ascii_case(text, "program") {
        Some(TokenKind::Program)
    } else if eq_ignore_ascii_case(text, "begin") {
        Some(TokenKind::Begin)
    } else if eq_ignore_ascii_case(text, "end") {
        Some(TokenKind::End)
    } else if eq_ignore_ascii_case(text, "var") {
        Some(TokenKind::Var)
    } else if eq_ignore_ascii_case(text, "const") {
        Some(TokenKind::Const)
    } else if eq_ignore_ascii_case(text, "type") {
        Some(TokenKind::Type)
    } else if eq_ignore_ascii_case(text, "procedure") {
        Some(TokenKind::Procedure)
    } else if eq_ignore_ascii_case(text, "function") {
        Some(TokenKind::Function)
    } else if eq_ignore_ascii_case(text, "if") {
        Some(TokenKind::If)
    } else if eq_ignore_ascii_case(text, "then") {
        Some(TokenKind::Then)
    } else if eq_ignore_ascii_case(text, "else") {
        Some(TokenKind::Else)
    } else if eq_ignore_ascii_case(text, "while") {
        Some(TokenKind::While)
    } else if eq_ignore_ascii_case(text, "do") {
        Some(TokenKind::Do)
    } else if eq_ignore_ascii_case(text, "repeat") {
        Some(TokenKind::Repeat)
    } else if eq_ignore_ascii_case(text, "until") {
        Some(TokenKind::Until)
    } else if eq_ignore_ascii_case(text, "for") {
        Some(TokenKind::For)
    } else if eq_ignore_ascii_case(text, "to") {
        Some(TokenKind::To)
    } else if eq_ignore_ascii_case(text, "downto") {
        Some(TokenKind::DownTo)
    } else if eq_ignore_ascii_case(text, "case") {
        Some(TokenKind::Case)
    } else if eq_ignore_ascii_case(text, "of") {
        Some(TokenKind::Of)
    } else if eq_ignore_ascii_case(text, "record") {
        Some(TokenKind::Record)
    } else if eq_ignore_ascii_case(text, "array") {
        Some(TokenKind::Array)
    } else if eq_ignore_ascii_case(text, "set") {
        Some(TokenKind::SetKw)
    } else if eq_ignore_ascii_case(text, "file") {
        Some(TokenKind::File)
    } else if eq_ignore_ascii_case(text, "packed") {
        Some(TokenKind::Packed)
    } else if eq_ignore_ascii_case(text, "label") {
        Some(TokenKind::Label)
    } else if eq_ignore_ascii_case(text, "goto") {
        Some(TokenKind::Goto)
    } else if eq_ignore_ascii_case(text, "with") {
        Some(TokenKind::With)
    } else if eq_ignore_ascii_case(text, "nil") {
        Some(TokenKind::Nil)
    } else if eq_ignore_ascii_case(text, "not") {
        Some(TokenKind::Not)
    } else if eq_ignore_ascii_case(text, "and") {
        Some(TokenKind::And)
    } else if eq_ignore_ascii_case(text, "or") {
        Some(TokenKind::Or)
    } else if eq_ignore_ascii_case(text, "div") {
        Some(TokenKind::Div)
    } else if eq_ignore_ascii_case(text, "mod") {
        Some(TokenKind::Mod)
    } else if eq_ignore_ascii_case(text, "in") {
        Some(TokenKind::In)
    } else if eq_ignore_ascii_case(text, "unit") {
        Some(TokenKind::Unit)
    } else if eq_ignore_ascii_case(text, "interface") {
        Some(TokenKind::Interface)
    } else if eq_ignore_ascii_case(text, "implementation") {
        Some(TokenKind::Implementation)
    } else if eq_ignore_ascii_case(text, "uses") {
        Some(TokenKind::Uses)
    } else if eq_ignore_ascii_case(text, "otherwise") {
        Some(TokenKind::Otherwise)
    } else {
        None
    }
}

} // verus!
