//! How diagnostics name a token kind.

use vstd::prelude::*;

use crate::lexer::token::{keyword_tag, lower_text, KindModel, TokenKind, TokenTag};
use crate::strings::{decimal, push_decimal, push_str, string_push};

verus! {

/// The upper-case hexadecimal digit of `d` (`0 <= d < 16`).
pub open spec fn upper_hex_digit(d: nat) -> char {
    if d < 10 {
        ((48 + d) as u8) as char
    } else {
        ((55 + d) as u8) as char
    }
}

/// The upper-case hexadecimal digits of `n` without leading zeros.
pub open spec fn upper_hex(n: nat) -> Seq<char>
    decreases n,
{
    if n < 16 {
        seq![upper_hex_digit(n)]
    } else {
        upper_hex(n / 16).push(upper_hex_digit(n % 16))
    }
}

/// The unsigned 64-bit pattern of a value, as `{:X}` formats an `i64`.
pub open spec fn bits64(v: i64) -> nat {
    if v < 0 {
        (v + 18446744073709551616int) as nat
    } else {
        v as nat
    }
}

/// The words for a token kind in a diagnostic: the quoted symbol or
/// reserved word, or what the token holds.
pub open spec fn describe_text(k: KindModel) -> Seq<char> {
    match k.tag {
        TokenTag::Program => "'PROGRAM'"@,
        TokenTag::Begin => "'BEGIN'"@,
        TokenTag::End => "'END'"@,
        TokenTag::Var => "'VAR'"@,
        TokenTag::Const => "'CONST'"@,
        TokenTag::Type => "'TYPE'"@,
        TokenTag::Procedure => "'PROCEDURE'"@,
        TokenTag::Function => "'FUNCTION'"@,
        TokenTag::If => "'IF'"@,
        TokenTag::Then => "'THEN'"@,
        TokenTag::Else => "'ELSE'"@,
        TokenTag::While => "'WHILE'"@,
        TokenTag::Do => "'DO'"@,
        TokenTag::Repeat => "'REPEAT'"@,
        TokenTag::Until => "'UNTIL'"@,
        TokenTag::For => "'FOR'"@,
        TokenTag::To => "'TO'"@,
        TokenTag::DownTo => "'DOWNTO'"@,
        TokenTag::Case => "'CASE'"@,
        TokenTag::Of => "'OF'"@,
        TokenTag::Record => "'RECORD'"@,
        TokenTag::Array => "'ARRAY'"@,
        TokenTag::SetKw => "'SET'"@,
        TokenTag::File => "'FILE'"@,
        TokenTag::Packed => "'PACKED'"@,
        TokenTag::Label => "'LABEL'"@,
        TokenTag::Goto => "'GOTO'"@,
        TokenTag::With => "'WITH'"@,
        TokenTag::Nil => "'NIL'"@,
        TokenTag::Not => "'NOT'"@,
        TokenTag::And => "'AND'"@,
        TokenTag::Or => "'OR'"@,
        TokenTag::Div => "'DIV'"@,
        TokenTag::Mod => "'MOD'"@,
        TokenTag::In => "'IN'"@,
        TokenTag::Unit => "'UNIT'"@,
        TokenTag::Interface => "'INTERFACE'"@,
        TokenTag::Implementation => "'IMPLEMENTATION'"@,
        TokenTag::Uses => "'USES'"@,
        TokenTag::Otherwise => "'OTHERWISE'"@,
        TokenTag::Identifier => "identifier '"@ + k.text + "'"@,
        TokenTag::IntegerLiteral => "integer literal '"@ + decimal(k.value as int) + "'"@,
        TokenTag::HexIntegerLiteral => "hexadecimal literal '$"@ + upper_hex(bits64(k.value)) + "'"@,
        TokenTag::RealLiteral => "real literal '"@ + k.text + "'"@,
        TokenTag::StringLiteral => "string literal '"@ + k.text + "'"@,
        TokenTag::Assign => "':='"@,
        TokenTag::Le => "'<='"@,
        TokenTag::Ge => "'>='"@,
        TokenTag::Ne => "'<>'"@,
        TokenTag::DotDot => "'..'"@,
        TokenTag::Plus => "'+'"@,
        TokenTag::Minus => "'-'"@,
        TokenTag::Star => "'*'"@,
        TokenTag::Slash => "'/'"@,
        TokenTag::Eq => "'='"@,
        TokenTag::Lt => "'<'"@,
        TokenTag::Gt => "'>'"@,
        TokenTag::LParen => "'('"@,
        TokenTag::RParen => "')'"@,
        TokenTag::LBracket => "'['"@,
        TokenTag::RBracket => "']'"@,
        TokenTag::Dot => "'.'"@,
        TokenTag::Comma => "','"@,
        TokenTag::Semicolon => "';'"@,
        TokenTag::Colon => "':'"@,
        TokenTag::Caret => "'^'"@,
        TokenTag::CompilerDirective => "compiler directive '$"@ + k.text + "'"@,
        TokenTag::Eof => "end of input"@,
    }
}

fn push_upper_hex(s: &mut String, n: u64)
    ensures
        final(s)@ == old(s)@ + upper_hex(n as nat),
    decreases n,
{
    if n >= 16 {
        push_upper_hex(s, n / 16);
    }
    let d: u8 = (n % 16) as u8;
    let c = if d < 10 {
        (48u8 + d) as char
    } else {
        (55u8 + d) as char
    };
    string_push(s, c);
    proof {
        if n >= 16 {
            assert(upper_hex(n as nat) == upper_hex((n / 16) as nat).push(upper_hex_digit((n % 16) as nat)));
        }
    }
}

/// The words for a token kind in a diagnostic.
pub fn describe(kind: &TokenKind) -> (r: String)
    ensures
        r@ == describe_text(kind.model()),
{
    let fixed: &str = match kind {
        TokenKind::Program => "'PROGRAM'",
        TokenKind::Begin => "'BEGIN'",
        TokenKind::End => "'END'",
        TokenKind::Var => "'VAR'",
        TokenKind::Const => "'CONST'",
        TokenKind::Type => "'TYPE'",
        TokenKind::Procedure => "'PROCEDURE'",
        TokenKind::Function => "'FUNCTION'",
        TokenKind::If => "'IF'",
        TokenKind::Then => "'THEN'",
        TokenKind::Else => "'ELSE'",
        TokenKind::While => "'WHILE'",
        TokenKind::Do => "'DO'",
        TokenKind::Repeat => "'REPEAT'",
        TokenKind::Until => "'UNTIL'",
        TokenKind::For => "'FOR'",
        TokenKind::To => "'TO'",
        TokenKind::DownTo => "'DOWNTO'",
        TokenKind::Case => "'CASE'",
        TokenKind::Of => "'OF'",
        TokenKind::Record => "'RECORD'",
        TokenKind::Array => "'ARRAY'",
        TokenKind::SetKw => "'SET'",
        TokenKind::File => "'FILE'",
        TokenKind::Packed => "'PACKED'",
        TokenKind::Label => "'LABEL'",
        TokenKind::Goto => "'GOTO'",
        TokenKind::With => "'WITH'",
        TokenKind::Nil => "'NIL'",
        TokenKind::Not => "'NOT'",
        TokenKind::And => "'AND'",
        TokenKind::Or => "'OR'",
        TokenKind::Div => "'DIV'",
        TokenKind::Mod => "'MOD'",
        TokenKind::In => "'IN'",
        TokenKind::Unit => "'UNIT'",
        TokenKind::Interface => "'INTERFACE'",
        TokenKind::Implementation => "'IMPLEMENTATION'",
        TokenKind::Uses => "'USES'",
        TokenKind::Otherwise => "'OTHERWISE'",
        TokenKind::Assign => "':='",
        TokenKind::Le => "'<='",
        TokenKind::Ge => "'>='",
        TokenKind::Ne => "'<>'",
        TokenKind::DotDot => "'..'",
        TokenKind::Plus => "'+'",
        TokenKind::Minus => "'-'",
        TokenKind::Star => "'*'",
        TokenKind::Slash => "'/'",
        TokenKind::Eq => "'='",
        TokenKind::Lt => "'<'",
        TokenKind::Gt => "'>'",
        TokenKind::LParen => "'('",
        TokenKind::RParen => "')'",
        TokenKind::LBracket => "'['",
        TokenKind::RBracket => "']'",
        TokenKind::Dot => "'.'",
        TokenKind::Comma => "','",
        TokenKind::Semicolon => "';'",
        TokenKind::Colon => "':'",
        TokenKind::Caret => "'^'",
        TokenKind::Eof => "end of input",
        TokenKind::Identifier(name) => {
            let mut s = "identifier '".to_owned();
            push_str(&mut s, name.as_str());
            push_str(&mut s, "'");
            return s;
        },
        TokenKind::IntegerLiteral(v) => {
            let mut s = "integer literal '".to_owned();
            push_decimal(&mut s, *v);
            push_str(&mut s, "'");
            return s;
        },
        TokenKind::HexIntegerLiteral(v) => {
            let mut s = "hexadecimal literal '$".to_owned();
            let bits: u64 = if *v < 0 {
                let w = (*v + 1) as i128 + 18446744073709551615i128;
                w as u64
            } else {
                *v as u64
            };
            push_upper_hex(&mut s, bits);
            push_str(&mut s, "'");
            return s;
        },
        TokenKind::RealLiteral(text) => {
            let mut s = "real literal '".to_owned();
            push_str(&mut s, text.as_str());
            push_str(&mut s, "'");
            return s;
        },
        TokenKind::StringLiteral(text) => {
            let mut s = "string literal '".to_owned();
            push_str(&mut s, text.as_str());
            push_str(&mut s, "'");
            return s;
        },
        TokenKind::CompilerDirective { name, .. } => {
            let mut s = "compiler directive '$".to_owned();
            push_str(&mut s, name.as_str());
            push_str(&mut s, "'");
            return s;
        },
    };
    fixed.to_owned()
}

/// The ASCII upper-case form of a character.
pub open spec fn ascii_upper(c: char) -> char {
    if 'a' <= c && c <= 'z' {
        ((c as u32) - 32) as char
    } else {
        c
    }
}

/// `text` in ASCII upper case, between single quotes.
pub open spec fn quoted_upper(text: Seq<char>) -> Seq<char> {
    "'"@ + text.map_values(|c: char| ascii_upper(c)) + "'"@
}

/// A reserved word, however it is spelled, is described as its spelling
/// in upper case between single quotes.
#[verifier::rlimit(100)]
pub proof fn lemma_reserved_words_described_in_upper_case(s: Seq<char>)
    requires
        keyword_tag(s) is Some,
    ensures
        describe_text(KindModel::bare(keyword_tag(s)->0)) == quoted_upper(lower_text(s)),
{
    let l = lower_text(s);
    if l == "program"@ {
        assert(quoted_upper(l) =~= "'PROGRAM'"@) by {
            reveal_strlit("program");
            reveal_strlit("'PROGRAM'");
            reveal_strlit("'");
        }
    }
    else if l == "begin"@ {
        assert(quoted_upper(l) =~= "'BEGIN'"@) by {
            reveal_strlit("begin");
            reveal_strlit("'BEGIN'");
            reveal_strlit("'");
        }
    }
    else if l == "end"@ {
        assert(quoted_upper(l) =~= "'END'"@) by {
            reveal_strlit("end");
            reveal_strlit("'END'");
            reveal_strlit("'");
        }
    }
    else if l == "var"@ {
        assert(quoted_upper(l) =~= "'VAR'"@) by {
            reveal_strlit("var");
            reveal_strlit("'VAR'");
            reveal_strlit("'");
        }
    }
    else if l == "const"@ {
        assert(quoted_upper(l) =~= "'CONST'"@) by {
            reveal_strlit("const");
            reveal_strlit("'CONST'");
            reveal_strlit("'");
        }
    }
    else if l == "type"@ {
        assert(quoted_upper(l) =~= "'TYPE'"@) by {
            reveal_strlit("type");
            reveal_strlit("'TYPE'");
            reveal_strlit("'");
        }
    }
    else if l == "procedure"@ {
        assert(quoted_upper(l) =~= "'PROCEDURE'"@) by {
            reveal_strlit("procedure");
            reveal_strlit("'PROCEDURE'");
            reveal_strlit("'");
        }
    }
    else if l == "function"@ {
        assert(quoted_upper(l) =~= "'FUNCTION'"@) by {
            reveal_strlit("function");
            reveal_strlit("'FUNCTION'");
            reveal_strlit("'");
        }
    }
    else if l == "if"@ {
        assert(quoted_upper(l) =~= "'IF'"@) by {
            reveal_strlit("if");
            reveal_strlit("'IF'");
            reveal_strlit("'");
        }
    }
    else if l == "then"@ {
        assert(quoted_upper(l) =~= "'THEN'"@) by {
            reveal_strlit("then");
            reveal_strlit("'THEN'");
            reveal_strlit("'");
        }
    }
    else if l == "else"@ {
        assert(quoted_upper(l) =~= "'ELSE'"@) by {
            reveal_strlit("else");
            reveal_strlit("'ELSE'");
            reveal_strlit("'");
        }
    }
    else if l == "while"@ {
        assert(quoted_upper(l) =~= "'WHILE'"@) by {
            reveal_strlit("while");
            reveal_strlit("'WHILE'");
            reveal_strlit("'");
        }
    }
    else if l == "do"@ {
        assert(quoted_upper(l) =~= "'DO'"@) by {
            reveal_strlit("do");
            reveal_strlit("'DO'");
            reveal_strlit("'");
        }
    }
    else if l == "repeat"@ {
        assert(quoted_upper(l) =~= "'REPEAT'"@) by {
            reveal_strlit("repeat");
            reveal_strlit("'REPEAT'");
            reveal_strlit("'");
        }
    }
    else if l == "until"@ {
        assert(quoted_upper(l) =~= "'UNTIL'"@) by {
            reveal_strlit("until");
            reveal_strlit("'UNTIL'");
            reveal_strlit("'");
        }
    }
    else if l == "for"@ {
        assert(quoted_upper(l) =~= "'FOR'"@) by {
            reveal_strlit("for");
            reveal_strlit("'FOR'");
            reveal_strlit("'");
        }
    }
    else if l == "to"@ {
        assert(quoted_upper(l) =~= "'TO'"@) by {
            reveal_strlit("to");
            reveal_strlit("'TO'");
            reveal_strlit("'");
        }
    }
    else if l == "downto"@ {
        assert(quoted_upper(l) =~= "'DOWNTO'"@) by {
            reveal_strlit("downto");
            reveal_strlit("'DOWNTO'");
            reveal_strlit("'");
        }
    }
    else if l == "case"@ {
        assert(quoted_upper(l) =~= "'CASE'"@) by {
            reveal_strlit("case");
            reveal_strlit("'CASE'");
            reveal_strlit("'");
        }
    }
    else if l == "of"@ {
        assert(quoted_upper(l) =~= "'OF'"@) by {
            reveal_strlit("of");
            reveal_strlit("'OF'");
            reveal_strlit("'");
        }
    }
    else if l == "record"@ {
        assert(quoted_upper(l) =~= "'RECORD'"@) by {
            reveal_strlit("record");
            reveal_strlit("'RECORD'");
            reveal_strlit("'");
        }
    }
    else if l == "array"@ {
        assert(quoted_upper(l) =~= "'ARRAY'"@) by {
            reveal_strlit("array");
            reveal_strlit("'ARRAY'");
            reveal_strlit("'");
        }
    }
    else if l == "set"@ {
        assert(quoted_upper(l) =~= "'SET'"@) by {
            reveal_strlit("set");
            reveal_strlit("'SET'");
            reveal_strlit("'");
        }
    }
    else if l == "file"@ {
        assert(quoted_upper(l) =~= "'FILE'"@) by {
            reveal_strlit("file");
            reveal_strlit("'FILE'");
            reveal_strlit("'");
        }
    }
    else if l == "packed"@ {
        assert(quoted_upper(l) =~= "'PACKED'"@) by {
            reveal_strlit("packed");
            reveal_strlit("'PACKED'");
            reveal_strlit("'");
        }
    }
    else if l == "label"@ {
        assert(quoted_upper(l) =~= "'LABEL'"@) by {
            reveal_strlit("label");
            reveal_strlit("'LABEL'");
            reveal_strlit("'");
        }
    }
    else if l == "goto"@ {
        assert(quoted_upper(l) =~= "'GOTO'"@) by {
            reveal_strlit("goto");
            reveal_strlit("'GOTO'");
            reveal_strlit("'");
        }
    }
    else if l == "with"@ {
        assert(quoted_upper(l) =~= "'WITH'"@) by {
            reveal_strlit("with");
            reveal_strlit("'WITH'");
            reveal_strlit("'");
        }
    }
    else if l == "nil"@ {
        assert(quoted_upper(l) =~= "'NIL'"@) by {
            reveal_strlit("nil");
            reveal_strlit("'NIL'");
            reveal_strlit("'");
        }
    }
    else if l == "not"@ {
        assert(quoted_upper(l) =~= "'NOT'"@) by {
            reveal_strlit("not");
            reveal_strlit("'NOT'");
            reveal_strlit("'");
        }
    }
    else if l == "and"@ {
        assert(quoted_upper(l) =~= "'AND'"@) by {
            reveal_strlit("and");
            reveal_strlit("'AND'");
            reveal_strlit("'");
        }
    }
    else if l == "or"@ {
        assert(quoted_upper(l) =~= "'OR'"@) by {
            reveal_strlit("or");
            reveal_strlit("'OR'");
            reveal_strlit("'");
        }
    }
    else if l == "div"@ {
        assert(quoted_upper(l) =~= "'DIV'"@) by {
            reveal_strlit("div");
            reveal_strlit("'DIV'");
            reveal_strlit("'");
        }
    }
    else if l == "mod"@ {
        assert(quoted_upper(l) =~= "'MOD'"@) by {
            reveal_strlit("mod");
            reveal_strlit("'MOD'");
            reveal_strlit("'");
        }
    }
    else if l == "in"@ {
        assert(quoted_upper(l) =~= "'IN'"@) by {
            reveal_strlit("in");
            reveal_strlit("'IN'");
            reveal_strlit("'");
        }
    }
    else if l == "unit"@ {
        assert(quoted_upper(l) =~= "'UNIT'"@) by {
            reveal_strlit("unit");
            reveal_strlit("'UNIT'");
            reveal_strlit("'");
        }
    }
    else if l == "interface"@ {
        assert(quoted_upper(l) =~= "'INTERFACE'"@) by {
            reveal_strlit("interface");
            reveal_strlit("'INTERFACE'");
            reveal_strlit("'");
        }
    }
    else if l == "implementation"@ {
        assert(quoted_upper(l) =~= "'IMPLEMENTATION'"@) by {
            reveal_strlit("implementation");
            reveal_strlit("'IMPLEMENTATION'");
            reveal_strlit("'");
        }
    }
    else if l == "uses"@ {
        assert(quoted_upper(l) =~= "'USES'"@) by {
            reveal_strlit("uses");
            reveal_strlit("'USES'");
            reveal_strlit("'");
        }
    }
    else if l == "otherwise"@ {
        assert(quoted_upper(l) =~= "'OTHERWISE'"@) by {
            reveal_strlit("otherwise");
            reveal_strlit("'OTHERWISE'");
            reveal_strlit("'");
        }
    }
}

} // verus!
