//! What holds of every tokenization.

use vstd::prelude::*;

use crate::lexer::chars::is_hex;
use crate::lexer::spec::{decimal_value, hex_digit_value, hex_value, lemma_scan_advances, lemma_trivia_end, lex_from, scan, trivia_end};
use crate::lexer::token::{keyword_tag, lower_text, TokenTag};

verus! {

/// A token scanned from the source is never `Eof`.
proof fn lemma_scan_is_not_eof(cs: Seq<char>, j: int)
    requires
        0 <= j < cs.len(),
    ensures
        scan(cs, j).kind matches Some(k) ==> k.tag != TokenTag::Eof,
{
}

/// The tokens of any source, read from any position: the last is `Eof`,
/// empty and at the end of the source, and no other token is `Eof`; every
/// other token covers at least one character; the tokens lie within the
/// source in order, none overlapping the next.
pub proof fn lemma_tokens_are_ordered_and_end_with_eof(cs: Seq<char>, i: int)
    requires
        0 <= i <= cs.len(),
    ensures
        ({
            let ts = lex_from(cs, i).0;
            &&& ts.len() >= 1
            &&& ts.last().kind.tag == TokenTag::Eof
            &&& ts.last().start == cs.len()
            &&& ts.last().end == cs.len()
            &&& forall|k: int| 0 <= k < ts.len() - 1 ==> (#[trigger] ts[k]).kind.tag != TokenTag::Eof && ts[k].start < ts[k].end
            &&& forall|k: int| 0 <= k < ts.len() ==> i <= (#[trigger] ts[k]).start <= ts[k].end <= cs.len()
            &&& forall|k: int, l: int| 0 <= k < l < ts.len() ==> (#[trigger] ts[k]).end <= (#[trigger] ts[l]).start
        }),
    decreases cs.len() - i,
{
    lemma_trivia_end(cs, i);
    let j = trivia_end(cs, i);
    if j < cs.len() {
        lemma_scan_advances(cs, j);
        lemma_scan_is_not_eof(cs, j);
        let s = scan(cs, j);
        lemma_tokens_are_ordered_and_end_with_eof(cs, s.end);
        let rest = lex_from(cs, s.end).0;
        let ts = lex_from(cs, i).0;
        if s.kind is Some {
            assert(ts == seq![ts[0]] + rest);
            assert forall|k: int| 0 <= k < ts.len() - 1 implies (#[trigger] ts[k]).kind.tag != TokenTag::Eof && ts[k].start < ts[k].end by {
                if k > 0 {
                    assert(ts[k] == rest[k - 1]);
                }
            }
            assert forall|k: int| 0 <= k < ts.len() implies i <= (#[trigger] ts[k]).start <= ts[k].end <= cs.len() by {
                if k > 0 {
                    assert(ts[k] == rest[k - 1]);
                }
            }
            assert forall|k: int, l: int| 0 <= k < l < ts.len() implies (#[trigger] ts[k]).end <= (#[trigger] ts[l]).start by {
                assert(ts[l] == rest[l - 1]);
                if k > 0 {
                    assert(ts[k] == rest[k - 1]);
                }
            }
        }
    }
}

/// Reserved words are recognised without regard to ASCII case: two
/// spellings that differ only in case are the same word, or both no word.
pub proof fn lemma_keywords_ignore_case(s1: Seq<char>, s2: Seq<char>)
    requires
        lower_text(s1) == lower_text(s2),
    ensures
        keyword_tag(s1) == keyword_tag(s2),
{
}


/// The hexadecimal digits, in either case, are worth their place in
/// `0123456789abcdef` (or `0123456789ABCDEF`): `a`/`A` is 10, `f`/`F` 15,
/// and a letter is worth the same in either case. Every hexadecimal digit
/// is one of them.
pub proof fn lemma_hex_digit_values(i: int, c: char)
    requires
        0 <= i < 16,
    ensures
        hex_digit_value("0123456789abcdef"@[i]) == i,
        hex_digit_value("0123456789ABCDEF"@[i]) == i,
        is_hex(c) ==> exists|j: int| 0 <= j < 16 && (c == "0123456789abcdef"@[j] || c == "0123456789ABCDEF"@[j]),
{
    reveal_strlit("0123456789abcdef");
    reveal_strlit("0123456789ABCDEF");
    if is_hex(c) {
        let j = if '0' <= c && c <= '9' {
            (c as u32 - '0' as u32) as int
        } else if 'a' <= c && c <= 'f' {
            (c as u32 - 'a' as u32 + 10) as int
        } else {
            (c as u32 - 'A' as u32 + 10) as int
        };
        assert(c == "0123456789abcdef"@[j] || c == "0123456789ABCDEF"@[j]);
    }
}

/// A run of hexadecimal digits is read as a base-16 numeral: one more
/// digit multiplies what came before by 16 and adds the digit's value.
pub proof fn lemma_hex_value_appends_a_digit(s: Seq<char>, i: int)
    requires
        0 <= i < 16,
    ensures
        hex_value(s.push("0123456789abcdef"@[i])) == hex_value(s) * 16 + i,
        hex_value(s.push("0123456789ABCDEF"@[i])) == hex_value(s) * 16 + i,
{
    lemma_hex_digit_values(i, 'x');
    assert(s.push("0123456789abcdef"@[i]).drop_last() =~= s);
    assert(s.push("0123456789ABCDEF"@[i]).drop_last() =~= s);
}


/// A run of decimal digits is read as a base-10 numeral: one more digit,
/// the `i`-th of `0123456789`, multiplies what came before by 10 and adds
/// `i`.
pub proof fn lemma_decimal_value_appends_a_digit(s: Seq<char>, i: int)
    requires
        0 <= i < 10,
    ensures
        decimal_value(s.push("0123456789"@[i])) == decimal_value(s) * 10 + i,
{
    reveal_strlit("0123456789");
    assert(s.push("0123456789"@[i]).drop_last() =~= s);
}

} // verus!
