//! Byte spans to lines, columns and the text of a line, for showing a
//! diagnostic against its source.

use vstd::prelude::*;

use crate::ast::Span;
use crate::lexer::chars::{byte_offset, lemma_byte_offset_monotone, utf8_len, utf8_width_of};
use crate::lexer::spec::{find_char, lemma_find_char};
use crate::strings::{chars_of, string_push};

verus! {

/// A 1-based line and column; the column counts characters.
#[derive(Debug, Clone, Copy, PartialEq, Eq, Structural)]
pub struct LineCol {
    pub line: usize,
    pub column: usize,
}

/// Where a span lies in its source.
#[derive(Debug, Clone, PartialEq, Eq)]
pub struct SourceLocation {
    pub start: LineCol,
    pub end: LineCol,
    /// The text of the start line, without its line break.
    pub line_text: String,
}

/// The 1-based line and column of the character at index `k`.
pub open spec fn line_col_at(cs: Seq<char>, k: int) -> (int, int)
    decreases k,
{
    if k <= 0 {
        (1, 1)
    } else {
        let (l, c) = line_col_at(cs, k - 1);
        if cs[k - 1] == '\n' {
            (l + 1, 1)
        } else {
            (l, c + 1)
        }
    }
}

/// Whether byte offset `b` falls between two characters (or at an end).
pub open spec fn is_char_boundary(cs: Seq<char>, b: int) -> bool {
    exists|k: int| 0 <= k <= cs.len() && byte_offset(cs, k) == b
}

/// A span's start, moved back to the end of the source if past it.
pub open spec fn clamped_start(cs: Seq<char>, span: Span) -> int {
    if span.start < utf8_len(cs) {
        span.start as int
    } else {
        utf8_len(cs) as int
    }
}

/// A span's end, moved back to the end of the source if past it, and
/// never before the clamped start.
pub open spec fn clamped_end(cs: Seq<char>, span: Span) -> int {
    let e = if span.end < utf8_len(cs) {
        span.end as int
    } else {
        utf8_len(cs) as int
    };
    if e < clamped_start(cs, span) {
        clamped_start(cs, span)
    } else {
        e
    }
}

/// The index of the first character of 0-based line `n`, if the text has
/// `n` line breaks.
pub open spec fn line_start(cs: Seq<char>, n: nat) -> Option<int>
    decreases n,
{
    if n == 0 {
        Some(0)
    } else {
        match line_start(cs, (n - 1) as nat) {
            Some(s) => {
                let e = find_char(cs, s, '\n');
                if e < cs.len() {
                    Some(e + 1)
                } else {
                    None
                }
            },
            None => None,
        }
    }
}

/// The text of 0-based line `n` without its line break (`\n`, or `\r\n`),
/// empty where the text has no such line; a line break at the very end
/// starts no further line.
pub open spec fn line_text(cs: Seq<char>, n: nat) -> Seq<char> {
    match line_start(cs, n) {
        Some(s) => if s < cs.len() {
            let e = find_char(cs, s, '\n');
            let t = cs.subrange(s, e);
            if e < cs.len() && t.len() > 0 && t.last() == '\r' {
                t.drop_last()
            } else {
                t
            }
        } else {
            Seq::empty()
        },
        None => Seq::empty(),
    }
}

proof fn lemma_line_start_bounds(cs: Seq<char>, n: nat)
    ensures
        line_start(cs, n) matches Some(s) ==> 0 <= s <= cs.len(),
    decreases n,
{
    if n > 0 {
        lemma_line_start_bounds(cs, (n - 1) as nat);
        if let Some(s) = line_start(cs, (n - 1) as nat) {
            lemma_find_char(cs, s, '\n');
        }
    }
}

/// The number of bytes of the text in UTF-8.
fn utf8_len_of(cs: &Vec<char>) -> (r: u128)
    ensures
        r == utf8_len(cs@),
{
    let mut b: u128 = 0;
    let mut i: usize = 0;
    while i < cs.len()
        invariant
            i <= cs.len(),
            b == byte_offset(cs@, i as int),
            b <= 4 * i,
        decreases cs.len() - i,
    {
        b = b + utf8_width_of(cs[i]) as u128;
        i = i + 1;
    }
    b
}

/// The index of the character that starts at byte `offset`.
fn char_index_of(cs: &Vec<char>, offset: u128) -> (r: usize)
    requires
        is_char_boundary(cs@, offset as int),
    ensures
        r <= cs.len(),
        byte_offset(cs@, r as int) == offset,
{
    let ghost k = choose|k: int| 0 <= k <= cs@.len() && byte_offset(cs@, k) == offset;
    let mut b: u128 = 0;
    let mut i: usize = 0;
    while b < offset
        invariant
            0 <= k <= cs@.len(),
            byte_offset(cs@, k) == offset,
            i <= k,
            b == byte_offset(cs@, i as int),
        decreases k - i,
    {
        proof {
            if i == k {
                assert(false);
            }
            assert(i < k);
            assert(k <= cs.len());
            lemma_byte_offset_monotone(cs@, i + 1, k);
        }
        b = b + utf8_width_of(cs[i]) as u128;
        i = i + 1;
    }
    proof {
        lemma_byte_offset_monotone(cs@, i as int, k);
    }
    i
}

/// The line and column of the character at index `k`.
fn line_col_of(cs: &Vec<char>, k: usize) -> (r: LineCol)
    requires
        k <= cs.len(),
        cs.len() < usize::MAX,
    ensures
        (r.line as int, r.column as int) == line_col_at(cs@, k as int),
{
    let mut line: usize = 1;
    let mut column: usize = 1;
    let mut i: usize = 0;
    while i < k
        invariant
            i <= k <= cs.len() < usize::MAX,
            (line as int, column as int) == line_col_at(cs@, i as int),
            1 <= line <= i + 1,
            1 <= column <= i + 1,
        decreases k - i,
    {
        if cs[i] == '\n' {
            line = line + 1;
            column = 1;
        } else {
            column = column + 1;
        }
        i = i + 1;
    }
    LineCol { line, column }
}

/// The index of the first `\n` at or after `i`, or the length.
fn find_newline(cs: &Vec<char>, i: usize) -> (r: usize)
    requires
        i <= cs.len(),
    ensures
        r == find_char(cs@, i as int, '\n'),
        i <= r <= cs.len(),
{
    proof {
        lemma_find_char(cs@, i as int, '\n');
    }
    let mut j = i;
    while j < cs.len() && cs[j] != '\n'
        invariant
            i <= j <= cs.len(),
            find_char(cs@, i as int, '\n') == find_char(cs@, j as int, '\n'),
        decreases cs.len() - j,
    {
        j = j + 1;
    }
    j
}

/// The text of 1-based line `line`.
fn line_text_for(cs: &Vec<char>, line: usize) -> (r: String)
    requires
        line >= 1,
    ensures
        r@ == line_text(cs@, (line - 1) as nat),
{
    let mut s: usize = 0;
    let mut n: usize = 0;
    while n < line - 1
        invariant
            n <= line - 1,
            line_start(cs@, n as nat) == Some(s as int),
            s <= cs.len(),
        decreases line - 1 - n,
    {
        let e = find_newline(cs, s);
        if e == cs.len() {
            proof {
                assert(line_start(cs@, (n + 1) as nat) is None);
                lemma_none_after(cs@, (n + 1) as nat, (line - 1) as nat);
            }
            return String::new();
        }
        s = e + 1;
        n = n + 1;
    }
    if s >= cs.len() {
        return String::new();
    }
    let e = find_newline(cs, s);
    let mut stop = e;
    if e < cs.len() && e > s && cs[e - 1] == '\r' {
        stop = e - 1;
    }
    let mut r = String::new();
    let mut i = s;
    while i < stop
        invariant
            s <= i <= stop <= e <= cs.len(),
            r@ == cs@.subrange(s as int, i as int),
        decreases stop - i,
    {
        string_push(&mut r, cs[i]);
        i = i + 1;
        proof {
            assert(r@ =~= cs@.subrange(s as int, i as int));
        }
    }
    proof {
        let t = cs@.subrange(s as int, e as int);
        if stop < e {
            assert(r@ =~= t.drop_last());
        } else {
            assert(r@ =~= t);
        }
    }
    r
}

/// Past a missing line, every later line is missing too.
proof fn lemma_none_after(cs: Seq<char>, m: nat, n: nat)
    requires
        m <= n,
        line_start(cs, m) is None,
    ensures
        line_start(cs, n) is None,
    decreases n - m,
{
    if m < n {
        lemma_none_after(cs, m, (n - 1) as nat);
    }
}

/// Where `span` lies in `source`: the line and column of its start and
/// end, and the text of its start line. A span past the end of the source
/// is moved back to the end.
pub fn locate(source: &str, span: Span) -> (r: SourceLocation)
    requires
        source@.len() < usize::MAX,
        is_char_boundary(source@, clamped_start(source@, span)),
        is_char_boundary(source@, clamped_end(source@, span)),
    ensures
        forall|k: int| 0 <= k <= source@.len() && byte_offset(source@, k) == clamped_start(source@, span)
            ==> (r.start.line as int, r.start.column as int) == line_col_at(source@, k),
        forall|k: int| 0 <= k <= source@.len() && byte_offset(source@, k) == clamped_end(source@, span)
            ==> (r.end.line as int, r.end.column as int) == line_col_at(source@, k),
        r.line_text@ == line_text(source@, (r.start.line - 1) as nat),
        r.start.line >= 1,
{
    let cs = chars_of(source);
    let len = utf8_len_of(&cs);
    let start: u128 = if (span.start as u128) < len {
        span.start as u128
    } else {
        len
    };
    let end_clamped: u128 = if (span.end as u128) < len {
        span.end as u128
    } else {
        len
    };
    let end = if end_clamped < start {
        start
    } else {
        end_clamped
    };
    let ks = char_index_of(&cs, start);
    let ke = char_index_of(&cs, end);
    let start_lc = line_col_of(&cs, ks);
    let end_lc = line_col_of(&cs, ke);
    proof {
        assert forall|k: int| 0 <= k <= source@.len() && byte_offset(source@, k) == clamped_start(source@, span)
            implies k == ks by {
            if k < ks {
                lemma_byte_offset_monotone(cs@, k, ks as int);
            } else if k > ks {
                lemma_byte_offset_monotone(cs@, ks as int, k);
            }
        }
        assert forall|k: int| 0 <= k <= source@.len() && byte_offset(source@, k) == clamped_end(source@, span)
            implies k == ke by {
            if k < ke {
                lemma_byte_offset_monotone(cs@, k, ke as int);
            } else if k > ke {
                lemma_byte_offset_monotone(cs@, ke as int, k);
            }
        }
        lemma_line_col_line_positive(cs@, ks as int);
    }
    let line_text = line_text_for(&cs, start_lc.line);
    SourceLocation { start: start_lc, end: end_lc, line_text }
}

proof fn lemma_line_col_line_positive(cs: Seq<char>, k: int)
    ensures
        line_col_at(cs, k).0 >= 1,
    decreases k,
{
    if k > 0 {
        lemma_line_col_line_positive(cs, k - 1);
    }
}

} // verus!
