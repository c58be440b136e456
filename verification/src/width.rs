//! Visual width of text in terminal columns.  A line's visual width ignores
//! ANSI escape sequences entirely and counts wide characters as two columns
//! and zero-width characters as none.  Escape-sequence removal and the width
//! of an individual character come from outside crates; summing the widths
//! of a line's characters is verified here.

use vstd::prelude::*;

use crate::convert::{chars_of, string_from_chars};

verus! {

/// The characters left when every ANSI escape sequence of `s` is removed.
pub uninterp spec fn ansi_stripped(s: Seq<char>) -> Seq<char>;

/// The displayed width in columns of one character.
pub uninterp spec fn char_col_width(c: char) -> nat;

/// Width in columns of one character: a space is one column; any other
/// character has the width the Unicode tables give it.
pub open spec fn col_width(c: char) -> nat {
    if c == ' ' {
        1
    } else {
        char_col_width(c)
    }
}

/// Sum of the column widths of the characters of `s`.
pub open spec fn seq_width(s: Seq<char>) -> nat
    decreases s.len(),
{
    if s.len() == 0 {
        0
    } else {
        col_width(s[0]) + seq_width(s.skip(1))
    }
}

/// The visual width of a line: widths of its characters summed after all
/// ANSI escape sequences are removed.  An empty line has no columns.
pub open spec fn visual_width(s: Seq<char>) -> nat {
    if s.len() == 0 {
        0
    } else {
        seq_width(ansi_stripped(s))
    }
}

/// The greatest visual width among the lines.
pub open spec fn max_visual_width(lines: Seq<Seq<char>>) -> nat
    decreases lines.len(),
{
    if lines.len() == 0 {
        0
    } else {
        let rest = max_visual_width(lines.skip(1));
        if visual_width(lines[0]) >= rest {
            visual_width(lines[0])
        } else {
            rest
        }
    }
}

pub proof fn lemma_seq_width_push(s: Seq<char>, c: char)
    ensures
        seq_width(s.push(c)) == seq_width(s) + col_width(c),
    decreases s.len(),
{
    if s.len() == 0 {
        assert(s.push(c)[0] == c);
        assert(s.push(c).skip(1) =~= Seq::<char>::empty());
        assert(seq_width(s.push(c)) == col_width(c) + seq_width(Seq::<char>::empty()));
    } else {
        assert(s.push(c)[0] == s[0]);
        assert(s.push(c).skip(1) =~= s.skip(1).push(c));
        lemma_seq_width_push(s.skip(1), c);
        assert(seq_width(s.push(c)) == col_width(s[0]) + seq_width(s.skip(1).push(c)));
    }
}

pub proof fn lemma_max_visual_width_push(lines: Seq<Seq<char>>, l: Seq<char>)
    ensures
        max_visual_width(lines.push(l)) == if visual_width(l) >= max_visual_width(lines) {
            visual_width(l)
        } else {
            max_visual_width(lines)
        },
    decreases lines.len(),
{
    if lines.len() == 0 {
        assert(lines.push(l)[0] == l);
        assert(lines.push(l).skip(1) =~= Seq::<Seq<char>>::empty());
        assert(max_visual_width(lines.push(l).skip(1)) == 0);
    } else {
        assert(lines.push(l)[0] == lines[0]);
        assert(lines.push(l).skip(1) =~= lines.skip(1).push(l));
        lemma_max_visual_width_push(lines.skip(1), l);
        assert(max_visual_width(lines.push(l).skip(1)) == max_visual_width(
            lines.skip(1).push(l),
        ));
    }
}

/// Every line's visual width is at most the maximum.
pub proof fn lemma_max_visual_width_ge(lines: Seq<Seq<char>>, i: int)
    requires
        0 <= i < lines.len(),
    ensures
        visual_width(lines[i]) <= max_visual_width(lines),
    decreases lines.len(),
{
    if i > 0 {
        assert(lines.skip(1)[i - 1] == lines[i]);
        lemma_max_visual_width_ge(lines.skip(1), i - 1);
    }
}

/// Relies on strip_ansi_escapes::strip_str: removes the ANSI escape
/// sequences from the string and returns the rest unchanged; on a valid
/// UTF-8 input it cannot fail.  Removing nothing leaves nothing, so an
/// empty string stays empty.
#[verifier::external_body]
fn strip_ansi(s: &str) -> (r: String)
    ensures
        r@ == ansi_stripped(s@),
        s@.len() == 0 ==> r@.len() == 0,
{
    strip_ansi_escapes::strip_str(s)
}

/// Relies on unicode_width::UnicodeWidthChar::width: the character's
/// displayed width in columns, between 0 and 3; control characters, for
/// which the crate returns no width, count as zero columns; a space is one
/// column.
#[verifier::external_body]
fn width_of_char(c: char) -> (r: usize)
    ensures
        r == char_col_width(c) || c == ' ',
        r == col_width(c),
        r <= 3,
{
    unicode_width::UnicodeWidthChar::width(c).unwrap_or(0)
}

/// Sum of the column widths of the characters in `v`.
fn chars_width(v: &Vec<char>) -> (r: u128)
    ensures
        r == seq_width(v@),
        r <= 3 * v@.len(),
{
    let n: usize = v.len();
    let mut acc: u128 = 0;
    let mut i: usize = 0;
    proof {
        assert(v@.subrange(0, 0) =~= Seq::<char>::empty());
    }
    while i < n
        invariant
            n == v@.len(),
            i <= n,
            acc == seq_width(v@.subrange(0, i as int)),
            acc <= 3 * i,
        decreases n - i,
    {
        let w = width_of_char(v[i]);
        proof {
            lemma_seq_width_push(v@.subrange(0, i as int), v@[i as int]);
            assert(v@.subrange(0, i as int).push(v@[i as int]) =~= v@.subrange(0, i + 1));
        }
        acc = acc + (w as u128);
        i += 1;
    }
    proof {
        assert(v@.subrange(0, n as int) =~= v@);
    }
    acc
}

/// The visual width of one line, as the bubble renderer sees it: strip the
/// ANSI escape sequences, then sum the remaining characters' widths.
pub fn line_visual_width(line: &Vec<char>) -> (r: u128)
    ensures
        r == visual_width(line@),
        r <= 3 * (usize::MAX as int),
{
    let s = string_from_chars(line);
    let stripped = strip_ansi(s.as_str());
    let sv = chars_of(stripped.as_str());
    let k: usize = sv.len();
    let r = chars_width(&sv);
    proof {
        assert(r <= 3 * (k as int));
    }
    r
}

} // verus!
