//! Word wrapping of the message.  Tabs are expanded to four spaces, the
//! text is wrapped to a maximum display width by an outside crate, and the
//! wrapped block is split into lines; an empty message yields a single
//! empty line.

use vstd::prelude::*;

use crate::convert::{chars_of, string_from_chars};
use crate::textops::{
    expand_tabs, lemma_split_char_min_len, replace_all_chars, split_char, split_char_chars,
    views_of,
};

verus! {

/// The text as textwrap lays it out: wrapped to at most `w` display
/// columns per line, greedily, with lines separated by a newline.
pub uninterp spec fn fill_of(s: Seq<char>, w: int) -> Seq<char>;

/// Relies on textwrap::fill: wraps the text to the given maximum width,
/// joining the wrapped lines with newlines.  Wrapping nothing yields
/// nothing.
#[verifier::external_body]
fn fill_text(s: &str, width: usize) -> (r: String)
    ensures
        r@ == fill_of(s@, width as int),
        s@.len() == 0 ==> r@.len() == 0,
{
    textwrap::fill(s, width)
}

/// A line as `str::lines` hands it out: without one trailing carriage
/// return.
pub open spec fn chop_cr(l: Seq<char>) -> Seq<char> {
    if l.len() > 0 && l[l.len() - 1] == '\r' {
        l.drop_last()
    } else {
        l
    }
}

/// The lines of `s`, as `str::lines` yields them: pieces between newline
/// characters, with no final empty piece after a trailing newline, each
/// without one trailing carriage return.
pub open spec fn lines_of(s: Seq<char>) -> Seq<Seq<char>> {
    let ps = split_char(s, '\n');
    let qs = if ps.len() >= 1 && ps[ps.len() - 1].len() == 0 {
        ps.drop_last()
    } else {
        ps
    };
    qs.map_values(|l: Seq<char>| chop_cr(l))
}

/// The wrapped lines the bubble is built from: expand tabs, wrap, split
/// into lines; an empty message, or an empty wrap result, becomes one
/// empty line.
pub open spec fn wrapped_lines(msg: Seq<char>, w: int) -> Seq<Seq<char>> {
    if msg.len() == 0 {
        seq![Seq::<char>::empty()]
    } else {
        let ls = lines_of(fill_of(expand_tabs(msg), w));
        if ls.len() == 0 {
            seq![Seq::<char>::empty()]
        } else {
            ls
        }
    }
}

/// Split a block of text into its lines, as `str::lines` would.
fn split_into_lines(v: &Vec<char>) -> (r: Vec<Vec<char>>)
    ensures
        views_of(r@) == lines_of(v@),
{
    let mut ps = split_char_chars(v, '\n');
    proof {
        lemma_split_char_min_len(v@, '\n');
    }
    let last_i: usize = ps.len() - 1;
    let ghost ps0 = views_of(ps@);
    if ps[last_i].len() == 0 {
        ps.pop();
        proof {
            assert(views_of(ps@) =~= ps0.drop_last());
        }
    }
    let ghost qs = views_of(ps@);
    let mut out: Vec<Vec<char>> = Vec::new();
    let n: usize = ps.len();
    let mut i: usize = 0;
    while i < n
        invariant
            n == ps@.len(),
            i <= n,
            qs == views_of(ps@),
            out@.len() == i,
            forall|k: int| 0 <= k < i ==> out@[k]@ == chop_cr(qs[k]),
        decreases n - i,
    {
        let mut piece: Vec<char> = Vec::new();
        crate::textops::push_all(&mut piece, &ps[i]);
        let m: usize = piece.len();
        if m > 0 && piece[m - 1] == '\r' {
            piece.pop();
            proof {
                assert(piece@ =~= qs[i as int].drop_last());
            }
        }
        out.push(piece);
        i += 1;
    }
    proof {
        assert(views_of(out@) =~= qs.map_values(|l: Seq<char>| chop_cr(l)));
    }
    out
}

/// Expand tabs, wrap to `width` columns, and split into lines; the result
/// always holds at least one line.
pub fn wrap_message(msg: &str, width: usize) -> (r: Vec<Vec<char>>)
    ensures
        views_of(r@) == wrapped_lines(msg@, width as int),
        r@.len() >= 1,
{
    let mv = chars_of(msg);
    let tab: Vec<char> = {
        let mut t: Vec<char> = Vec::new();
        t.push('\t');
        t
    };
    let four: Vec<char> = {
        let mut f: Vec<char> = Vec::new();
        f.push(' ');
        f.push(' ');
        f.push(' ');
        f.push(' ');
        f
    };
    let expanded = replace_all_chars(&mv, &tab, &four);
    proof {
        assert(tab@ =~= seq!['\t']);
        assert(four@ =~= seq![' ', ' ', ' ', ' ']);
    }
    let es = string_from_chars(&expanded);
    let filled = fill_text(es.as_str(), width);
    let fv = chars_of(filled.as_str());
    let mut lines = split_into_lines(&fv);
    if lines.len() == 0 {
        let empty_line: Vec<char> = Vec::new();
        lines.push(empty_line);
        proof {
            assert(views_of(lines@) =~= seq![Seq::<char>::empty()]);
        }
    }
    lines
}

} // verus!
