//! Speech and thought bubbles: a message is wrapped to a maximum width and
//! drawn inside a box of border glyphs.  The central property is that the
//! box is rectangular in display columns: every interior row pads its line
//! with spaces so that the line's visual width plus the padding equals the
//! widest line's visual width, however many escape sequences or wide
//! characters the lines hold.

use vstd::prelude::*;

use crate::convert::string_from_chars;
use crate::errors::CharaError;
use crate::width::{
    lemma_max_visual_width_ge, lemma_max_visual_width_push, line_visual_width, max_visual_width,
    visual_width,
};
use crate::wraptext::{wrap_message, wrapped_lines};

verus! {

/// The shapes a bubble can take.
#[derive(Debug, Clone, Copy, PartialEq, Eq, Structural)]
pub enum BubbleType {
    Think,
    Round,
    Cowsay,
    Ascii,
    Unicode,
}

/// The glyph table of one bubble style, as character sequences; the spec
/// mirror of `SpeechBubble`.
pub struct BubbleGlyphs {
    pub corner_top_left: Seq<char>,
    pub top: Seq<char>,
    pub corner_top_right: Seq<char>,
    pub top_right: Seq<char>,
    pub right: Seq<char>,
    pub bottom_right: Seq<char>,
    pub corner_bottom_right: Seq<char>,
    pub bottom: Seq<char>,
    pub corner_bottom_left: Seq<char>,
    pub bottom_left: Seq<char>,
    pub left: Seq<char>,
    pub top_left: Seq<char>,
    pub short_left: Seq<char>,
    pub short_right: Seq<char>,
}

/// A bubble style: fourteen border glyph strings.
#[derive(Debug, Clone, Copy)]
pub struct SpeechBubble {
    pub corner_top_left: &'static str,
    pub top: &'static str,
    pub corner_top_right: &'static str,
    pub top_right: &'static str,
    pub right: &'static str,
    pub bottom_right: &'static str,
    pub corner_bottom_right: &'static str,
    pub bottom: &'static str,
    pub corner_bottom_left: &'static str,
    pub bottom_left: &'static str,
    pub left: &'static str,
    pub top_left: &'static str,
    pub short_left: &'static str,
    pub short_right: &'static str,
}

/// The glyph table of the style chosen by `bt`.
pub open spec fn style_glyphs(bt: BubbleType) -> BubbleGlyphs {
    match bt {
        BubbleType::Think => (BubbleGlyphs {
            corner_top_left: "("@,
            top: "\u{2040}"@,
            corner_top_right: ")\n"@,
            top_right: "  )\n"@,
            right: "  )\n"@,
            bottom_right: "  )\n"@,
            corner_bottom_right: ")\n"@,
            bottom: "\u{203f}"@,
            corner_bottom_left: "("@,
            bottom_left: "(  "@,
            left: "(  "@,
            top_left: "(  "@,
            short_left: "(  "@,
            short_right: "  )\n"@,
        }),
        BubbleType::Round => (BubbleGlyphs {
            corner_top_left: "\u{256d}"@,
            top: "\u{2500}"@,
            corner_top_right: "\u{256e}\n"@,
            top_right: "  \u{2502}\n"@,
            right: "  \u{2502}\n"@,
            bottom_right: "  \u{2502}\n"@,
            corner_bottom_right: "\u{256f}\n"@,
            bottom: "\u{2500}"@,
            corner_bottom_left: "\u{2570}"@,
            bottom_left: "\u{2502}  "@,
            left: "\u{2502}  "@,
            top_left: "\u{2502}  "@,
            short_left: "\u{2502}  "@,
            short_right: "  \u{2502}\n"@,
        }),
        BubbleType::Cowsay => (BubbleGlyphs {
            corner_top_left: " "@,
            top: "_"@,
            corner_top_right: " \n"@,
            top_right: "  \\\n"@,
            right: "  |\n"@,
            bottom_right: "  /\n"@,
            corner_bottom_right: " \n"@,
            bottom: "-"@,
            corner_bottom_left: " "@,
            bottom_left: "\\  "@,
            left: "|  "@,
            top_left: "/  "@,
            short_left: "<  "@,
            short_right: "  >\n"@,
        }),
        BubbleType::Ascii => (BubbleGlyphs {
            corner_top_left: " "@,
            top: "_"@,
            corner_top_right: " \n"@,
            top_right: "  \\\n"@,
            right: "  |\n"@,
            bottom_right: "  |\n"@,
            corner_bottom_right: "/\n"@,
            bottom: "_"@,
            corner_bottom_left: "\\"@,
            bottom_left: "|  "@,
            left: "|  "@,
            top_left: "/  "@,
            short_left: "/  "@,
            short_right: "  \\\n"@,
        }),
        BubbleType::Unicode => (BubbleGlyphs {
            corner_top_left: "\u{250c}"@,
            top: "\u{2500}"@,
            corner_top_right: "\u{2510}\n"@,
            top_right: "  \u{2502}\n"@,
            right: "  \u{2502}\n"@,
            bottom_right: "  \u{2502}\n"@,
            corner_bottom_right: "\u{2518}\n"@,
            bottom: "\u{2500}"@,
            corner_bottom_left: "\u{2514}"@,
            bottom_left: "\u{2502}  "@,
            left: "\u{2502}  "@,
            top_left: "\u{2502}  "@,
            short_left: "\u{2502}  "@,
            short_right: "  \u{2502}\n"@,
        }),
    }
}

/// `n` spaces.
pub open spec fn spaces(n: nat) -> Seq<char> {
    Seq::new(n, |i: int| ' ')
}

/// `s` repeated `n` times.
pub open spec fn repeat_seq(s: Seq<char>, n: nat) -> Seq<char>
    decreases n,
{
    if n == 0 {
        Seq::empty()
    } else {
        repeat_seq(s, (n - 1) as nat) + s
    }
}

/// The left border glyph of row `i` of `n`: a lone row gets the short
/// glyph, the first and last rows their own, the rest the plain one.
pub open spec fn left_glyph(g: BubbleGlyphs, n: int, i: int) -> Seq<char> {
    if n == 1 {
        g.short_left
    } else if i == 0 {
        g.top_left
    } else if i == n - 1 {
        g.bottom_left
    } else {
        g.left
    }
}

/// The right border glyph of row `i` of `n`.
pub open spec fn right_glyph(g: BubbleGlyphs, n: int, i: int) -> Seq<char> {
    if n == 1 {
        g.short_right
    } else if i == 0 {
        g.top_right
    } else if i == n - 1 {
        g.bottom_right
    } else {
        g.right
    }
}

/// The padding of row `i`: spaces completing the line's visual width to
/// the widest line's.
pub open spec fn pad_of(lines: Seq<Seq<char>>, i: int) -> int {
    max_visual_width(lines) - visual_width(lines[i])
}

/// Row `i` of the bubble: left glyph, the line, its padding, right glyph.
pub open spec fn row_of(g: BubbleGlyphs, lines: Seq<Seq<char>>, i: int) -> Seq<char> {
    left_glyph(g, lines.len() as int, i) + lines[i] + spaces(pad_of(lines, i) as nat)
        + right_glyph(g, lines.len() as int, i)
}

/// The first `k` rows of the bubble, concatenated.
pub open spec fn rows_upto(g: BubbleGlyphs, lines: Seq<Seq<char>>, k: int) -> Seq<char>
    decreases k,
{
    if k <= 0 {
        Seq::empty()
    } else {
        rows_upto(g, lines, k - 1) + row_of(g, lines, k - 1)
    }
}

/// The top border: corner, the top glyph over the whole interior, corner.
pub open spec fn top_border(g: BubbleGlyphs, aw: nat) -> Seq<char> {
    g.corner_top_left + repeat_seq(g.top, (aw + 4) as nat) + g.corner_top_right
}

/// The bottom border.
pub open spec fn bottom_border(g: BubbleGlyphs, aw: nat) -> Seq<char> {
    g.corner_bottom_left + repeat_seq(g.bottom, (aw + 4) as nat) + g.corner_bottom_right
}

/// The whole bubble drawn around `msg` wrapped to `w` columns: top border,
/// one row per wrapped line, bottom border.
pub open spec fn bubble_of(msg: Seq<char>, w: int, g: BubbleGlyphs) -> Seq<char> {
    let lines = wrapped_lines(msg, w);
    let aw = max_visual_width(lines);
    top_border(g, aw) + rows_upto(g, lines, lines.len() as int) + bottom_border(g, aw)
}

/// Padding is made of spaces, and every space is one column wide.
pub proof fn lemma_spaces_width(n: nat)
    ensures
        crate::width::seq_width(spaces(n)) == n,
    decreases n,
{
    if n > 0 {
        assert(spaces(n)[0] == ' ');
        assert(spaces(n).skip(1) =~= spaces((n - 1) as nat));
        lemma_spaces_width((n - 1) as nat);
    }
}

/// Width invariant: for any message and any width of at least one column,
/// the bubble holds at least one row, and every interior row has the same
/// display width: the row is its wrapped line followed by its padding
/// spaces, and the line's visual width plus the padding's width equals the
/// bubble's actual width, the maximum visual width over all wrapped lines.
pub proof fn lemma_width_invariant(msg: Seq<char>, w: int)
    requires
        w >= 1,
    ensures
        wrapped_lines(msg, w).len() >= 1,
        forall|i: int|
            0 <= i < wrapped_lines(msg, w).len() ==> visual_width(#[trigger] wrapped_lines(msg, w)[i])
                + crate::width::seq_width(spaces(pad_of(wrapped_lines(msg, w), i) as nat))
                == max_visual_width(wrapped_lines(msg, w)),
{
    let lines = wrapped_lines(msg, w);
    assert forall|i: int| 0 <= i < lines.len() implies visual_width(#[trigger] lines[i])
        + crate::width::seq_width(spaces(pad_of(lines, i) as nat)) == max_visual_width(lines) by {
        lemma_max_visual_width_ge(lines, i);
        lemma_spaces_width(pad_of(lines, i) as nat);
    }
}

/// Empty message: the bubble is a one-line box of actual width zero,
/// bounded only by corner and edge glyphs, with no interior spaces.
pub proof fn lemma_empty_message(w: int, g: BubbleGlyphs)
    ensures
        wrapped_lines(Seq::<char>::empty(), w) == seq![Seq::<char>::empty()],
        max_visual_width(wrapped_lines(Seq::<char>::empty(), w)) == 0,
        bubble_of(Seq::<char>::empty(), w, g) == g.corner_top_left + repeat_seq(g.top, 4)
            + g.corner_top_right + g.short_left + g.short_right + g.corner_bottom_left
            + repeat_seq(g.bottom, 4) + g.corner_bottom_right,
{
    let lines = wrapped_lines(Seq::<char>::empty(), w);
    assert(lines =~= seq![Seq::<char>::empty()]);
    assert(max_visual_width(lines.skip(1)) == 0) by {
        assert(lines.skip(1) =~= Seq::<Seq<char>>::empty());
    }
    assert(max_visual_width(lines) == 0);
    assert(rows_upto(g, lines, 1) == rows_upto(g, lines, 0) + row_of(g, lines, 0));
    assert(row_of(g, lines, 0) =~= g.short_left + g.short_right) by {
        assert(spaces(0) =~= Seq::<char>::empty());
        assert(left_glyph(g, 1, 0) == g.short_left);
        assert(right_glyph(g, 1, 0) == g.short_right);
        assert(g.short_left + Seq::<char>::empty() + Seq::<char>::empty() + g.short_right
            =~= g.short_left + g.short_right);
    }
    assert(bubble_of(Seq::<char>::empty(), w, g) =~= g.corner_top_left + repeat_seq(g.top, 4)
        + g.corner_top_right + g.short_left + g.short_right + g.corner_bottom_left + repeat_seq(
        g.bottom,
        4,
    ) + g.corner_bottom_right);
}

impl SpeechBubble {
    /// The spec view of this style's glyph table.
    pub open spec fn glyphs(self) -> BubbleGlyphs {
        BubbleGlyphs {
            corner_top_left: self.corner_top_left@,
            top: self.top@,
            corner_top_right: self.corner_top_right@,
            top_right: self.top_right@,
            right: self.right@,
            bottom_right: self.bottom_right@,
            corner_bottom_right: self.corner_bottom_right@,
            bottom: self.bottom@,
            corner_bottom_left: self.corner_bottom_left@,
            bottom_left: self.bottom_left@,
            left: self.left@,
            top_left: self.top_left@,
            short_left: self.short_left@,
            short_right: self.short_right@,
        }
    }

    /// The glyph table of the requested style.
    pub fn new(bubble_type: BubbleType) -> (r: Self)
        ensures
            r.glyphs() == style_glyphs(bubble_type),
    {
        match bubble_type {
            BubbleType::Think => SpeechBubble {
                corner_top_left: "(",
                top: "\u{2040}",
                corner_top_right: ")\n",
                top_right: "  )\n",
                right: "  )\n",
                bottom_right: "  )\n",
                corner_bottom_right: ")\n",
                bottom: "\u{203f}",
                corner_bottom_left: "(",
                bottom_left: "(  ",
                left: "(  ",
                top_left: "(  ",
                short_left: "(  ",
                short_right: "  )\n",
            },
            BubbleType::Round => SpeechBubble {
                corner_top_left: "\u{256d}",
                top: "\u{2500}",
                corner_top_right: "\u{256e}\n",
                top_right: "  \u{2502}\n",
                right: "  \u{2502}\n",
                bottom_right: "  \u{2502}\n",
                corner_bottom_right: "\u{256f}\n",
                bottom: "\u{2500}",
                corner_bottom_left: "\u{2570}",
                bottom_left: "\u{2502}  ",
                left: "\u{2502}  ",
                top_left: "\u{2502}  ",
                short_left: "\u{2502}  ",
                short_right: "  \u{2502}\n",
            },
            BubbleType::Cowsay => SpeechBubble {
                corner_top_left: " ",
                top: "_",
                corner_top_right: " \n",
                top_right: "  \\\n",
                right: "  |\n",
                bottom_right: "  /\n",
                corner_bottom_right: " \n",
                bottom: "-",
                corner_bottom_left: " ",
                bottom_left: "\\  ",
                left: "|  ",
                top_left: "/  ",
                short_left: "<  ",
                short_right: "  >\n",
            },
            BubbleType::Ascii => SpeechBubble {
                corner_top_left: " ",
                top: "_",
                corner_top_right: " \n",
                top_right: "  \\\n",
                right: "  |\n",
                bottom_right: "  |\n",
                corner_bottom_right: "/\n",
                bottom: "_",
                corner_bottom_left: "\\",
                bottom_left: "|  ",
                left: "|  ",
                top_left: "/  ",
                short_left: "/  ",
                short_right: "  \\\n",
            },
            BubbleType::Unicode => SpeechBubble {
                corner_top_left: "\u{250c}",
                top: "\u{2500}",
                corner_top_right: "\u{2510}\n",
                top_right: "  \u{2502}\n",
                right: "  \u{2502}\n",
                bottom_right: "  \u{2502}\n",
                corner_bottom_right: "\u{2518}\n",
                bottom: "\u{2500}",
                corner_bottom_left: "\u{2514}",
                bottom_left: "\u{2502}  ",
                left: "\u{2502}  ",
                top_left: "\u{2502}  ",
                short_left: "\u{2502}  ",
                short_right: "  \u{2502}\n",
            },
        }
    }

    /// The visual width, in columns, of one already-wrapped line.
    pub fn line_len(line: &Vec<char>) -> (r: u128)
        ensures
            r == visual_width(line@),
    {
        line_visual_width(line)
    }

    /// The greatest visual width among the lines.
    pub fn longest_line(lines: &Vec<Vec<char>>) -> (r: u128)
        ensures
            r == max_visual_width(crate::textops::views_of(lines@)),
            r <= 3 * (usize::MAX as int),
    {
        let ghost lv = crate::textops::views_of(lines@);
        let n: usize = lines.len();
        let mut aw: u128 = 0;
        let mut i: usize = 0;
        proof {
            assert(lv.subrange(0, 0) =~= Seq::<Seq<char>>::empty());
        }
        while i < n
            invariant
                n == lines@.len(),
                i <= n,
                lv == crate::textops::views_of(lines@),
                aw == max_visual_width(lv.subrange(0, i as int)),
                aw <= 3 * (usize::MAX as int),
            decreases n - i,
        {
            let w = line_visual_width(&lines[i]);
            proof {
                lemma_max_visual_width_push(lv.subrange(0, i as int), lv[i as int]);
                assert(lv.subrange(0, i as int).push(lv[i as int]) =~= lv.subrange(0, i + 1));
            }
            if w > aw {
                aw = w;
            }
            i += 1;
        }
        proof {
            assert(lv.subrange(0, n as int) =~= lv);
        }
        aw
    }

    /// Draw the bubble around `messages`, wrapped to at most `max_width`
    /// display columns.
    pub fn create(self, messages: &str, max_width: &usize) -> (r: Result<String, CharaError>)
        ensures
            r matches Ok(s) && s@ == bubble_of(messages@, *max_width as int, self.glyphs()),
    {
        let ghost g = self.glyphs();
        let lines = wrap_message(messages, *max_width);
        let ghost lv = crate::textops::views_of(lines@);
        proof {
            assert(lv == wrapped_lines(messages@, *max_width as int));
        }
        let aw = Self::longest_line(&lines);
        let n: usize = lines.len();

        let mut out = String::new();
        proof {
            reveal_strlit(" ");
            assert(" "@ =~= seq![' ']);
        }

        // top border
        out.append(self.corner_top_left);
        proof {
            assert(Seq::<char>::empty() + g.corner_top_left =~= g.corner_top_left);
        }
        let mut k: u128 = 0;
        while k < aw + 4
            invariant
                aw + 4 < u128::MAX,
                k <= aw + 4,
                out@ == g.corner_top_left + repeat_seq(g.top, k as nat),
                g == self.glyphs(),
            decreases aw + 4 - k,
        {
            out.append(self.top);
            k += 1;
        }
        out.append(self.corner_top_right);
        proof {
            assert(out@ =~= top_border(g, max_visual_width(lv)));
        }
        let ghost top_part = top_border(g, max_visual_width(lv));

        // interior rows
        let mut i: usize = 0;
        while i < n
            invariant
                n == lines@.len(),
                n >= 1,
                i <= n,
                lv == crate::textops::views_of(lines@),
                aw == max_visual_width(lv),
                aw <= 3 * (usize::MAX as int),
                top_part == top_border(g, max_visual_width(lv)),
                out@ == top_part + rows_upto(g, lv, i as int),
                g == self.glyphs(),
            decreases n - i,
        {
            let left = if n == 1 {
                self.short_left
            } else if i == 0 {
                self.top_left
            } else if i == n - 1 {
                self.bottom_left
            } else {
                self.left
            };
            out.append(left);
            let line_str = string_from_chars(&lines[i]);
            out.append(line_str.as_str());

            let w = line_visual_width(&lines[i]);
            proof {
                lemma_max_visual_width_ge(lv, i as int);
            }
            let pad = aw - w;
            let ghost before_pad = out@;
            let mut j: u128 = 0;
            proof {
                assert(before_pad + spaces(0) =~= before_pad);
            }
            while j < pad
                invariant
                    j <= pad,
                    out@ == before_pad + spaces(j as nat),
                    g == self.glyphs(),
                decreases pad - j,
            {
                out.append(" ");
                proof {
                    reveal_strlit(" ");
                    assert(before_pad + spaces(j as nat) + " "@ =~= before_pad + spaces(
                        (j + 1) as nat,
                    ));
                }
                j += 1;
            }
            let right = if n == 1 {
                self.short_right
            } else if i == 0 {
                self.top_right
            } else if i == n - 1 {
                self.bottom_right
            } else {
                self.right
            };
            out.append(right);
            proof {
                assert(left@ == left_glyph(g, n as int, i as int));
                assert(right@ == right_glyph(g, n as int, i as int));
                assert(pad == pad_of(lv, i as int));
                assert(out@ =~= top_part + rows_upto(g, lv, i as int) + row_of(g, lv, i as int));
                assert(rows_upto(g, lv, i + 1) == rows_upto(g, lv, i as int) + row_of(
                    g,
                    lv,
                    i as int,
                ));
                assert(out@ =~= top_part + rows_upto(g, lv, i + 1));
            }
            i += 1;
        }

        // bottom border
        let ghost rows_part = rows_upto(g, lv, n as int);
        out.append(self.corner_bottom_left);
        let ghost before_bottom = top_part + rows_part + g.corner_bottom_left;
        proof {
            assert(out@ =~= before_bottom + repeat_seq(g.bottom, 0));
        }
        let mut k2: u128 = 0;
        while k2 < aw + 4
            invariant
                aw + 4 < u128::MAX,
                k2 <= aw + 4,
                out@ == before_bottom + repeat_seq(g.bottom, k2 as nat),
                g == self.glyphs(),
            decreases aw + 4 - k2,
        {
            out.append(self.bottom);
            k2 += 1;
        }
        out.append(self.corner_bottom_right);
        proof {
            assert(out@ =~= top_border(g, max_visual_width(lv)) + rows_upto(g, lv, lv.len() as int)
                + bottom_border(g, max_visual_width(lv)));
        }
        Ok(out)
    }
}

} // verus!
