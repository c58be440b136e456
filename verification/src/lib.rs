//! Renders a named piece of character art together with a word-wrapped
//! message inside a decorative speech or thought bubble.  The raw template
//! is resolved through a read-only template store, parsed into its final
//! text, and stacked under the rendered bubble.

use vstd::prelude::*;

pub mod bubbles;
pub mod convert;
pub mod errors;
pub mod store;
pub mod template;
pub mod textops;
pub mod width;
pub mod wraptext;

pub use crate::template::strip_chara_string;

use crate::bubbles::{bubble_of, style_glyphs, BubbleType, SpeechBubble};
use crate::errors::CharaError;
use crate::store::{index_of_name, Template, TemplateStore};
use crate::template::parse_of;
use crate::textops::{join_with, push_all, views_of};

verus! {

/// Which template a render request draws on: every built-in, one built-in
/// by name, an externally supplied file by path, a raw in-memory body, or
/// a random built-in.
#[derive(Debug)]
pub enum Chara {
    All,
    Builtin(String),
    File(String),
    Raw(String),
    Random,
}

/// The voice token a bubble style inserts at the template's voice marker:
/// thinking styles use a small circle, speaking styles a backslash that
/// matches their glyph set.
pub open spec fn voice_of(bt: BubbleType) -> Seq<char> {
    match bt {
        BubbleType::Think => seq!['o', ' '],
        BubbleType::Round => seq!['\u{2572}', ' '],
        BubbleType::Cowsay => seq!['\\', ' '],
        BubbleType::Ascii => seq!['\\', ' '],
        BubbleType::Unicode => seq!['\u{2572}', ' '],
    }
}

/// The voice token of character-only rendering: two plain spaces.
pub open spec fn neutral_voice() -> Seq<char> {
    seq![' ', ' ']
}

/// One catalog entry as the all-builtins listing shows it: a banner line
/// with the entry's name, then its body.
pub open spec fn all_entry(name: Seq<char>, body: Seq<char>) -> Seq<char> {
    name + seq![' ', '\u{1f447}', '\n'] + body
}

/// The raw text the all-builtins selector resolves to: every entry under
/// its banner, the entries separated by `+`-only lines so that each is
/// parsed as its own sub-template.
pub open spec fn all_raw(store: TemplateStore) -> Seq<char> {
    join_with(
        Seq::new(
            store.builtin_names().len(),
            |i: int| all_entry(store.builtin_names()[i], store.builtin_bodies()[i]),
        ),
        seq!['\n', '+', '\n'],
    )
}

/// One entry of the all-builtins rendering: the banner line, the bubble,
/// the entry's parsed character.
pub open spec fn all_block(
    name: Seq<char>,
    body: Seq<char>,
    msg: Seq<char>,
    w: int,
    bt: BubbleType,
) -> Seq<char> {
    name + seq![' ', '\u{1f447}', '\n'] + bubble_of(msg, w, style_glyphs(bt)) + parse_of(
        body,
        voice_of(bt),
    )
}

/// The all-builtins rendering: every entry's banner and fully rendered
/// bubble-and-character block, in catalog order, a blank line between
/// entries.
pub open spec fn all_rendered(
    store: TemplateStore,
    msg: Seq<char>,
    w: int,
    bt: BubbleType,
) -> Seq<char> {
    join_with(
        Seq::new(
            store.builtin_names().len(),
            |i: int| all_block(
                store.builtin_names()[i],
                store.builtin_bodies()[i],
                msg,
                w,
                bt,
            ),
        ),
        seq!['\n', '\n'],
    )
}

/// Would `b` be a right raw body for this selector over this store?  For
/// every selector but `Random` exactly one body qualifies.
pub open spec fn resolves_ok(chara: Chara, store: TemplateStore, b: Seq<char>) -> bool {
    match chara {
        Chara::All => b == all_raw(store),
        Chara::Builtin(n) => index_of_name(store.builtin_names(), n@) >= 0 && b
            == store.builtin_bodies()[index_of_name(store.builtin_names(), n@)],
        Chara::File(p) => index_of_name(store.external_paths(), p@) >= 0 && b
            == store.external_bodies()[index_of_name(store.external_paths(), p@)],
        Chara::Raw(s) => b == s@,
        Chara::Random => exists|i: int|
            0 <= i < store.builtin_bodies().len() && b == store.builtin_bodies()[i],
    }
}

/// The error this selector must yield over this store, or `None` when it
/// must succeed.
pub open spec fn resolve_error(chara: Chara, store: TemplateStore) -> Option<CharaError> {
    match chara {
        Chara::All => None,
        Chara::Builtin(n) => if index_of_name(store.builtin_names(), n@) >= 0 {
            None
        } else {
            Some(CharaError::NotFound)
        },
        Chara::File(p) => if index_of_name(store.external_paths(), p@) >= 0 {
            None
        } else {
            Some(CharaError::Io)
        },
        Chara::Raw(_) => None,
        Chara::Random => if store.builtin_names().len() >= 1 {
            None
        } else {
            Some(CharaError::NotFound)
        },
    }
}

/// Resolve the selector to one raw template body through the store.
fn resolve_raw(chara: &Chara, store: &TemplateStore) -> (r: Result<String, CharaError>)
    ensures
        match r {
            Ok(b) => resolve_error(*chara, *store) is None && resolves_ok(*chara, *store, b@),
            Err(e) => resolve_error(*chara, *store) == Some(e),
        },
{
    match chara {
        Chara::Raw(s) => Ok(s.clone()),
        Chara::Builtin(n) => store.get(n.as_str()),
        Chara::File(p) => store.get_external(p.as_str()),
        Chara::Random => {
            match store.random() {
                Ok(t) => {
                    proof {
                        store.lemma_lens();
                        let i = choose|i: int|
                            0 <= i < store.builtin_names().len() && t.name@
                                == store.builtin_names()[i] && t.body@
                                == store.builtin_bodies()[i];
                        assert(0 <= i < store.builtin_bodies().len() && t.body@
                            == store.builtin_bodies()[i]);
                    }
                    Ok(t.body)
                },
                Err(e) => Err(e),
            }
        },
        Chara::All => {
            let entries = store.all();
            let ghost names = store.builtin_names();
            let ghost bodies = store.builtin_bodies();
            let n: usize = entries.len();
            let mut pieces: Vec<Vec<char>> = Vec::new();
            let mut i: usize = 0;
            while i < n
                invariant
                    n == entries@.len(),
                    i <= n,
                    entries@.map_values(|t: Template| t.name@) == names,
                    entries@.map_values(|t: Template| t.body@) == bodies,
                    pieces@.len() == i,
                    forall|k: int| 0 <= k < i ==> pieces@[k]@ == all_entry(names[k], bodies[k]),
                decreases n - i,
            {
                let mut piece: Vec<char> = Vec::new();
                let nv = crate::convert::chars_of(entries[i].name.as_str());
                push_all(&mut piece, &nv);
                piece.push(' ');
                piece.push('\u{1f447}');
                piece.push('\n');
                let bv = crate::convert::chars_of(entries[i].body.as_str());
                push_all(&mut piece, &bv);
                proof {
                    assert(piece@ =~= all_entry(names[i as int], bodies[i as int]));
                }
                pieces.push(piece);
                i += 1;
            }
            let mut sep: Vec<char> = Vec::new();
            sep.push('\n');
            sep.push('+');
            sep.push('\n');
            proof {
                assert(sep@ =~= seq!['\n', '+', '\n']);
                assert(views_of(pieces@) =~= Seq::new(
                    names.len(),
                    |k: int| all_entry(names[k], bodies[k]),
                ));
            }
            let joined = crate::textops::join_with_chars(&pieces, &sep);
            Ok(crate::convert::string_from_chars(&joined))
        },
    }
}

/// Resolve the selector and parse the template against the given voice
/// token.
pub fn parse_character(chara: &Chara, voice_line: &str, store: &TemplateStore) -> (r: Result<
    String,
    CharaError,
>)
    ensures
        match r {
            Ok(t) => resolve_error(*chara, *store) is None && exists|raw: Seq<char>|
                resolves_ok(*chara, *store, raw) && t@ == #[trigger] parse_of(raw, voice_line@),
            Err(e) => resolve_error(*chara, *store) == Some(e),
        },
{
    let b = match resolve_raw(chara, store) {
        Ok(b) => b,
        Err(e) => {
            return Err(e);
        },
    };
    let t = crate::template::parse_template(b.as_str(), voice_line);
    proof {
        assert(resolves_ok(*chara, *store, b@) && t@ == parse_of(b@, voice_line@));
    }
    Ok(t)
}

/// Render the whole request: the message in a bubble of the chosen style,
/// stacked over the resolved and parsed character.
pub fn format_character(
    messages: &str,
    chara: &Chara,
    max_width: usize,
    bubble_type: BubbleType,
    store: &TemplateStore,
) -> (r: Result<String, CharaError>)
    ensures
        match r {
            Ok(t) => resolve_error(*chara, *store) is None && (match chara {
                Chara::All => t@ == all_rendered(*store, messages@, max_width as int, bubble_type),
                _ => exists|raw: Seq<char>|
                    resolves_ok(*chara, *store, raw) && t@ == bubble_of(
                        messages@,
                        max_width as int,
                        style_glyphs(bubble_type),
                    ) + #[trigger] parse_of(raw, voice_of(bubble_type)),
            }),
            Err(e) => resolve_error(*chara, *store) == Some(e),
        },
{
    let voice_line: &str = match bubble_type {
        BubbleType::Think => "o ",
        BubbleType::Round => "\u{2572} ",
        BubbleType::Cowsay => "\\ ",
        BubbleType::Ascii => "\\ ",
        BubbleType::Unicode => "\u{2572} ",
    };
    proof {
        reveal_strlit("o ");
        reveal_strlit("\u{2572} ");
        reveal_strlit("\\ ");
        assert(voice_line@ =~= voice_of(bubble_type));
    }
    let speech_bubble = SpeechBubble::new(bubble_type);
    let speech = match speech_bubble.create(messages, &max_width) {
        Ok(s) => s,
        Err(_) => {
            // create promises success on every input
            proof {
                assert(false);
            }
            return Err(CharaError::Malformed);
        },
    };
    match chara {
        Chara::All => {
            let entries = store.all();
            let ghost names = store.builtin_names();
            let ghost bodies = store.builtin_bodies();
            let ghost w = max_width as int;
            let n: usize = entries.len();
            let mut pieces: Vec<Vec<char>> = Vec::new();
            let mut i: usize = 0;
            while i < n
                invariant
                    n == entries@.len(),
                    i <= n,
                    entries@.map_values(|t: Template| t.name@) == names,
                    entries@.map_values(|t: Template| t.body@) == bodies,
                    speech@ == bubble_of(messages@, w, style_glyphs(bubble_type)),
                    voice_line@ == voice_of(bubble_type),
                    w == max_width as int,
                    pieces@.len() == i,
                    forall|k: int|
                        0 <= k < i ==> pieces@[k]@ == all_block(
                            names[k],
                            bodies[k],
                            messages@,
                            w,
                            bubble_type,
                        ),
                decreases n - i,
            {
                let mut piece: Vec<char> = Vec::new();
                let nv = crate::convert::chars_of(entries[i].name.as_str());
                push_all(&mut piece, &nv);
                piece.push(' ');
                piece.push('\u{1f447}');
                piece.push('\n');
                let sv = crate::convert::chars_of(speech.as_str());
                push_all(&mut piece, &sv);
                let parsed = crate::template::parse_template(entries[i].body.as_str(), voice_line);
                let pv = crate::convert::chars_of(parsed.as_str());
                push_all(&mut piece, &pv);
                proof {
                    assert(piece@ =~= all_block(
                        names[i as int],
                        bodies[i as int],
                        messages@,
                        w,
                        bubble_type,
                    ));
                }
                pieces.push(piece);
                i += 1;
            }
            let mut sep: Vec<char> = Vec::new();
            sep.push('\n');
            sep.push('\n');
            proof {
                assert(sep@ =~= seq!['\n', '\n']);
                assert(views_of(pieces@) =~= Seq::new(
                    names.len(),
                    |k: int| all_block(names[k], bodies[k], messages@, w, bubble_type),
                ));
            }
            let joined = crate::textops::join_with_chars(&pieces, &sep);
            Ok(crate::convert::string_from_chars(&joined))
        },
        _ => {
            let character = match parse_character(chara, voice_line, store) {
                Ok(c) => c,
                Err(e) => {
                    return Err(e);
                },
            };
            let mut out = speech;
            out.append(character.as_str());
            Ok(out)
        },
    }
}

/// Render only the character, with the neutral two-space voice token.
pub fn print_character(chara: &Chara, store: &TemplateStore) -> (r: Result<String, CharaError>)
    ensures
        match r {
            Ok(t) => resolve_error(*chara, *store) is None && exists|raw: Seq<char>|
                resolves_ok(*chara, *store, raw) && t@ == #[trigger] parse_of(raw, neutral_voice()),
            Err(e) => resolve_error(*chara, *store) == Some(e),
        },
{
    proof {
        reveal_strlit("  ");
        assert("  "@ =~= neutral_voice());
    }
    parse_character(chara, "  ", store)
}

} // verus!
