//! End-to-end tests of the rendering engine: bubbles, template parsing,
//! the store, and the compositor.

use charasay::bubbles::{BubbleType, SpeechBubble};
use charasay::errors::{CharaError, ReadInputError};
use charasay::store::{Template, TemplateStore};
use charasay::{format_character, parse_character, print_character, strip_chara_string, Chara};

fn store_of(entries: &[(&str, &str)]) -> TemplateStore {
    let builtins: Vec<Template> = entries
        .iter()
        .map(|(n, b)| Template {
            name: n.to_string(),
            body: b.to_string(),
        })
        .collect();
    TemplateStore::new(builtins, Vec::new())
}

fn empty_store() -> TemplateStore {
    TemplateStore::new(Vec::new(), Vec::new())
}

// ---------------------------------------------------------------------------
// Bubble rendering
// ---------------------------------------------------------------------------

#[test]
fn empty_message_round_is_minimal_box() {
    let b = SpeechBubble::new(BubbleType::Round);
    let out = b.create("", &40).unwrap();
    assert_eq!(out, "\u{256d}\u{2500}\u{2500}\u{2500}\u{2500}\u{256e}\n\u{2502}    \u{2502}\n\u{2570}\u{2500}\u{2500}\u{2500}\u{2500}\u{256f}\n");
}

#[test]
fn empty_message_cowsay_is_minimal_box() {
    let b = SpeechBubble::new(BubbleType::Cowsay);
    let out = b.create("", &1).unwrap();
    assert_eq!(out, " ____ \n<    >\n ---- \n");
}

#[test]
fn hello_round_uses_short_borders() {
    let b = SpeechBubble::new(BubbleType::Round);
    let out = b.create("Hello", &20).unwrap();
    assert_eq!(
        out,
        "\u{256d}\u{2500}\u{2500}\u{2500}\u{2500}\u{2500}\u{2500}\u{2500}\u{2500}\u{2500}\u{256e}\n\u{2502}  Hello  \u{2502}\n\u{2570}\u{2500}\u{2500}\u{2500}\u{2500}\u{2500}\u{2500}\u{2500}\u{2500}\u{2500}\u{256f}\n"
    );
}

#[test]
fn wrapped_lines_share_one_width() {
    let b = SpeechBubble::new(BubbleType::Ascii);
    let out = b.create("Memory safety without garbage collection.", &15).unwrap();
    let expected = format!(
        " {} \n/  Memory safety    \\\n|  without garbage  |\n|  collection.      |\n\\{}/\n",
        "_".repeat(19),
        "_".repeat(19)
    );
    assert_eq!(out, expected);
}

#[test]
fn ansi_escapes_do_not_count_toward_width() {
    let b = SpeechBubble::new(BubbleType::Round);
    let out = b.create("\u{1b}[31mHi\u{1b}[0m", &20).unwrap();
    // the message shows two columns, so the box is as wide as for "Hi"
    assert_eq!(
        out,
        "\u{256d}\u{2500}\u{2500}\u{2500}\u{2500}\u{2500}\u{2500}\u{256e}\n\u{2502}  \u{1b}[31mHi\u{1b}[0m  \u{2502}\n\u{2570}\u{2500}\u{2500}\u{2500}\u{2500}\u{2500}\u{2500}\u{256f}\n"
    );
}

#[test]
fn wide_characters_count_two_columns() {
    let b = SpeechBubble::new(BubbleType::Round);
    let out = b.create("\u{4f60}", &10).unwrap();
    assert_eq!(
        out,
        "\u{256d}\u{2500}\u{2500}\u{2500}\u{2500}\u{2500}\u{2500}\u{256e}\n\u{2502}  \u{4f60}  \u{2502}\n\u{2570}\u{2500}\u{2500}\u{2500}\u{2500}\u{2500}\u{2500}\u{256f}\n"
    );
}

#[test]
fn tabs_expand_to_four_spaces() {
    let b = SpeechBubble::new(BubbleType::Round);
    let out = b.create("a\tb", &20).unwrap();
    assert_eq!(
        out,
        "\u{256d}\u{2500}\u{2500}\u{2500}\u{2500}\u{2500}\u{2500}\u{2500}\u{2500}\u{2500}\u{2500}\u{256e}\n\u{2502}  a    b  \u{2502}\n\u{2570}\u{2500}\u{2500}\u{2500}\u{2500}\u{2500}\u{2500}\u{2500}\u{2500}\u{2500}\u{2500}\u{256f}\n"
    );
}

#[test]
fn multi_line_borders_choose_position_glyphs() {
    let b = SpeechBubble::new(BubbleType::Cowsay);
    let out = b.create("aa bb", &2).unwrap();
    assert_eq!(out, " ______ \n/  aa  \\\n\\  bb  /\n ------ \n");
}

#[test]
fn empty_message_unicode_is_minimal_box() {
    let b = SpeechBubble::new(BubbleType::Unicode);
    let out = b.create("", &10).unwrap();
    assert_eq!(out, "\u{250c}\u{2500}\u{2500}\u{2500}\u{2500}\u{2510}\n\u{2502}    \u{2502}\n\u{2514}\u{2500}\u{2500}\u{2500}\u{2500}\u{2518}\n");
}

#[test]
fn line_len_ignores_escapes_and_counts_columns() {
    let plain: Vec<char> = "ab".chars().collect();
    assert_eq!(SpeechBubble::line_len(&plain), 2);
    let colored: Vec<char> = "\u{1b}[31mab\u{1b}[0m".chars().collect();
    assert_eq!(SpeechBubble::line_len(&colored), 2);
    let wide: Vec<char> = "\u{4f60}a".chars().collect();
    assert_eq!(SpeechBubble::line_len(&wide), 3);
}

#[test]
fn longest_line_takes_the_maximum() {
    let lines: Vec<Vec<char>> = vec![
        "a".chars().collect(),
        "\u{1b}[32mlong line\u{1b}[0m".chars().collect(),
        "mid".chars().collect(),
    ];
    assert_eq!(SpeechBubble::longest_line(&lines), 9);
    assert_eq!(SpeechBubble::longest_line(&Vec::new()), 0);
}

// ---------------------------------------------------------------------------
// Stripping and template parsing
// ---------------------------------------------------------------------------

#[test]
fn strip_drops_comments_markers_and_empty_lines() {
    let raw = "#comment\nart\n$x directive\nkeep $thoughts\n\nx\\ey";
    assert_eq!(strip_chara_string(raw), "art\nx\u{1b}y");
}

#[test]
fn strip_is_idempotent_on_filtered_body() {
    let raw = "#c\nline one\n$x d\nleft \\e right\n\ntail";
    let once = strip_chara_string(raw);
    let twice = strip_chara_string(&once);
    assert_eq!(once, twice);
}

#[test]
fn variable_substitution_exact() {
    let store = empty_store();
    let chara = Chara::Raw("A=\u{1b}[31m.;\n$t$A".to_string());
    let out = parse_character(&chara, "> ", &store).unwrap();
    assert_eq!(out, "> \u{1b}[31m");
}

#[test]
fn dollar_prefixed_definition_binds_its_letter() {
    let store = empty_store();
    let chara = Chara::Raw("$R = \u{1b}[0;31m.;\n$R!".to_string());
    let out = parse_character(&chara, "x ", &store).unwrap();
    assert_eq!(out, "\u{1b}[0;31m!");
}

#[test]
fn unresolved_variable_stays_verbatim() {
    let store = empty_store();
    let chara = Chara::Raw("$t$B".to_string());
    let out = parse_character(&chara, "> ", &store).unwrap();
    assert_eq!(out, "> $B");
}

#[test]
fn missing_terminator_is_no_definition() {
    let store = empty_store();
    let chara = Chara::Raw("A=\u{1b}[31m\n$A".to_string());
    let out = parse_character(&chara, "> ", &store).unwrap();
    // the would-be definition line still holds `=` and is removed from the
    // body, but it binds nothing, so the reference stays
    assert_eq!(out, "$A");
}

#[test]
fn eoc_lines_are_removed() {
    let store = empty_store();
    let chara = Chara::Raw("art\nEOC".to_string());
    let out = print_character(&chara, &store).unwrap();
    assert_eq!(out, "art");
}

#[test]
fn sub_templates_are_separated_by_blank_lines() {
    let store = empty_store();
    let chara = Chara::Raw("a\n+\nb".to_string());
    let out = print_character(&chara, &store).unwrap();
    assert_eq!(out, "a\n\n\nb");
}

#[test]
fn spacer_inside_line_becomes_reset_and_spaces() {
    let store = empty_store();
    let chara = Chara::Raw("l $x r".to_string());
    let out = print_character(&chara, &store).unwrap();
    assert_eq!(out, "l \u{1b}[49m   r");
}

#[test]
fn neutral_voice_is_two_spaces() {
    let store = empty_store();
    let chara = Chara::Raw("$t X".to_string());
    let out = print_character(&chara, &store).unwrap();
    assert_eq!(out, "   X");
}

// ---------------------------------------------------------------------------
// Store lookup and selectors
// ---------------------------------------------------------------------------

#[test]
fn unknown_builtin_yields_not_found() {
    let store = store_of(&[("cow", "moo")]);
    let chara = Chara::Builtin("dog".to_string());
    let r = format_character("hi", &chara, 20, BubbleType::Round, &store);
    assert_eq!(r.unwrap_err(), CharaError::NotFound);
}

#[test]
fn get_finds_first_matching_entry() {
    let store = store_of(&[("cow", "first"), ("cow", "second")]);
    assert_eq!(store.get("cow").unwrap(), "first");
    assert!(matches!(store.get("cat"), Err(CharaError::NotFound)));
}

#[test]
fn list_keeps_catalog_order() {
    let store = store_of(&[("aya", "1"), ("cow", "2"), ("tux", "3")]);
    assert_eq!(store.list(), vec!["aya", "cow", "tux"]);
}

#[test]
fn missing_external_file_yields_io_error() {
    let store = empty_store();
    let chara = Chara::File("/no/such/path".to_string());
    let r = print_character(&chara, &store);
    assert_eq!(r.unwrap_err(), CharaError::Io);
}

#[test]
fn preloaded_external_file_renders() {
    let ext = vec![Template {
        name: "/tmp/own.chara".to_string(),
        body: "$t here".to_string(),
    }];
    let store = TemplateStore::new(Vec::new(), ext);
    let chara = Chara::File("/tmp/own.chara".to_string());
    let out = print_character(&chara, &store).unwrap();
    assert_eq!(out, "   here");
}

#[test]
fn all_builtins_render_under_banners() {
    let store = store_of(&[("a", "one"), ("b", "two")]);
    let out = print_character(&Chara::All, &store).unwrap();
    assert_eq!(out, "a \u{1f447}\none\n\n\nb \u{1f447}\ntwo");
}

#[test]
fn random_on_empty_catalog_is_not_found() {
    let store = empty_store();
    let r = print_character(&Chara::Random, &store);
    assert_eq!(r.unwrap_err(), CharaError::NotFound);
}

#[test]
fn random_returns_a_catalog_entry() {
    let store = store_of(&[("a", "one"), ("b", "two"), ("c", "three")]);
    for _ in 0..50 {
        let t = store.random().unwrap();
        assert!(["a", "b", "c"].contains(&t.name.as_str()));
        let out = print_character(&Chara::Random, &store).unwrap();
        assert!(["one", "two", "three"].contains(&out.as_str()));
    }
}

#[test]
fn random_visits_more_than_one_entry() {
    let store = store_of(&[("a", "one"), ("b", "two"), ("c", "three")]);
    let mut seen = std::collections::BTreeSet::new();
    for _ in 0..200 {
        seen.insert(store.random().unwrap().name);
    }
    assert!(seen.len() > 1);
}

#[test]
fn seeded_random_is_reproducible() {
    let store = store_of(&[("a", "one"), ("b", "two"), ("c", "three"), ("d", "four")]);
    for seed in 0..20u64 {
        let first = store.random_seeded(seed).unwrap();
        let second = store.random_seeded(seed).unwrap();
        assert_eq!(first.name, second.name);
        assert_eq!(first.body, second.body);
    }
}

#[test]
fn seeded_random_depends_on_the_seed() {
    let store = store_of(&[("a", "one"), ("b", "two"), ("c", "three"), ("d", "four")]);
    let mut seen = std::collections::BTreeSet::new();
    for seed in 0..50u64 {
        seen.insert(store.random_seeded(seed).unwrap().name);
    }
    assert!(seen.len() > 1);
}

#[test]
fn seeded_random_on_empty_catalog_is_not_found() {
    let store = empty_store();
    assert!(matches!(store.random_seeded(7), Err(CharaError::NotFound)));
}

// ---------------------------------------------------------------------------
// The compositor
// ---------------------------------------------------------------------------

#[test]
fn format_stacks_bubble_over_character() {
    let store = store_of(&[("cow", "$t art\nEOC")]);
    let chara = Chara::Builtin("cow".to_string());
    let out = format_character("Hi", &chara, 20, BubbleType::Round, &store).unwrap();
    assert_eq!(
        out,
        "\u{256d}\u{2500}\u{2500}\u{2500}\u{2500}\u{2500}\u{2500}\u{256e}\n\u{2502}  Hi  \u{2502}\n\u{2570}\u{2500}\u{2500}\u{2500}\u{2500}\u{2500}\u{2500}\u{256f}\n\u{2572}  art"
    );
}

#[test]
fn format_all_renders_every_entry_with_its_own_bubble() {
    let store = store_of(&[("a", "one"), ("b", "two")]);
    let out = format_character("m", &Chara::All, 10, BubbleType::Round, &store).unwrap();
    let bubble = "\u{256d}\u{2500}\u{2500}\u{2500}\u{2500}\u{2500}\u{256e}\n\u{2502}  m  \u{2502}\n\u{2570}\u{2500}\u{2500}\u{2500}\u{2500}\u{2500}\u{256f}\n";
    let expected = format!(
        "a \u{1f447}\n{}one\n\nb \u{1f447}\n{}two",
        bubble, bubble
    );
    assert_eq!(out, expected);
}

#[test]
fn think_style_uses_thought_voice() {
    let store = empty_store();
    let chara = Chara::Raw("$t".to_string());
    let out = format_character("m", &chara, 10, BubbleType::Think, &store).unwrap();
    assert_eq!(out, "(\u{2040}\u{2040}\u{2040}\u{2040}\u{2040})\n(  m  )\n(\u{203f}\u{203f}\u{203f}\u{203f}\u{203f})\no");
}

#[test]
fn cowsay_style_uses_backslash_voice() {
    let store = empty_store();
    let chara = Chara::Raw("$t".to_string());
    let out = format_character("m", &chara, 10, BubbleType::Cowsay, &store).unwrap();
    assert_eq!(out, " _____ \n<  m  >\n ----- \n\\");
}

// ---------------------------------------------------------------------------
// Errors
// ---------------------------------------------------------------------------

#[test]
fn chara_error_messages() {
    assert_eq!(CharaError::NotFound.message(), "unknown built-in character");
    assert_eq!(CharaError::Io.message(), "character file was not read");
    assert_eq!(CharaError::Decode.message(), "character data is not valid text");
    assert_eq!(CharaError::Malformed.message(), "character template is unusable");
}

#[test]
fn read_input_error_messages() {
    let e = ReadInputError::IoError("broken pipe".to_string());
    assert_eq!(e.message(), "IO error: broken pipe");
    let u = ReadInputError::Utf8Error("bad byte".to_string());
    assert_eq!(u.message(), "UTF-8 error: bad byte");
}
