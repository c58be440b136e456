//! The template mini-language: comment and marker filtering, variable
//! definitions bound to ANSI escape sequences, and placeholder
//! substitution.  A template body may hold several sub-templates separated
//! by lines consisting solely of `+`; each is parsed independently and the
//! results are concatenated.

use vstd::prelude::*;

use crate::convert::{chars_of, string_from_chars};
use crate::textops::{
    begins_with, begins_with_chars, contains_chars, copy_range, find_char, find_char_from,
    join_with, join_with_chars, occurs_at, occurs_in, push_all, replace_all, replace_all_chars,
    split_char, split_char_chars, trim_end_chars, trim_end_spec, views_of,
};

verus! {

// ---------------------------------------------------------------------------
// Markers of the template language
// ---------------------------------------------------------------------------

/// The ESC control character, written `\e` in template files.
pub open spec fn esc_char() -> char {
    '\u{1b}'
}

/// The two-character sequence that template files write for ESC.
pub open spec fn esc_marker() -> Seq<char> {
    seq!['\\', 'e']
}

/// The spacer marker.
pub open spec fn spacer_marker() -> Seq<char> {
    seq!['$', 'x']
}

/// What a spacer becomes: a reset-background escape and two spaces.
pub open spec fn spacer_value() -> Seq<char> {
    seq![esc_char(), '[', '4', '9', 'm', ' ', ' ']
}

/// The voice-token insertion marker.
pub open spec fn voice_marker() -> Seq<char> {
    seq!['$', 't']
}

/// The thought-only marker; lines holding it are dropped.
pub open spec fn thoughts_marker() -> Seq<char> {
    seq!['$', 't', 'h', 'o', 'u', 'g', 'h', 't', 's']
}

/// The end-of-character marker; lines holding it are not rendered.
pub open spec fn eoc_marker() -> Seq<char> {
    seq!['E', 'O', 'C']
}

/// The comment prefix.
pub open spec fn comment_marker() -> Seq<char> {
    seq!['#']
}

/// A line solely of this separates sub-templates.
pub open spec fn plus_line() -> Seq<char> {
    seq!['+']
}

// ---------------------------------------------------------------------------
// The line filter ("stripping")
// ---------------------------------------------------------------------------

/// A line survives the filter pass when it is not a comment, not a spacer
/// directive, not thought-only, and not empty.
pub open spec fn keep_line(l: Seq<char>) -> bool {
    !begins_with(l, comment_marker()) && !begins_with(l, spacer_marker()) && !occurs_in(
        l,
        thoughts_marker(),
    ) && l.len() > 0
}

/// The lines that survive the filter pass, in order.
pub open spec fn kept_lines(ls: Seq<Seq<char>>) -> Seq<Seq<char>>
    decreases ls.len(),
{
    if ls.len() == 0 {
        Seq::empty()
    } else if keep_line(ls[0]) {
        seq![ls[0]] + kept_lines(ls.skip(1))
    } else {
        kept_lines(ls.skip(1))
    }
}

/// The filter pass over a whole body: drop the filtered lines, rejoin, and
/// unescape `\e` into the ESC character.
pub open spec fn strip_of(raw: Seq<char>) -> Seq<char> {
    replace_all(
        join_with(kept_lines(split_char(raw, '\n')), seq!['\n']),
        esc_marker(),
        seq![esc_char()],
    )
}

fn keep_line_exec(line: &Vec<char>) -> (b: bool)
    ensures
        b == keep_line(line@),
{
    let mut hash: Vec<char> = Vec::new();
    hash.push('#');
    let mut dx: Vec<char> = Vec::new();
    dx.push('$');
    dx.push('x');
    let mut th: Vec<char> = Vec::new();
    th.push('$');
    th.push('t');
    th.push('h');
    th.push('o');
    th.push('u');
    th.push('g');
    th.push('h');
    th.push('t');
    th.push('s');
    proof {
        assert(hash@ =~= comment_marker());
        assert(dx@ =~= spacer_marker());
        assert(th@ =~= thoughts_marker());
    }
    !begins_with_chars(line, &hash) && !begins_with_chars(line, &dx) && !contains_chars(line, &th)
        && line.len() > 0
}

/// The filter pass, on character vectors.
fn strip_chars(raw: &Vec<char>) -> (r: Vec<char>)
    ensures
        r@ == strip_of(raw@),
{
    let lines = split_char_chars(raw, '\n');
    let ghost lv = views_of(lines@);
    let n: usize = lines.len();
    let mut kept: Vec<Vec<char>> = Vec::new();
    let mut i: usize = 0;
    proof {
        assert(lv.skip(0) =~= lv);
        assert(views_of(kept@) + kept_lines(lv) =~= kept_lines(lv));
    }
    while i < n
        invariant
            n == lines@.len(),
            i <= n,
            lv == views_of(lines@),
            kept_lines(lv) == views_of(kept@) + kept_lines(lv.skip(i as int)),
        decreases n - i,
    {
        proof {
            assert(lv.skip(i as int)[0] == lv[i as int]);
            assert(lv.skip(i as int).skip(1) =~= lv.skip(i + 1));
        }
        if keep_line_exec(&lines[i]) {
            let mut piece: Vec<char> = Vec::new();
            push_all(&mut piece, &lines[i]);
            proof {
                assert(piece@ =~= lv[i as int]);
            }
            kept.push(piece);
            proof {
                assert(views_of(kept@) =~= views_of(kept@.drop_last()).push(lv[i as int]));
                assert(views_of(kept@.drop_last()) + (seq![lv[i as int]] + kept_lines(
                    lv.skip(i + 1),
                )) =~= views_of(kept@) + kept_lines(lv.skip(i + 1)));
            }
        }
        i += 1;
    }
    proof {
        assert(lv.skip(n as int) =~= Seq::<Seq<char>>::empty());
        assert(views_of(kept@) + kept_lines(lv.skip(n as int)) =~= views_of(kept@));
    }
    let mut nl: Vec<char> = Vec::new();
    nl.push('\n');
    let joined = join_with_chars(&kept, &nl);
    let mut em: Vec<char> = Vec::new();
    em.push('\\');
    em.push('e');
    let mut ev: Vec<char> = Vec::new();
    ev.push(esc_exec());
    proof {
        assert(nl@ =~= seq!['\n']);
        assert(em@ =~= esc_marker());
        assert(ev@ =~= seq![esc_char()]);
    }
    replace_all_chars(&joined, &em, &ev)
}

/// The ESC character, as executable code.
fn esc_exec() -> (c: char)
    ensures
        c == esc_char(),
{
    '\u{1b}'
}

/// Drop comment lines, spacer directives, thought-only lines and empty
/// lines from a raw template body, and unescape `\e` to the ESC character.
pub fn strip_chara_string(raw_chara: &str) -> (r: String)
    ensures
        r@ == strip_of(raw_chara@),
{
    let rv = chars_of(raw_chara);
    let sv = strip_chars(&rv);
    string_from_chars(&sv)
}

// ---------------------------------------------------------------------------
// Variable definitions
// ---------------------------------------------------------------------------

/// Variable names are single word characters.
pub open spec fn is_word_char(c: char) -> bool {
    let u = c as int;
    (0x61 <= u && u <= 0x7a) || (0x41 <= u && u <= 0x5a) || (0x30 <= u && u <= 0x39) || u == 0x5f
}

fn is_word(c: char) -> (b: bool)
    ensures
        b == is_word_char(c),
{
    let u = c as u32;
    (0x61 <= u && u <= 0x7a) || (0x41 <= u && u <= 0x5a) || (0x30 <= u && u <= 0x39) || u == 0x5f
}

/// Where the variable's name stands: a definition line may lead with a `$`
/// before the name.
pub open spec fn name_index(l: Seq<char>) -> int {
    if l.len() >= 2 && l[0] == '$' {
        1
    } else {
        0
    }
}

/// Is this line a variable definition?  It must name a variable, hold an
/// `=`, end (up to trailing whitespace) with the `.;` terminator, and hold
/// before the terminator an escape sequence that starts with ESC `[` and
/// ends with `m`.
pub open spec fn is_def_line(l: Seq<char>) -> bool {
    let ni = name_index(l);
    let t = trim_end_spec(l);
    &&& l.len() > ni
    &&& is_word_char(l[ni])
    &&& find_char(l.skip(ni + 1), '=') >= 0
    &&& t.len() >= 2
    &&& t[t.len() - 1] == ';'
    &&& t[t.len() - 2] == '.'
    &&& {
        let eq = ni + 1 + find_char(l.skip(ni + 1), '=');
        let e_rel = find_char(l.skip(eq + 1), esc_char());
        &&& e_rel >= 0
        &&& {
            let e = eq + 1 + e_rel;
            let u = trim_end_spec(t.subrange(0, t.len() - 2));
            &&& e + 2 < u.len()
            &&& u[e + 1] == '['
            &&& u[u.len() - 1] == 'm'
        }
    }
}

/// The binding a definition line makes: its name character, and the escape
/// sequence from the ESC character up to the final `m`.
pub open spec fn def_of(l: Seq<char>) -> (char, Seq<char>) {
    let ni = name_index(l);
    let t = trim_end_spec(l);
    let eq = ni + 1 + find_char(l.skip(ni + 1), '=');
    let e = eq + 1 + find_char(l.skip(eq + 1), esc_char());
    let u = trim_end_spec(t.subrange(0, t.len() - 2));
    (l[ni], u.subrange(e, u.len() as int))
}

/// The bindings made by the definition lines of a sub-template, in order.
pub open spec fn defs_of(ls: Seq<Seq<char>>) -> Seq<(char, Seq<char>)>
    decreases ls.len(),
{
    if ls.len() == 0 {
        Seq::empty()
    } else if is_def_line(ls[0]) {
        seq![def_of(ls[0])] + defs_of(ls.skip(1))
    } else {
        defs_of(ls.skip(1))
    }
}

/// The views of collected bindings.
pub open spec fn def_views(ds: Seq<(char, Vec<char>)>) -> Seq<(char, Seq<char>)> {
    ds.map_values(|p: (char, Vec<char>)| (p.0, p.1@))
}

/// Scan one line for a variable definition.
fn scan_def(line: &Vec<char>) -> (r: Option<(char, Vec<char>)>)
    ensures
        r is Some <==> is_def_line(line@),
        r matches Some(d) ==> (d.0, d.1@) == def_of(line@),
{
    let len: usize = line.len();
    let ni: usize = if len >= 2 && line[0] == '$' {
        1
    } else {
        0
    };
    proof {
        assert(ni == name_index(line@));
    }
    if len <= ni {
        return None;
    }
    let name = line[ni];
    if !is_word(name) {
        return None;
    }
    let eq_found = find_char_from(line, ni + 1, '=');
    let eq: usize = match eq_found {
        Some(k) => k,
        None => {
            return None;
        },
    };
    let t = trim_end_chars(line);
    let tlen: usize = t.len();
    if tlen < 2 {
        return None;
    }
    if t[tlen - 1] != ';' || t[tlen - 2] != '.' {
        return None;
    }
    let e_found = find_char_from(line, eq + 1, esc_exec());
    let e: usize = match e_found {
        Some(k) => k,
        None => {
            return None;
        },
    };
    proof {
        assert(eq == name_index(line@) + 1 + find_char(line@.skip(name_index(line@) + 1), '='));
        assert(e == eq + 1 + find_char(line@.skip(eq + 1), esc_char()));
    }
    let t2 = copy_range(&t, 0, tlen - 2);
    let u = trim_end_chars(&t2);
    let ulen: usize = u.len();
    if ulen < 3 || e >= ulen - 2 {
        return None;
    }
    if u[e + 1] != '[' {
        return None;
    }
    if u[ulen - 1] != 'm' {
        return None;
    }
    let val = copy_range(&u, e, ulen);
    Some((name, val))
}

// ---------------------------------------------------------------------------
// Sub-template parsing
// ---------------------------------------------------------------------------

/// The lines of a sub-template that are rendered: all lines holding an `=`
/// (the definitions) or the end-of-character marker are removed.
pub open spec fn body_keep(l: Seq<char>) -> bool {
    !occurs_in(l, seq!['=']) && !occurs_in(l, eoc_marker())
}

/// The rendered lines of a sub-template, in order.
pub open spec fn body_lines(ls: Seq<Seq<char>>) -> Seq<Seq<char>>
    decreases ls.len(),
{
    if ls.len() == 0 {
        Seq::empty()
    } else if body_keep(ls[0]) {
        seq![ls[0]] + body_lines(ls.skip(1))
    } else {
        body_lines(ls.skip(1))
    }
}

/// Substitute the bindings in order: each replaces every occurrence of `$`
/// followed by its name.
pub open spec fn apply_defs(s: Seq<char>, ds: Seq<(char, Seq<char>)>) -> Seq<char>
    decreases ds.len(),
{
    if ds.len() == 0 {
        s
    } else {
        apply_defs(replace_all(s, seq!['$', ds[0].0], ds[0].1), ds.skip(1))
    }
}

/// One sub-template, fully parsed: its rendered lines rejoined and
/// trimmed, the spacer and voice markers substituted, then every defined
/// variable substituted, in the order the definitions stand in the body.
pub open spec fn sub_parsed(g: Seq<Seq<char>>, voice: Seq<char>) -> Seq<char> {
    let body = trim_end_spec(join_with(body_lines(g), seq!['\n']));
    let b1 = replace_all(body, spacer_marker(), spacer_value());
    let b2 = replace_all(b1, voice_marker(), voice);
    apply_defs(b2, defs_of(g))
}

fn body_keep_exec(line: &Vec<char>) -> (b: bool)
    ensures
        b == body_keep(line@),
{
    let mut eqp: Vec<char> = Vec::new();
    eqp.push('=');
    let mut eoc: Vec<char> = Vec::new();
    eoc.push('E');
    eoc.push('O');
    eoc.push('C');
    proof {
        assert(eqp@ =~= seq!['=']);
        assert(eoc@ =~= eoc_marker());
    }
    !contains_chars(line, &eqp) && !contains_chars(line, &eoc)
}

/// Parse one sub-template against the given voice token.
fn parse_sub(group: &Vec<Vec<char>>, voice: &Vec<char>) -> (r: Vec<char>)
    ensures
        r@ == sub_parsed(views_of(group@), voice@),
{
    let ghost gv = views_of(group@);
    let n: usize = group.len();

    // collect the definitions
    let mut defs: Vec<(char, Vec<char>)> = Vec::new();
    let mut i: usize = 0;
    proof {
        assert(gv.skip(0) =~= gv);
        assert(def_views(defs@) + defs_of(gv) =~= defs_of(gv));
    }
    while i < n
        invariant
            n == group@.len(),
            i <= n,
            gv == views_of(group@),
            defs_of(gv) == def_views(defs@) + defs_of(gv.skip(i as int)),
        decreases n - i,
    {
        proof {
            assert(gv.skip(i as int)[0] == gv[i as int]);
            assert(gv.skip(i as int).skip(1) =~= gv.skip(i + 1));
        }
        if let Some(d) = scan_def(&group[i]) {
            defs.push(d);
            proof {
                assert(def_views(defs@) =~= def_views(defs@.drop_last()).push(
                    (defs@.last().0, defs@.last().1@),
                ));
                assert(def_views(defs@.drop_last()) + (seq![def_of(gv[i as int])] + defs_of(
                    gv.skip(i + 1),
                )) =~= def_views(defs@) + defs_of(gv.skip(i + 1)));
            }
        }
        i += 1;
    }
    proof {
        assert(gv.skip(n as int) =~= Seq::<Seq<char>>::empty());
        assert(def_views(defs@) + defs_of(gv.skip(n as int)) =~= def_views(defs@));
    }

    // keep the rendered lines
    let mut kept: Vec<Vec<char>> = Vec::new();
    let mut j: usize = 0;
    proof {
        assert(views_of(kept@) + body_lines(gv) =~= body_lines(gv));
    }
    while j < n
        invariant
            n == group@.len(),
            j <= n,
            gv == views_of(group@),
            body_lines(gv) == views_of(kept@) + body_lines(gv.skip(j as int)),
        decreases n - j,
    {
        proof {
            assert(gv.skip(j as int)[0] == gv[j as int]);
            assert(gv.skip(j as int).skip(1) =~= gv.skip(j + 1));
        }
        if body_keep_exec(&group[j]) {
            let mut piece: Vec<char> = Vec::new();
            push_all(&mut piece, &group[j]);
            proof {
                assert(piece@ =~= gv[j as int]);
            }
            kept.push(piece);
            proof {
                assert(views_of(kept@) =~= views_of(kept@.drop_last()).push(gv[j as int]));
                assert(views_of(kept@.drop_last()) + (seq![gv[j as int]] + body_lines(
                    gv.skip(j + 1),
                )) =~= views_of(kept@) + body_lines(gv.skip(j + 1)));
            }
        }
        j += 1;
    }
    proof {
        assert(gv.skip(n as int) =~= Seq::<Seq<char>>::empty());
        assert(views_of(kept@) + body_lines(gv.skip(n as int)) =~= views_of(kept@));
    }

    // join, trim, substitute the markers
    let mut nl: Vec<char> = Vec::new();
    nl.push('\n');
    proof {
        assert(nl@ =~= seq!['\n']);
    }
    let joined = join_with_chars(&kept, &nl);
    let trimmed = trim_end_chars(&joined);
    let mut dx: Vec<char> = Vec::new();
    dx.push('$');
    dx.push('x');
    let mut sval: Vec<char> = Vec::new();
    sval.push(esc_exec());
    sval.push('[');
    sval.push('4');
    sval.push('9');
    sval.push('m');
    sval.push(' ');
    sval.push(' ');
    let mut dt: Vec<char> = Vec::new();
    dt.push('$');
    dt.push('t');
    proof {
        assert(dx@ =~= spacer_marker());
        assert(sval@ =~= spacer_value());
        assert(dt@ =~= voice_marker());
    }
    let b1 = replace_all_chars(&trimmed, &dx, &sval);
    let mut cur = replace_all_chars(&b1, &dt, voice);

    // substitute the variables
    let ghost b2 = cur@;
    let ghost dvs = def_views(defs@);
    let m: usize = defs.len();
    let mut k: usize = 0;
    proof {
        assert(dvs.skip(0) =~= dvs);
    }
    while k < m
        invariant
            m == defs@.len(),
            k <= m,
            dvs == def_views(defs@),
            apply_defs(b2, dvs) == apply_defs(cur@, dvs.skip(k as int)),
        decreases m - k,
    {
        proof {
            assert(dvs.skip(k as int)[0] == dvs[k as int]);
            assert(dvs.skip(k as int).skip(1) =~= dvs.skip(k + 1));
        }
        let mut pat: Vec<char> = Vec::new();
        pat.push('$');
        pat.push(defs[k].0);
        proof {
            assert(pat@ =~= seq!['$', dvs[k as int].0]);
        }
        cur = replace_all_chars(&cur, &pat, &defs[k].1);
        k += 1;
    }
    proof {
        assert(dvs.skip(m as int) =~= Seq::<(char, Seq<char>)>::empty());
    }
    cur
}

// ---------------------------------------------------------------------------
// Sub-template splitting and whole-template parsing
// ---------------------------------------------------------------------------

/// Group the lines between the `+`-only lines.
pub open spec fn split_plus(ls: Seq<Seq<char>>) -> Seq<Seq<Seq<char>>>
    decreases ls.len(),
{
    if ls.len() == 0 {
        seq![Seq::<Seq<char>>::empty()]
    } else if ls[0] == plus_line() {
        seq![Seq::<Seq<char>>::empty()] + split_plus(ls.skip(1))
    } else {
        let rest = split_plus(ls.skip(1));
        seq![seq![ls[0]] + rest[0]] + rest.skip(1)
    }
}

pub proof fn lemma_split_plus_min_len(ls: Seq<Seq<char>>)
    ensures
        split_plus(ls).len() >= 1,
    decreases ls.len(),
{
    if ls.len() > 0 {
        lemma_split_plus_min_len(ls.skip(1));
    }
}

/// A pending group with no `+`-line extends the first group of the rest.
pub open spec fn first_group_extended(
    c: Seq<Seq<char>>,
    ps: Seq<Seq<Seq<char>>>,
) -> Seq<Seq<Seq<char>>> {
    seq![c + ps[0]] + ps.skip(1)
}

proof fn lemma_first_group_extended_empty(ps: Seq<Seq<Seq<char>>>)
    requires
        ps.len() >= 1,
    ensures
        first_group_extended(Seq::<Seq<char>>::empty(), ps) == ps,
{
    assert(Seq::<Seq<char>>::empty() + ps[0] =~= ps[0]);
    assert(first_group_extended(Seq::<Seq<char>>::empty(), ps) =~= ps);
}

/// The views of grouped lines.
pub open spec fn group_views(gs: Seq<Vec<Vec<char>>>) -> Seq<Seq<Seq<char>>> {
    gs.map_values(|g: Vec<Vec<char>>| views_of(g@))
}

/// Split the lines into sub-template groups at the `+`-only lines.
fn split_plus_exec(lines: &Vec<Vec<char>>) -> (r: Vec<Vec<Vec<char>>>)
    ensures
        group_views(r@) == split_plus(views_of(lines@)),
{
    let ghost lv = views_of(lines@);
    let n: usize = lines.len();
    let mut done: Vec<Vec<Vec<char>>> = Vec::new();
    let mut cur: Vec<Vec<char>> = Vec::new();
    let mut i: usize = 0;
    proof {
        lemma_split_plus_min_len(lv);
        lemma_first_group_extended_empty(split_plus(lv));
        assert(lv.skip(0) =~= lv);
        assert(group_views(done@) + first_group_extended(views_of(cur@), split_plus(lv.skip(0)))
            =~= split_plus(lv));
    }
    while i < n
        invariant
            n == lines@.len(),
            i <= n,
            lv == views_of(lines@),
            split_plus(lv) == group_views(done@) + first_group_extended(
                views_of(cur@),
                split_plus(lv.skip(i as int)),
            ),
        decreases n - i,
    {
        let ghost tail = lv.skip(i as int);
        let ghost tail1 = lv.skip(i as int + 1);
        proof {
            assert(tail[0] == lv[i as int]);
            assert(tail.skip(1) =~= tail1);
            lemma_split_plus_min_len(tail1);
        }
        let piece_len: usize = lines[i].len();
        let is_plus = piece_len == 1 && lines[i][0] == '+';
        proof {
            if is_plus {
                assert(lv[i as int] =~= plus_line());
            } else {
                assert(lv[i as int] != plus_line());
            }
        }
        if is_plus {
            proof {
                assert(split_plus(tail) == seq![Seq::<Seq<char>>::empty()] + split_plus(tail1));
                assert(split_plus(tail)[0] =~= Seq::<Seq<char>>::empty());
                assert(split_plus(tail).skip(1) =~= split_plus(tail1));
                assert(views_of(cur@) + Seq::<Seq<char>>::empty() =~= views_of(cur@));
                lemma_first_group_extended_empty(split_plus(tail1));
                assert(group_views(done@.push(cur)) =~= group_views(done@).push(views_of(cur@)));
                assert(group_views(done@) + first_group_extended(views_of(cur@), split_plus(tail))
                    =~= group_views(done@.push(cur)) + first_group_extended(
                    Seq::<Seq<char>>::empty(),
                    split_plus(tail1),
                ));
            }
            done.push(cur);
            cur = Vec::new();
            proof {
                assert(views_of(cur@) =~= Seq::<Seq<char>>::empty());
            }
        } else {
            let mut piece: Vec<char> = Vec::new();
            push_all(&mut piece, &lines[i]);
            proof {
                assert(piece@ =~= lv[i as int]);
                let r0 = split_plus(tail1);
                assert(split_plus(tail) == seq![seq![tail[0]] + r0[0]] + r0.skip(1));
                assert(split_plus(tail)[0] == seq![lv[i as int]] + r0[0]);
                assert(split_plus(tail).skip(1) =~= r0.skip(1));
                assert(views_of(cur@) + (seq![lv[i as int]] + r0[0]) =~= views_of(cur@).push(
                    lv[i as int],
                ) + r0[0]);
                assert(views_of(cur@.push(piece)) =~= views_of(cur@).push(lv[i as int]));
                assert(first_group_extended(views_of(cur@), split_plus(tail))
                    =~= first_group_extended(views_of(cur@.push(piece)), r0));
            }
            cur.push(piece);
        }
        i += 1;
    }
    proof {
        assert(lv.skip(n as int) =~= Seq::<Seq<char>>::empty());
        assert(split_plus(Seq::<Seq<char>>::empty()) == seq![Seq::<Seq<char>>::empty()]);
        assert(first_group_extended(views_of(cur@), split_plus(Seq::<Seq<char>>::empty()))
            =~= seq![views_of(cur@)]);
        assert(group_views(done@.push(cur)) =~= group_views(done@).push(views_of(cur@)));
        assert(group_views(done@) + seq![views_of(cur@)] =~= group_views(done@).push(
            views_of(cur@),
        ));
    }
    done.push(cur);
    done
}

// ---------------------------------------------------------------------------
// Idempotence of the filter pass
// ---------------------------------------------------------------------------

/// The unescape step of the filter pass.
pub open spec fn unescaped(s: Seq<char>) -> Seq<char> {
    replace_all(s, esc_marker(), seq![esc_char()])
}

/// `c` does not occur in `s`.
pub open spec fn char_free(s: Seq<char>, c: char) -> bool {
    forall|j: int| 0 <= j < s.len() ==> s[j] != c
}

proof fn lemma_split_pieces_clean(s: Seq<char>, c: char, i: int)
    requires
        0 <= i < split_char(s, c).len(),
    ensures
        char_free(split_char(s, c)[i], c),
    decreases s.len(),
{
    if s.len() == 0 {
    } else if s[0] == c {
        if i > 0 {
            lemma_split_pieces_clean(s.skip(1), c, i - 1);
        }
    } else {
        let rest = split_char(s.skip(1), c);
        crate::textops::lemma_split_char_min_len(s.skip(1), c);
        if i == 0 {
            lemma_split_pieces_clean(s.skip(1), c, 0);
            assert forall|j: int| 0 <= j < split_char(s, c)[0].len() implies split_char(s, c)[0][j]
                != c by {
                if j > 0 {
                    assert(split_char(s, c)[0][j] == rest[0][j - 1]);
                }
            }
        } else {
            lemma_split_pieces_clean(s.skip(1), c, i);
            assert(split_char(s, c)[i] == rest[i]);
        }
    }
}

proof fn lemma_kept_lines_prop(ls: Seq<Seq<char>>, c: char)
    requires
        forall|i: int| 0 <= i < ls.len() ==> char_free(#[trigger] ls[i], c),
    ensures
        forall|i: int|
            0 <= i < kept_lines(ls).len() ==> char_free(#[trigger] kept_lines(ls)[i], c)
                && keep_line(kept_lines(ls)[i]),
    decreases ls.len(),
{
    if ls.len() > 0 {
        assert forall|i: int| 0 <= i < ls.skip(1).len() implies char_free(
            #[trigger] ls.skip(1)[i],
            c,
        ) by {
            assert(ls.skip(1)[i] == ls[i + 1]);
        }
        lemma_kept_lines_prop(ls.skip(1), c);
        if keep_line(ls[0]) {
            assert forall|i: int| 0 <= i < kept_lines(ls).len() implies char_free(
                #[trigger] kept_lines(ls)[i],
                c,
            ) && keep_line(kept_lines(ls)[i]) by {
                if i > 0 {
                    assert(kept_lines(ls)[i] == kept_lines(ls.skip(1))[i - 1]);
                }
            }
        }
    }
}

proof fn lemma_kept_lines_all(ls: Seq<Seq<char>>)
    requires
        forall|i: int| 0 <= i < ls.len() ==> keep_line(#[trigger] ls[i]),
    ensures
        kept_lines(ls) == ls,
    decreases ls.len(),
{
    if ls.len() > 0 {
        assert forall|i: int| 0 <= i < ls.skip(1).len() implies keep_line(
            #[trigger] ls.skip(1)[i],
        ) by {
            assert(ls.skip(1)[i] == ls[i + 1]);
        }
        lemma_kept_lines_all(ls.skip(1));
        assert(kept_lines(ls) =~= ls);
    } else {
        assert(kept_lines(ls) =~= ls);
    }
}

/// Splitting sep-free text yields the text as its one piece.
proof fn lemma_split_clean(a: Seq<char>, c: char)
    requires
        char_free(a, c),
    ensures
        split_char(a, c) == seq![a],
    decreases a.len(),
{
    if a.len() == 0 {
        assert(a =~= Seq::<char>::empty());
        assert(split_char(a, c) =~~= seq![a]);
    } else {
        assert forall|j: int| 0 <= j < a.skip(1).len() implies a.skip(1)[j] != c by {
            assert(a.skip(1)[j] == a[j + 1]);
        }
        lemma_split_clean(a.skip(1), c);
        assert(seq![a[0]] + a.skip(1) =~= a);
        assert(split_char(a, c) =~~= seq![a]);
    }
}

/// Splitting sep-free text followed by the separator and a remainder
/// yields the text and then the remainder's pieces.
proof fn lemma_split_prefix(a: Seq<char>, rest: Seq<char>, c: char)
    requires
        char_free(a, c),
    ensures
        split_char(a + seq![c] + rest, c) == seq![a] + split_char(rest, c),
    decreases a.len(),
{
    let s = a + seq![c] + rest;
    if a.len() == 0 {
        assert(s =~= seq![c] + rest);
        assert(s[0] == c);
        assert(s.skip(1) =~= rest);
        assert(a =~= Seq::<char>::empty());
        assert(split_char(s, c) =~~= seq![a] + split_char(rest, c));
    } else {
        assert(s[0] == a[0]);
        assert(s.skip(1) =~= a.skip(1) + seq![c] + rest);
        assert forall|j: int| 0 <= j < a.skip(1).len() implies a.skip(1)[j] != c by {
            assert(a.skip(1)[j] == a[j + 1]);
        }
        lemma_split_prefix(a.skip(1), rest, c);
        let r0 = split_char(s.skip(1), c);
        crate::textops::lemma_split_char_min_len(rest, c);
        assert(r0 == seq![a.skip(1)] + split_char(rest, c));
        assert(r0[0] == a.skip(1));
        assert(seq![s[0]] + r0[0] =~= a);
        assert(r0.skip(1) =~= split_char(rest, c));
        assert(split_char(s, c) =~~= seq![a] + split_char(rest, c));
    }
}

/// Splitting a join of sep-free pieces gives the pieces back.
proof fn lemma_split_join(ps: Seq<Seq<char>>, c: char)
    requires
        ps.len() >= 1,
        forall|i: int| 0 <= i < ps.len() ==> char_free(#[trigger] ps[i], c),
    ensures
        split_char(join_with(ps, seq![c]), c) == ps,
    decreases ps.len(),
{
    if ps.len() == 1 {
        lemma_split_clean(ps[0], c);
        assert(split_char(join_with(ps, seq![c]), c) =~= ps);
    } else {
        assert forall|i: int| 0 <= i < ps.skip(1).len() implies char_free(
            #[trigger] ps.skip(1)[i],
            c,
        ) by {
            assert(ps.skip(1)[i] == ps[i + 1]);
        }
        lemma_split_join(ps.skip(1), c);
        assert(ps[0] + seq![c] + join_with(ps.skip(1), seq![c]) =~= join_with(ps, seq![c]));
        lemma_split_prefix(ps[0], join_with(ps.skip(1), seq![c]), c);
        assert(split_char(join_with(ps, seq![c]), c) =~= ps);
    }
}

/// Unescaping distributes over a newline: the marker holds no newline, so
/// no match spans one.
proof fn lemma_unescape_nl(a: Seq<char>, b: Seq<char>)
    ensures
        unescaped(a + seq!['\n'] + b) == unescaped(a) + seq!['\n'] + unescaped(b),
    decreases a.len(),
{
    let s = a + seq!['\n'] + b;
    if a.len() == 0 {
        assert(s =~= seq!['\n'] + b);
        if b.len() == 0 {
            assert(s.len() == 1);
            assert(unescaped(s) == s);
            assert(unescaped(b) == b);
            assert(unescaped(a) == a);
            assert(unescaped(a) + seq!['\n'] + unescaped(b) =~= s);
        } else {
            assert(s[0] == '\n');
            assert(!begins_with(s, esc_marker()));
            assert(s.skip(1) =~= b);
            assert(unescaped(s) == seq!['\n'] + unescaped(b));
            assert(unescaped(a) + seq!['\n'] + unescaped(b) =~= seq!['\n'] + unescaped(b));
        }
    } else if a.len() == 1 {
        assert(s[0] == a[0]);
        assert(s[1] == '\n');
        assert(!begins_with(s, esc_marker()));
        assert(s.skip(1) =~= Seq::<char>::empty() + seq!['\n'] + b);
        lemma_unescape_nl(Seq::<char>::empty(), b);
        assert(unescaped(a) == a);
        assert(unescaped(s) == seq![a[0]] + (Seq::<char>::empty() + seq!['\n'] + unescaped(b)));
        assert(seq![a[0]] + (Seq::<char>::empty() + seq!['\n'] + unescaped(b)) =~= unescaped(a)
            + seq!['\n'] + unescaped(b));
    } else {
        assert(s[0] == a[0]);
        assert(s[1] == a[1]);
        assert(s.skip(1) =~= a.skip(1) + seq!['\n'] + b);
        assert(s.skip(2) =~= a.skip(2) + seq!['\n'] + b);
        if begins_with(a, esc_marker()) {
            assert(begins_with(s, esc_marker())) by {
                assert(a.subrange(0, 2)[0] == a[0]);
                assert(a.subrange(0, 2)[1] == a[1]);
                assert(s.subrange(0, 2) =~= a.subrange(0, 2));
            }
            lemma_unescape_nl(a.skip(2), b);
            assert(unescaped(a) == seq![esc_char()] + unescaped(a.skip(2)));
            assert(unescaped(s) == seq![esc_char()] + (unescaped(a.skip(2)) + seq!['\n']
                + unescaped(b)));
            assert(seq![esc_char()] + (unescaped(a.skip(2)) + seq!['\n'] + unescaped(b))
                =~= unescaped(a) + seq!['\n'] + unescaped(b));
        } else {
            assert(!begins_with(s, esc_marker())) by {
                if begins_with(s, esc_marker()) {
                    assert(s.subrange(0, 2)[0] == s[0]);
                    assert(s.subrange(0, 2)[1] == s[1]);
                    assert(a.subrange(0, 2) =~= s.subrange(0, 2));
                }
            }
            assert(!begins_with(a, esc_marker()) ==> a.subrange(0, 2) != esc_marker());
            lemma_unescape_nl(a.skip(1), b);
            assert(unescaped(a) == seq![a[0]] + unescaped(a.skip(1)));
            assert(unescaped(s) == seq![a[0]] + (unescaped(a.skip(1)) + seq!['\n'] + unescaped(
                b,
            )));
            assert(seq![a[0]] + (unescaped(a.skip(1)) + seq!['\n'] + unescaped(b)) =~= unescaped(a)
                + seq!['\n'] + unescaped(b));
        }
    }
}

/// Unescaping a newline join unescapes the pieces.
proof fn lemma_unescape_join(ps: Seq<Seq<char>>)
    requires
        ps.len() >= 1,
    ensures
        unescaped(join_with(ps, seq!['\n'])) == join_with(
            ps.map_values(|l: Seq<char>| unescaped(l)),
            seq!['\n'],
        ),
    decreases ps.len(),
{
    let um = ps.map_values(|l: Seq<char>| unescaped(l));
    if ps.len() == 1 {
        assert(join_with(ps, seq!['\n']) == ps[0]);
        assert(um.len() == 1 && um[0] == unescaped(ps[0]));
        assert(join_with(um, seq!['\n']) == um[0]);
    } else {
        lemma_unescape_join(ps.skip(1));
        assert(join_with(ps, seq!['\n']) == ps[0] + seq!['\n'] + join_with(
            ps.skip(1),
            seq!['\n'],
        ));
        lemma_unescape_nl(ps[0], join_with(ps.skip(1), seq!['\n']));
        assert(ps.skip(1).map_values(|l: Seq<char>| unescaped(l)) =~= um.skip(1));
        assert(um[0] == unescaped(ps[0]));
        assert(join_with(um, seq!['\n']) == um[0] + seq!['\n'] + join_with(
            um.skip(1),
            seq!['\n'],
        ));
    }
}

/// The first character of an unescaped text is the original first
/// character or the ESC character.
proof fn lemma_unescape_first(t: Seq<char>)
    requires
        t.len() >= 1,
    ensures
        unescaped(t).len() >= 1,
        unescaped(t)[0] == esc_char() || unescaped(t)[0] == t[0],
{
    if t.len() < 2 {
        assert(unescaped(t) == t);
    } else if begins_with(t, esc_marker()) {
        assert(unescaped(t) == seq![esc_char()] + unescaped(t.skip(2)));
    } else {
        assert(unescaped(t) == seq![t[0]] + unescaped(t.skip(1)));
    }
}

/// An ESC-free prefix of an unescaped text was a prefix of the original.
proof fn lemma_unescape_prefix(q: Seq<char>, t: Seq<char>)
    requires
        char_free(q, esc_char()),
        begins_with(unescaped(t), q),
    ensures
        begins_with(t, q),
    decreases t.len(),
{
    if q.len() == 0 {
        assert(t.subrange(0, 0) =~= q);
    } else if t.len() < 2 {
        assert(unescaped(t) == t);
    } else if begins_with(t, esc_marker()) {
        assert(unescaped(t) == seq![esc_char()] + unescaped(t.skip(2)));
        assert(unescaped(t)[0] == esc_char());
        assert(unescaped(t).subrange(0, q.len() as int)[0] == unescaped(t)[0]);
        assert(q[0] == esc_char());
        assert(false);
    } else {
        assert(unescaped(t) == seq![t[0]] + unescaped(t.skip(1)));
        assert(unescaped(t).subrange(0, q.len() as int)[0] == unescaped(t)[0]);
        assert(q[0] == t[0]);
        assert forall|j: int| 0 <= j < q.skip(1).len() implies q.skip(1)[j] != esc_char() by {
            assert(q.skip(1)[j] == q[j + 1]);
        }
        assert(begins_with(unescaped(t.skip(1)), q.skip(1))) by {
            assert(q.skip(1).len() <= unescaped(t.skip(1)).len());
            assert(unescaped(t.skip(1)).subrange(0, q.skip(1).len() as int) =~= q.skip(1)) by {
                assert forall|j: int| 0 <= j < q.len() - 1 implies unescaped(t.skip(1))[j] == q[j
                    + 1] by {
                    assert(unescaped(t)[j + 1] == unescaped(t.skip(1))[j]);
                    assert(unescaped(t).subrange(0, q.len() as int)[j + 1] == unescaped(t)[j + 1]);
                }
            }
        }
        lemma_unescape_prefix(q.skip(1), t.skip(1));
        assert(t.subrange(0, q.len() as int) =~= q) by {
            assert forall|j: int| 0 <= j < q.len() implies t[j] == q[j] by {
                if j > 0 {
                    assert(t.skip(1).subrange(0, q.skip(1).len() as int)[j - 1] == t.skip(1)[j
                        - 1]);
                    assert(q.skip(1)[j - 1] == q[j]);
                }
            }
        }
    }
}

/// An ESC-free pattern found in an unescaped text was present in the
/// original.
proof fn lemma_unescape_occurs(p: Seq<char>, s: Seq<char>)
    requires
        char_free(p, esc_char()),
        p.len() >= 1,
        occurs_in(unescaped(s), p),
    ensures
        occurs_in(s, p),
    decreases s.len(),
{
    let u = unescaped(s);
    let i = choose|i: int| occurs_at(u, p, i);
    if i == 0 {
        assert(begins_with(u, p));
        lemma_unescape_prefix(p, s);
        assert(occurs_at(s, p, 0)) by {
            assert(s.subrange(0, p.len() as int) =~= p);
        }
    } else if s.len() < 2 {
        assert(u == s);
    } else if begins_with(s, esc_marker()) {
        assert(u == seq![esc_char()] + unescaped(s.skip(2)));
        assert(occurs_at(unescaped(s.skip(2)), p, i - 1)) by {
            assert(unescaped(s.skip(2)).subrange(i - 1, i - 1 + p.len() as int) =~= u.subrange(
                i,
                i + p.len() as int,
            ));
        }
        lemma_unescape_occurs(p, s.skip(2));
        let j = choose|j: int| occurs_at(s.skip(2), p, j);
        assert(occurs_at(s, p, j + 2)) by {
            assert(s.subrange(j + 2, j + 2 + p.len() as int) =~= s.skip(2).subrange(
                j,
                j + p.len() as int,
            ));
        }
    } else {
        assert(u == seq![s[0]] + unescaped(s.skip(1)));
        assert(occurs_at(unescaped(s.skip(1)), p, i - 1)) by {
            assert(unescaped(s.skip(1)).subrange(i - 1, i - 1 + p.len() as int) =~= u.subrange(
                i,
                i + p.len() as int,
            ));
        }
        lemma_unescape_occurs(p, s.skip(1));
        let j = choose|j: int| occurs_at(s.skip(1), p, j);
        assert(occurs_at(s, p, j + 1)) by {
            assert(s.subrange(j + 1, j + 1 + p.len() as int) =~= s.skip(1).subrange(
                j,
                j + p.len() as int,
            ));
        }
    }
}

/// Unescaping leaves no `\e` marker behind.
proof fn lemma_unescape_no_marker(s: Seq<char>)
    ensures
        !occurs_in(unescaped(s), esc_marker()),
    decreases s.len(),
{
    let u = unescaped(s);
    let em = esc_marker();
    if s.len() < 2 {
        assert(u == s);
        assert forall|i: int| !occurs_at(u, em, i) by {
            assert(u.len() < 2);
        }
    } else if begins_with(s, esc_marker()) {
        let u2 = unescaped(s.skip(2));
        assert(u == seq![esc_char()] + u2);
        lemma_unescape_no_marker(s.skip(2));
        assert forall|i: int| !occurs_at(u, em, i) by {
            if 0 <= i && i + 2 <= u.len() && u.subrange(i, i + 2) == em {
                if i == 0 {
                    assert(u.subrange(0, 2)[0] == u[0]);
                    assert(u[0] == esc_char());
                    assert(em[0] == '\\');
                    assert(false);
                } else {
                    assert(u.subrange(i, i + 2) =~= u2.subrange(i - 1, i + 1));
                    assert(occurs_at(u2, em, i - 1));
                    assert(false);
                }
            }
        }
    } else {
        let u1 = unescaped(s.skip(1));
        assert(u == seq![s[0]] + u1);
        lemma_unescape_no_marker(s.skip(1));
        assert forall|i: int| !occurs_at(u, em, i) by {
            if 0 <= i && i + 2 <= u.len() && u.subrange(i, i + 2) == em {
                if i == 0 {
                    assert(u.subrange(0, 2)[0] == u[0]);
                    assert(u.subrange(0, 2)[1] == u[1]);
                    assert(u[0] == '\\' && u[1] == 'e');
                    assert(s[0] == '\\');
                    lemma_unescape_first(s.skip(1));
                    assert(u[1] == u1[0]);
                    assert(u1[0] != esc_char());
                    assert(s.skip(1)[0] == 'e');
                    assert(s.skip(1)[0] == s[1]);
                    assert(begins_with(s, em)) by {
                        assert(s.subrange(0, 2) =~= em);
                    }
                    assert(false);
                } else {
                    assert(u.subrange(i, i + 2) =~= u1.subrange(i - 1, i + 1));
                    assert(occurs_at(u1, em, i - 1));
                    assert(false);
                }
            }
        }
    }
}

/// Replacing a pattern that does not occur changes nothing.
proof fn lemma_replace_absent(s: Seq<char>, p: Seq<char>, r: Seq<char>)
    requires
        p.len() >= 1,
        !occurs_in(s, p),
    ensures
        replace_all(s, p, r) == s,
    decreases s.len(),
{
    if s.len() < p.len() {
    } else if begins_with(s, p) {
        assert(occurs_at(s, p, 0));
        assert(false);
    } else {
        assert forall|j: int| !occurs_at(s.skip(1), p, j) by {
            if 0 <= j && j + p.len() <= s.skip(1).len() {
                if s.skip(1).subrange(j, j + p.len() as int) == p {
                    assert(s.subrange(j + 1, j + 1 + p.len() as int) =~= s.skip(1).subrange(
                        j,
                        j + p.len() as int,
                    ));
                    assert(occurs_at(s, p, j + 1));
                }
            }
        }
        lemma_replace_absent(s.skip(1), p, r);
        assert(seq![s[0]] + s.skip(1) =~= s);
    }
}

/// Unescaping keeps a newline-free line newline-free.
proof fn lemma_unescape_char_free(s: Seq<char>, c: char)
    requires
        char_free(s, c),
        c != esc_char(),
    ensures
        char_free(unescaped(s), c),
    decreases s.len(),
{
    let u = unescaped(s);
    if s.len() < 2 {
    } else if begins_with(s, esc_marker()) {
        assert forall|j: int| 0 <= j < s.skip(2).len() implies s.skip(2)[j] != c by {
            assert(s.skip(2)[j] == s[j + 2]);
        }
        lemma_unescape_char_free(s.skip(2), c);
        assert(u == seq![esc_char()] + unescaped(s.skip(2)));
        assert forall|j: int| 0 <= j < u.len() implies u[j] != c by {
            if j > 0 {
                assert(u[j] == unescaped(s.skip(2))[j - 1]);
            }
        }
    } else {
        assert forall|j: int| 0 <= j < s.skip(1).len() implies s.skip(1)[j] != c by {
            assert(s.skip(1)[j] == s[j + 1]);
        }
        lemma_unescape_char_free(s.skip(1), c);
        assert(u == seq![s[0]] + unescaped(s.skip(1)));
        assert forall|j: int| 0 <= j < u.len() implies u[j] != c by {
            if j > 0 {
                assert(u[j] == unescaped(s.skip(1))[j - 1]);
            }
        }
    }
}

/// A line the filter keeps is still kept after unescaping: unescaping
/// cannot create a comment prefix, a spacer prefix, a thought marker, or
/// an empty line.
proof fn lemma_keep_line_unescape(l: Seq<char>)
    requires
        keep_line(l),
    ensures
        keep_line(unescaped(l)),
{
    let u = unescaped(l);
    lemma_unescape_first(l);
    assert(u.len() >= 1);
    assert(char_free(comment_marker(), esc_char()));
    assert(char_free(spacer_marker(), esc_char()));
    assert(char_free(thoughts_marker(), esc_char()));
    if begins_with(u, comment_marker()) {
        lemma_unescape_prefix(comment_marker(), l);
        assert(false);
    }
    if begins_with(u, spacer_marker()) {
        lemma_unescape_prefix(spacer_marker(), l);
        assert(false);
    }
    if occurs_in(u, thoughts_marker()) {
        lemma_unescape_occurs(thoughts_marker(), l);
        assert(false);
    }
}

/// Idempotent stripping: applying the comment and marker filter to an
/// already-filtered body yields that body unchanged.
pub proof fn lemma_strip_idempotent(raw: Seq<char>)
    ensures
        strip_of(strip_of(raw)) == strip_of(raw),
{
    let ls = split_char(raw, '\n');
    let ks = kept_lines(ls);
    let y = strip_of(raw);
    assert(y == unescaped(join_with(ks, seq!['\n'])));
    assert forall|i: int| 0 <= i < ls.len() implies char_free(#[trigger] ls[i], '\n') by {
        lemma_split_pieces_clean(raw, '\n', i);
    }
    lemma_kept_lines_prop(ls, '\n');
    if ks.len() == 0 {
        assert(join_with(ks, seq!['\n']) == Seq::<char>::empty());
        assert(y == Seq::<char>::empty());
        assert(split_char(y, '\n') == seq![Seq::<char>::empty()]);
        assert(!keep_line(seq![Seq::<char>::empty()][0]));
        assert(split_char(y, '\n').skip(1) =~= Seq::<Seq<char>>::empty());
        assert(kept_lines(Seq::<Seq<char>>::empty()) == Seq::<Seq<char>>::empty());
        assert(kept_lines(split_char(y, '\n')) == Seq::<Seq<char>>::empty());
        assert(join_with(kept_lines(split_char(y, '\n')), seq!['\n']) == Seq::<char>::empty());
        assert(strip_of(y) == unescaped(Seq::<char>::empty()));
        assert(unescaped(Seq::<char>::empty()) == Seq::<char>::empty());
    } else {
        let um = ks.map_values(|l: Seq<char>| unescaped(l));
        lemma_unescape_join(ks);
        assert(y == join_with(um, seq!['\n']));
        assert forall|i: int| 0 <= i < um.len() implies char_free(#[trigger] um[i], '\n')
            && keep_line(um[i]) by {
            assert(um[i] == unescaped(ks[i]));
            lemma_unescape_char_free(ks[i], '\n');
            lemma_keep_line_unescape(ks[i]);
        }
        lemma_split_join(um, '\n');
        assert(split_char(y, '\n') == um);
        lemma_kept_lines_all(um);
        assert(kept_lines(split_char(y, '\n')) == um);
        assert(join_with(kept_lines(split_char(y, '\n')), seq!['\n']) == y);
        lemma_unescape_no_marker(join_with(ks, seq!['\n']));
        lemma_replace_absent(y, esc_marker(), seq![esc_char()]);
        assert(strip_of(y) == y);
    }
}

/// The whole template parsed: filter, split into sub-templates, parse each,
/// concatenate with two blank lines between, trim.
pub open spec fn parse_of(raw: Seq<char>, voice: Seq<char>) -> Seq<char> {
    let groups = split_plus(split_char(strip_of(raw), '\n'));
    trim_end_spec(
        join_with(
            groups.map_values(|g: Seq<Seq<char>>| sub_parsed(g, voice)),
            seq!['\n', '\n', '\n'],
        ),
    )
}

/// Parse a raw template body into the fully substituted text block, with
/// `voice` standing at every voice marker.
pub fn parse_template(raw: &str, voice: &str) -> (r: String)
    ensures
        r@ == parse_of(raw@, voice@),
{
    let rv = chars_of(raw);
    let stripped = strip_chars(&rv);
    let lines = split_char_chars(&stripped, '\n');
    let groups = split_plus_exec(&lines);
    let vv = chars_of(voice);
    let ghost gvs = group_views(groups@);
    let n: usize = groups.len();
    let mut outs: Vec<Vec<char>> = Vec::new();
    let mut i: usize = 0;
    while i < n
        invariant
            n == groups@.len(),
            i <= n,
            gvs == group_views(groups@),
            vv@ == voice@,
            outs@.len() == i,
            forall|k: int| 0 <= k < i ==> outs@[k]@ == sub_parsed(gvs[k], voice@),
        decreases n - i,
    {
        let parsed = parse_sub(&groups[i], &vv);
        outs.push(parsed);
        i += 1;
    }
    proof {
        assert(views_of(outs@) =~= gvs.map_values(|g: Seq<Seq<char>>| sub_parsed(g, voice@)));
    }
    let mut sep: Vec<char> = Vec::new();
    sep.push('\n');
    sep.push('\n');
    sep.push('\n');
    proof {
        assert(sep@ =~= seq!['\n', '\n', '\n']);
    }
    let joined = join_with_chars(&outs, &sep);
    let trimmed = trim_end_chars(&joined);
    string_from_chars(&trimmed)
}

} // verus!
