//! Verified utilities over character sequences: searching, splitting,
//! joining, replacing and trimming.  All executable functions are proved
//! against small recursive spec functions on `Seq<char>`.

use vstd::prelude::*;

verus! {

// ---------------------------------------------------------------------------
// Spec-level definitions
// ---------------------------------------------------------------------------

/// `p` is a prefix of `s`.
pub open spec fn begins_with(s: Seq<char>, p: Seq<char>) -> bool {
    p.len() <= s.len() && s.subrange(0, p.len() as int) == p
}

/// `p` occurs in `s` at position `i`.
pub open spec fn occurs_at(s: Seq<char>, p: Seq<char>, i: int) -> bool {
    0 <= i && i + p.len() <= s.len() && s.subrange(i, i + p.len() as int) == p
}

/// `p` occurs somewhere in `s`.
pub open spec fn occurs_in(s: Seq<char>, p: Seq<char>) -> bool {
    exists|i: int| occurs_at(s, p, i)
}

/// Index of the first occurrence of the character `c` in `s`, or -1.
pub open spec fn find_char(s: Seq<char>, c: char) -> int
    decreases s.len(),
{
    if s.len() == 0 {
        -1
    } else if s[0] == c {
        0
    } else {
        let r = find_char(s.skip(1), c);
        if r < 0 {
            -1
        } else {
            r + 1
        }
    }
}

/// Replace every occurrence of `pat` in `s` by `rep`, scanning left to
/// right without overlap, exactly as `str::replace` does.
pub open spec fn replace_all(s: Seq<char>, pat: Seq<char>, rep: Seq<char>) -> Seq<char>
    decreases s.len(),
{
    if pat.len() == 0 || s.len() < pat.len() {
        s
    } else if begins_with(s, pat) {
        rep + replace_all(s.skip(pat.len() as int), pat, rep)
    } else {
        seq![s[0]] + replace_all(s.skip(1), pat, rep)
    }
}

/// Split `s` at every occurrence of the character `sep`; the result always
/// holds at least one piece and no piece holds `sep`.
pub open spec fn split_char(s: Seq<char>, sep: char) -> Seq<Seq<char>>
    decreases s.len(),
{
    if s.len() == 0 {
        seq![Seq::<char>::empty()]
    } else if s[0] == sep {
        seq![Seq::<char>::empty()] + split_char(s.skip(1), sep)
    } else {
        let rest = split_char(s.skip(1), sep);
        seq![seq![s[0]] + rest[0]] + rest.skip(1)
    }
}

/// Concatenate the pieces with `sep` between consecutive pieces.
pub open spec fn join_with(ps: Seq<Seq<char>>, sep: Seq<char>) -> Seq<char>
    decreases ps.len(),
{
    if ps.len() == 0 {
        Seq::empty()
    } else if ps.len() == 1 {
        ps[0]
    } else {
        ps[0] + sep + join_with(ps.skip(1), sep)
    }
}

/// Tab characters expanded to four spaces each.
pub open spec fn expand_tabs(s: Seq<char>) -> Seq<char> {
    replace_all(s, seq!['\t'], seq![' ', ' ', ' ', ' '])
}

/// The whitespace characters of Rust's `char::is_whitespace`.
pub open spec fn is_space_char(c: char) -> bool {
    let u = c as int;
    u == 0x20 || u == 0x09 || u == 0x0a || u == 0x0d || u == 0x0b || u == 0x0c || u == 0x85
        || u == 0xa0 || u == 0x1680 || (0x2000 <= u && u <= 0x200a) || u == 0x2028 || u == 0x2029
        || u == 0x202f || u == 0x205f || u == 0x3000
}

/// `s` without its trailing whitespace.
pub open spec fn trim_end_spec(s: Seq<char>) -> Seq<char>
    decreases s.len(),
{
    if s.len() > 0 && is_space_char(s[s.len() - 1]) {
        trim_end_spec(s.drop_last())
    } else {
        s
    }
}

/// The views of a vector of character vectors.
pub open spec fn views_of(vs: Seq<Vec<char>>) -> Seq<Seq<char>> {
    vs.map_values(|v: Vec<char>| v@)
}

// ---------------------------------------------------------------------------
// Lemmas
// ---------------------------------------------------------------------------

pub proof fn lemma_find_char_at(s: Seq<char>, c: char, i: int)
    requires
        0 <= i < s.len(),
        s[i] == c,
        forall|j: int| 0 <= j < i ==> s[j] != c,
    ensures
        find_char(s, c) == i,
    decreases s.len(),
{
    if i > 0 {
        assert forall|j: int| 0 <= j < i - 1 implies s.skip(1)[j] != c by {
            assert(s.skip(1)[j] == s[j + 1]);
        }
        assert(s.skip(1)[i - 1] == s[i]);
        lemma_find_char_at(s.skip(1), c, i - 1);
    }
}

pub proof fn lemma_find_char_none(s: Seq<char>, c: char)
    requires
        forall|j: int| 0 <= j < s.len() ==> s[j] != c,
    ensures
        find_char(s, c) == -1,
    decreases s.len(),
{
    if s.len() > 0 {
        assert forall|j: int| 0 <= j < s.skip(1).len() implies s.skip(1)[j] != c by {
            assert(s.skip(1)[j] == s[j + 1]);
        }
        lemma_find_char_none(s.skip(1), c);
    }
}

pub proof fn lemma_split_char_min_len(s: Seq<char>, sep: char)
    ensures
        split_char(s, sep).len() >= 1,
    decreases s.len(),
{
    if s.len() > 0 {
        lemma_split_char_min_len(s.skip(1), sep);
    }
}

/// A pending piece with no separator in it extends the first piece of the
/// remainder's decomposition.
pub open spec fn first_extended(c: Seq<char>, ps: Seq<Seq<char>>) -> Seq<Seq<char>> {
    seq![c + ps[0]] + ps.skip(1)
}

pub proof fn lemma_first_extended_empty(ps: Seq<Seq<char>>)
    requires
        ps.len() >= 1,
    ensures
        first_extended(Seq::<char>::empty(), ps) == ps,
{
    assert(Seq::<char>::empty() + ps[0] =~= ps[0]);
    assert(first_extended(Seq::<char>::empty(), ps) =~= ps);
}

// ---------------------------------------------------------------------------
// Executable counterparts
// ---------------------------------------------------------------------------

pub fn is_space(c: char) -> (b: bool)
    ensures
        b == is_space_char(c),
{
    let u = c as u32;
    u == 0x20 || u == 0x09 || u == 0x0a || u == 0x0d || u == 0x0b || u == 0x0c || u == 0x85
        || u == 0xa0 || u == 0x1680 || (0x2000 <= u && u <= 0x200a) || u == 0x2028 || u == 0x2029
        || u == 0x202f || u == 0x205f || u == 0x3000
}

/// Does `p` occur in `s` at position `i`?
pub fn matches_at(s: &Vec<char>, i: usize, p: &Vec<char>) -> (b: bool)
    requires
        i <= s@.len(),
    ensures
        b == occurs_at(s@, p@, i as int),
{
    let n: usize = s.len();
    if n - i < p.len() {
        return false;
    }
    let ghost sub = s@.subrange(i as int, i as int + p@.len() as int);
    let mut j: usize = 0;
    while j < p.len()
        invariant
            n == s@.len(),
            i + p@.len() <= n,
            j <= p@.len(),
            sub == s@.subrange(i as int, i as int + p@.len() as int),
            forall|k: int| 0 <= k < j ==> s@[i + k] == p@[k],
        decreases p@.len() - j,
    {
        if s[i + j] != p[j] {
            proof {
                assert(sub[j as int] == s@[i + j]);
            }
            return false;
        }
        j += 1;
    }
    proof {
        assert(sub =~= p@);
    }
    true
}

/// Does `p` occur anywhere in `s`?
pub fn contains_chars(s: &Vec<char>, p: &Vec<char>) -> (b: bool)
    requires
        p@.len() >= 1,
    ensures
        b == occurs_in(s@, p@),
{
    let n: usize = s.len();
    let m: usize = p.len();
    if n < m {
        assert(forall|i: int| !occurs_at(s@, p@, i));
        return false;
    }
    let mut i: usize = 0;
    while i <= n - m
        invariant
            n == s@.len(),
            m == p@.len(),
            1 <= m <= n,
            i <= n - m + 1,
            forall|k: int| 0 <= k < i ==> !occurs_at(s@, p@, k),
        decreases n - i,
    {
        if matches_at(s, i, p) {
            return true;
        }
        i += 1;
    }
    assert(forall|k: int| !occurs_at(s@, p@, k));
    false
}

/// Does `s` begin with `p`?
pub fn begins_with_chars(s: &Vec<char>, p: &Vec<char>) -> (b: bool)
    ensures
        b == begins_with(s@, p@),
{
    matches_at(s, 0, p)
}

/// First position of `c` in `s` at or after `from`.
pub fn find_char_from(s: &Vec<char>, from: usize, c: char) -> (r: Option<usize>)
    requires
        from <= s@.len(),
    ensures
        match r {
            Some(k) => from <= k < s@.len() && s@[k as int] == c && find_char(
                s@.skip(from as int),
                c,
            ) == k - from && forall|j: int| from <= j < k ==> s@[j] != c,
            None => find_char(s@.skip(from as int), c) == -1 && forall|j: int|
                from <= j < s@.len() ==> s@[j] != c,
        },
{
    let ghost tail = s@.skip(from as int);
    let mut i: usize = from;
    while i < s.len()
        invariant
            from <= i <= s@.len(),
            tail == s@.skip(from as int),
            forall|j: int| from <= j < i ==> s@[j] != c,
        decreases s@.len() - i,
    {
        if s[i] == c {
            proof {
                assert(tail[i - from] == s@[i as int]);
                assert forall|j: int| 0 <= j < i - from implies tail[j] != c by {
                    assert(tail[j] == s@[j + from]);
                }
                lemma_find_char_at(tail, c, i - from);
            }
            return Some(i);
        }
        i += 1;
    }
    proof {
        assert forall|j: int| 0 <= j < tail.len() implies tail[j] != c by {
            assert(tail[j] == s@[j + from]);
        }
        lemma_find_char_none(tail, c);
    }
    None
}

/// Replace every occurrence of `pat` by `rep`, left to right.
pub fn replace_all_chars(s: &Vec<char>, pat: &Vec<char>, rep: &Vec<char>) -> (r: Vec<char>)
    requires
        pat@.len() >= 1,
    ensures
        r@ == replace_all(s@, pat@, rep@),
{
    let mut out: Vec<char> = Vec::new();
    let mut i: usize = 0;
    let n: usize = s.len();
    proof {
        assert(s@.skip(0) =~= s@);
        assert(Seq::<char>::empty() + replace_all(s@, pat@, rep@) =~= replace_all(
            s@,
            pat@,
            rep@,
        ));
    }
    while i < n
        invariant
            n == s@.len(),
            i <= n,
            pat@.len() >= 1,
            replace_all(s@, pat@, rep@) == out@ + replace_all(s@.skip(i as int), pat@, rep@),
        decreases s@.len() - i,
    {
        let ghost tail = s@.skip(i as int);
        if matches_at(s, i, pat) {
            proof {
                assert(tail.subrange(0, pat@.len() as int) =~= s@.subrange(
                    i as int,
                    i as int + pat@.len() as int,
                ));
                assert(begins_with(tail, pat@));
                assert(tail.skip(pat@.len() as int) =~= s@.skip(i as int + pat@.len() as int));
            }
            let ghost out0 = out@;
            let mut j: usize = 0;
            while j < rep.len()
                invariant
                    j <= rep@.len(),
                    out@ == out0 + rep@.subrange(0, j as int),
                decreases rep@.len() - j,
            {
                out.push(rep[j]);
                proof {
                    assert(out0 + rep@.subrange(0, j as int).push(rep@[j as int]) =~= out0
                        + rep@.subrange(0, j + 1));
                }
                j += 1;
            }
            proof {
                assert(out0 + rep@.subrange(0, rep@.len() as int) =~= out0 + rep@);
            }
            i += pat.len();
        } else {
            proof {
                if tail.len() >= pat@.len() {
                    assert(tail.subrange(0, pat@.len() as int) =~= s@.subrange(
                        i as int,
                        i as int + pat@.len() as int,
                    ));
                    assert(!begins_with(tail, pat@));
                }
                assert(tail.skip(1) =~= s@.skip(i as int + 1));
                assert(seq![s@[i as int]] + s@.skip(i as int + 1) =~= tail);
            }
            out.push(s[i]);
            i += 1;
        }
    }
    proof {
        assert(s@.skip(s@.len() as int) =~= Seq::<char>::empty());
        assert(out@ + Seq::<char>::empty() =~= out@);
    }
    out
}

pub proof fn lemma_join_with_push(ps: Seq<Seq<char>>, sep: Seq<char>, x: Seq<char>)
    ensures
        join_with(ps.push(x), sep) == if ps.len() == 0 {
            x
        } else {
            join_with(ps, sep) + sep + x
        },
    decreases ps.len(),
{
    let q = ps.push(x);
    if ps.len() == 0 {
        assert(q[0] == x);
    } else if ps.len() == 1 {
        assert(q[0] == ps[0]);
        assert(q.skip(1) =~= seq![x]);
        assert(join_with(q.skip(1), sep) == x);
    } else {
        assert(q[0] == ps[0]);
        assert(q.skip(1) =~= ps.skip(1).push(x));
        lemma_join_with_push(ps.skip(1), sep, x);
        assert(ps[0] + sep + (join_with(ps.skip(1), sep) + sep + x) =~= (ps[0] + sep + join_with(
            ps.skip(1),
            sep,
        )) + sep + x);
    }
}

/// Append every character of `piece` to `out`.
pub fn push_all(out: &mut Vec<char>, piece: &Vec<char>)
    ensures
        final(out)@ == old(out)@ + piece@,
{
    let n: usize = piece.len();
    let mut i: usize = 0;
    proof {
        assert(out@ + piece@.subrange(0, 0) =~= out@);
    }
    while i < n
        invariant
            n == piece@.len(),
            i <= n,
            out@ == old(out)@ + piece@.subrange(0, i as int),
        decreases n - i,
    {
        out.push(piece[i]);
        proof {
            assert(old(out)@ + piece@.subrange(0, i as int).push(piece@[i as int]) =~= old(out)@
                + piece@.subrange(0, i + 1));
        }
        i += 1;
    }
    proof {
        assert(piece@.subrange(0, n as int) =~= piece@);
    }
}

/// Concatenate the pieces, putting `sep` between consecutive ones.
pub fn join_with_chars(ps: &Vec<Vec<char>>, sep: &Vec<char>) -> (r: Vec<char>)
    ensures
        r@ == join_with(views_of(ps@), sep@),
{
    let mut out: Vec<char> = Vec::new();
    let n: usize = ps.len();
    if n == 0 {
        return out;
    }
    push_all(&mut out, &ps[0]);
    proof {
        assert(views_of(ps@).subrange(0, 1) =~= seq![ps@[0]@]);
        assert(Seq::<char>::empty() + ps@[0]@ =~= ps@[0]@);
    }
    let mut i: usize = 1;
    while i < n
        invariant
            n == ps@.len(),
            1 <= i <= n,
            out@ == join_with(views_of(ps@).subrange(0, i as int), sep@),
        decreases n - i,
    {
        push_all(&mut out, sep);
        push_all(&mut out, &ps[i]);
        proof {
            let pre = views_of(ps@).subrange(0, i as int);
            lemma_join_with_push(pre, sep@, ps@[i as int]@);
            assert(pre.push(ps@[i as int]@) =~= views_of(ps@).subrange(0, i + 1));
        }
        i += 1;
    }
    proof {
        assert(views_of(ps@).subrange(0, n as int) =~= views_of(ps@));
    }
    out
}

/// Split at every occurrence of `sep`.
pub fn split_char_chars(s: &Vec<char>, sep: char) -> (r: Vec<Vec<char>>)
    ensures
        views_of(r@) == split_char(s@, sep),
{
    let n: usize = s.len();
    let mut done: Vec<Vec<char>> = Vec::new();
    let mut cur: Vec<char> = Vec::new();
    let mut i: usize = 0;
    proof {
        lemma_split_char_min_len(s@, sep);
        lemma_first_extended_empty(split_char(s@, sep));
        assert(s@.skip(0) =~= s@);
        assert(views_of(done@) + first_extended(cur@, split_char(s@.skip(0), sep)) =~= split_char(
            s@,
            sep,
        ));
    }
    while i < n
        invariant
            n == s@.len(),
            i <= n,
            split_char(s@, sep) == views_of(done@) + first_extended(
                cur@,
                split_char(s@.skip(i as int), sep),
            ),
        decreases n - i,
    {
        let ghost tail = s@.skip(i as int);
        let ghost tail1 = s@.skip(i as int + 1);
        proof {
            assert(tail[0] == s@[i as int]);
            assert(tail.skip(1) =~= tail1);
            lemma_split_char_min_len(tail1, sep);
        }
        let c = s[i];
        if c == sep {
            proof {
                // split of the tail begins with an empty piece
                assert(split_char(tail, sep) == seq![Seq::<char>::empty()] + split_char(
                    tail1,
                    sep,
                ));
                assert(split_char(tail, sep)[0] =~= Seq::<char>::empty());
                assert(split_char(tail, sep).skip(1) =~= split_char(tail1, sep));
                assert(cur@ + Seq::<char>::empty() =~= cur@);
                lemma_first_extended_empty(split_char(tail1, sep));
                assert(views_of(done@.push(cur)) =~= views_of(done@).push(cur@));
                assert(views_of(done@) + first_extended(cur@, split_char(tail, sep))
                    =~= views_of(done@.push(cur)) + first_extended(
                    Seq::<char>::empty(),
                    split_char(tail1, sep),
                ));
            }
            done.push(cur);
            cur = Vec::new();
        } else {
            proof {
                let r0 = split_char(tail1, sep);
                assert(split_char(tail, sep) == seq![seq![tail[0]] + r0[0]] + r0.skip(1));
                assert(split_char(tail, sep)[0] == seq![c] + r0[0]);
                assert(split_char(tail, sep).skip(1) =~= r0.skip(1));
                assert(cur@ + (seq![c] + r0[0]) =~= cur@.push(c) + r0[0]);
                assert(first_extended(cur@, split_char(tail, sep)) =~= first_extended(
                    cur@.push(c),
                    r0,
                ));
            }
            cur.push(c);
        }
        i += 1;
    }
    proof {
        assert(s@.skip(n as int) =~= Seq::<char>::empty());
        assert(split_char(Seq::<char>::empty(), sep) == seq![Seq::<char>::empty()]);
        assert(first_extended(cur@, split_char(Seq::<char>::empty(), sep)) =~= seq![cur@]);
        assert(views_of(done@.push(cur)) =~= views_of(done@).push(cur@));
        assert(views_of(done@) + seq![cur@] =~= views_of(done@).push(cur@));
    }
    done.push(cur);
    done
}

/// The characters of `s` from `a` (inclusive) to `b` (exclusive).
pub fn copy_range(s: &Vec<char>, a: usize, b: usize) -> (r: Vec<char>)
    requires
        a <= b <= s@.len(),
    ensures
        r@ == s@.subrange(a as int, b as int),
{
    let mut out: Vec<char> = Vec::new();
    let mut i: usize = a;
    proof {
        assert(s@.subrange(a as int, a as int) =~= Seq::<char>::empty());
    }
    while i < b
        invariant
            a <= i <= b <= s@.len(),
            out@ == s@.subrange(a as int, i as int),
        decreases b - i,
    {
        out.push(s[i]);
        proof {
            assert(s@.subrange(a as int, i as int).push(s@[i as int]) =~= s@.subrange(
                a as int,
                i + 1,
            ));
        }
        i += 1;
    }
    out
}

/// Remove trailing whitespace.
pub fn trim_end_chars(s: &Vec<char>) -> (r: Vec<char>)
    ensures
        r@ == trim_end_spec(s@),
{
    let mut j: usize = s.len();
    proof {
        assert(s@.subrange(0, s@.len() as int) =~= s@);
    }
    while j > 0 && is_space(s[j - 1])
        invariant
            j <= s@.len(),
            trim_end_spec(s@) == trim_end_spec(s@.subrange(0, j as int)),
        decreases j,
    {
        proof {
            assert(s@.subrange(0, j as int).drop_last() =~= s@.subrange(0, j - 1));
        }
        j -= 1;
    }
    proof {
        assert(trim_end_spec(s@.subrange(0, j as int)) == s@.subrange(0, j as int));
    }
    let mut out: Vec<char> = Vec::new();
    let mut i: usize = 0;
    while i < j
        invariant
            i <= j <= s@.len(),
            out@ == s@.subrange(0, i as int),
        decreases j - i,
    {
        out.push(s[i]);
        proof {
            assert(s@.subrange(0, i as int).push(s@[i as int]) =~= s@.subrange(0, i + 1));
        }
        i += 1;
    }
    out
}

} // verus!
