//! Character-level helpers over `str`, stated over `Seq<char>`.

use vstd::prelude::*;

verus! {

/// `s` ends with `suffix`.
pub open spec fn seq_ends_with(s: Seq<char>, suffix: Seq<char>) -> bool {
    suffix.len() <= s.len() && s.subrange(s.len() - suffix.len(), s.len() as int) == suffix
}

/// `s` starts with `prefix`.
pub open spec fn seq_starts_with(s: Seq<char>, prefix: Seq<char>) -> bool {
    prefix.len() <= s.len() && s.subrange(0, prefix.len() as int) == prefix
}

/// `s` with every leading repetition of a non-empty `pattern` removed
/// (what `str::trim_start_matches` does with a string pattern).
pub open spec fn seq_trim_start_matches(s: Seq<char>, pattern: Seq<char>) -> Seq<char>
    decreases s.len(),
{
    if pattern.len() > 0 && seq_starts_with(s, pattern) {
        seq_trim_start_matches(s.skip(pattern.len() as int), pattern)
    } else {
        s
    }
}

/// The characters of `s`, in order.
pub fn chars_of(s: &str) -> (r: Vec<char>)
    ensures
        r@ == s@,
{
    let mut r: Vec<char> = Vec::new();
    for c in it: s.chars()
        invariant
            r@ == it.seq().take(it.index() as int),
    {
        r.push(c);
    }
    r
}

/// Whether the characters in `a` equal those in `b`.
pub fn seq_eq(a: &[char], b: &[char]) -> (r: bool)
    ensures
        r == (a@ == b@),
{
    if a.len() != b.len() {
        return false;
    }
    let mut i: usize = 0;
    while i < a.len()
        invariant
            a.len() == b.len(),
            i <= a.len(),
            forall|j: int| 0 <= j < i ==> a@[j] == b@[j],
        decreases a.len() - i,
    {
        if a[i] != b[i] {
            return false;
        }
        i = i + 1;
    }
    assert(a@ =~= b@);
    true
}

/// Whether `s` equals the literal `lit`.
pub fn eq_lit(s: &[char], lit: &str) -> (r: bool)
    ensures
        r == (s@ == lit@),
{
    let l = chars_of(lit);
    seq_eq(s, l.as_slice())
}

/// Whether `s` ends with the literal `suffix`.
pub fn ends_with_lit(s: &[char], suffix: &str) -> (r: bool)
    ensures
        r == seq_ends_with(s@, suffix@),
{
    let p = chars_of(suffix);
    if p.len() > s.len() {
        return false;
    }
    let off = s.len() - p.len();
    let mut i: usize = 0;
    while i < p.len()
        invariant
            off + p.len() == s.len(),
            p@ == suffix@,
            i <= p.len(),
            forall|j: int| 0 <= j < i ==> s@[off + j] == p@[j],
        decreases p.len() - i,
    {
        if s[off + i] != p[i] {
            let ghost sub = s@.subrange(off as int, s@.len() as int);
            assert(sub[i as int] == s@[off + i]);
            assert(sub[i as int] != suffix@[i as int]);
            return false;
        }
        i = i + 1;
    }
    assert(s@.subrange(off as int, s@.len() as int) =~= p@);
    true
}

/// Whether `s` starts with `prefix`.
pub fn starts_with(s: &[char], prefix: &[char]) -> (r: bool)
    ensures
        r == seq_starts_with(s@, prefix@),
{
    if prefix.len() > s.len() {
        return false;
    }
    let mut i: usize = 0;
    while i < prefix.len()
        invariant
            prefix.len() <= s.len(),
            i <= prefix.len(),
            forall|j: int| 0 <= j < i ==> s@[j] == prefix@[j],
        decreases prefix.len() - i,
    {
        if s[i] != prefix[i] {
            assert(s@.subrange(0, prefix@.len() as int)[i as int] != prefix@[i as int]);
            return false;
        }
        i = i + 1;
    }
    assert(s@.subrange(0, prefix@.len() as int) =~= prefix@);
    true
}

/// `s` without its leading repetitions of the literal `pattern`
/// (`str::trim_start_matches` with a string pattern).
pub fn trim_start_matches_lit(s: &[char], pattern: &str) -> (r: Vec<char>)
    ensures
        r@ == seq_trim_start_matches(s@, pattern@),
{
    let p = chars_of(pattern);
    let mut start: usize = 0;
    if p.len() == 0 {
        return vstd::slice::slice_to_vec(s);
    }
    assert(s@.skip(0) =~= s@);
    loop
        invariant
            start <= s.len(),
            p@ == pattern@,
            p.len() > 0,
            seq_trim_start_matches(s@.skip(start as int), p@) == seq_trim_start_matches(s@, p@),
        decreases s.len() - start,
    {
        let rest = vstd::slice::slice_subrange(s, start, s.len());
        if starts_with(rest, p.as_slice()) {
            assert(rest@ =~= s@.skip(start as int));
            assert(rest@.skip(p@.len() as int) =~= s@.skip(start + p@.len()));
            start = start + p.len();
        } else {
            return vstd::slice::slice_to_vec(rest);
        }
    }
}

/// The pieces of `s` between single spaces, as `str::split(' ')` gives
/// them: empty pieces stand between adjacent spaces and before a leading or
/// after a trailing space; there is always at least one piece.
pub open spec fn split_spaces(s: Seq<char>) -> Seq<Seq<char>>
    decreases s.len(),
{
    if s.len() == 0 {
        seq![Seq::<char>::empty()]
    } else {
        let rest = split_spaces(s.drop_last());
        if s.last() == ' ' {
            rest.push(Seq::empty())
        } else {
            rest.update(rest.len() - 1, rest.last().push(s.last()))
        }
    }
}

/// The non-empty pieces of `pieces`, in order.
pub open spec fn nonempty_pieces(pieces: Seq<Seq<char>>) -> Seq<Seq<char>>
    decreases pieces.len(),
{
    if pieces.len() == 0 {
        Seq::empty()
    } else if pieces.last().len() == 0 {
        nonempty_pieces(pieces.drop_last())
    } else {
        nonempty_pieces(pieces.drop_last()).push(pieces.last())
    }
}

/// The pieces of `input` between single spaces (see `split_spaces`).
pub fn split_spaces_of(input: &str) -> (r: Vec<String>)
    ensures
        r@.map_values(|w: String| w@) == split_spaces(input@),
{
    let c = chars_of(input);
    let mut done: Vec<String> = Vec::new();
    let mut start: usize = 0;
    let mut i: usize = 0;
    proof {
        assert(input@.take(0) =~= Seq::<char>::empty());
        assert(input@.subrange(0, 0) =~= Seq::<char>::empty());
        assert(done@.map_values(|w: String| w@).push(input@.subrange(0, 0)) =~= split_spaces(input@.take(0)));
    }
    while i < c.len()
        invariant
            c@ == input@,
            start <= i <= c@.len(),
            split_spaces(input@.take(i as int)) == done@.map_values(|w: String| w@).push(input@.subrange(start as int, i as int)),
        decreases c@.len() - i,
    {
        let ghost before = done@.map_values(|w: String| w@);
        let ghost s0 = start as int;
        let ghost t1 = input@.take(i + 1);
        proof {
            assert(t1.drop_last() =~= input@.take(i as int));
            assert(t1.last() == input@[i as int]);
            assert(split_spaces(input@.take(i as int)) == before.push(input@.subrange(s0, i as int)));
        }
        if c[i] == ' ' {
            let piece = input.substring_char(start, i);
            done.push(String::from_str(piece));
            start = i + 1;
            proof {
                assert(done@.map_values(|w: String| w@) =~= before.push(input@.subrange(s0, i as int)));
                assert(split_spaces(t1) == before.push(input@.subrange(s0, i as int)).push(Seq::<char>::empty()));
                assert(input@.subrange(i + 1, i + 1) =~= Seq::<char>::empty());
                assert(split_spaces(t1) =~= done@.map_values(|w: String| w@).push(input@.subrange(start as int, i + 1)));
            }
        } else {
            proof {
                let rest = before.push(input@.subrange(s0, i as int));
                assert(split_spaces(t1) == rest.update(rest.len() - 1, rest.last().push(input@[i as int])));
                assert(input@.subrange(s0, i + 1) =~= input@.subrange(s0, i as int).push(input@[i as int]));
                assert(split_spaces(t1) =~= done@.map_values(|w: String| w@).push(input@.subrange(start as int, i + 1)));
            }
        }
        i = i + 1;
    }
    let last = input.substring_char(start, i);
    done.push(String::from_str(last));
    proof {
        assert(input@.take(i as int) =~= input@);
        assert(done@.map_values(|w: String| w@) =~= split_spaces(input@));
    }
    done
}

/// The non-empty words of `input` between spaces.
pub fn split_words(input: &str) -> (r: Vec<String>)
    ensures
        r@.map_values(|w: String| w@) == nonempty_pieces(split_spaces(input@)),
{
    let pieces = split_spaces_of(input);
    let ghost ps = pieces@.map_values(|w: String| w@);
    let mut out: Vec<String> = Vec::new();
    let mut k: usize = 0;
    proof {
        assert(ps.take(0) =~= Seq::<Seq<char>>::empty());
        assert(out@.map_values(|w: String| w@) =~= nonempty_pieces(ps.take(0)));
    }
    while k < pieces.len()
        invariant
            k <= pieces@.len(),
            ps == pieces@.map_values(|w: String| w@),
            out@.map_values(|w: String| w@) == nonempty_pieces(ps.take(k as int)),
        decreases pieces@.len() - k,
    {
        let ghost before = out@.map_values(|w: String| w@);
        proof {
            assert(ps.take(k + 1).drop_last() =~= ps.take(k as int));
            assert(ps.take(k + 1).last() == ps[k as int]);
            assert(ps[k as int] == pieces@[k as int]@);
        }
        let w = &pieces[k];
        if w.as_str().unicode_len() > 0 {
            out.push(w.clone());
            proof {
                assert(out@.map_values(|w: String| w@) =~= before.push(ps[k as int]));
            }
        }
        k = k + 1;
    }
    proof {
        assert(ps.take(pieces@.len() as int) =~= ps);
    }
    out
}

} // verus!
