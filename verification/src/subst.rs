//! Literal placeholder substitution inside template text.
//!
//! A template message may contain the placeholders `$to$` and `$src_text$`;
//! both are replaced in one left-to-right scan, every occurrence, by plain
//! substring replacement.  The scan tries the first pattern at each position,
//! then the second, and otherwise copies one character.

use vstd::prelude::*;

verus! {

/// True when pattern `p` occurs in `s` starting at index `i`.
pub open spec fn occurs_at(s: Seq<char>, p: Seq<char>, i: int) -> bool {
    0 <= i && i + p.len() <= s.len() && s.subrange(i, i + p.len() as int) == p
}

/// True when pattern `p` occurs somewhere in `s`.
pub open spec fn occurs(s: Seq<char>, p: Seq<char>) -> bool {
    exists|i: int| occurs_at(s, p, i)
}

/// True when character `c` occurs in `s`.
pub open spec fn contains_char(s: Seq<char>, c: char) -> bool {
    exists|i: int| 0 <= i < s.len() && s[i] == c
}

/// One simultaneous left-to-right scan replacing every occurrence of `p1`
/// by `r1` and of `p2` by `r2`; `p1` is tried first at each position.
pub open spec fn spec_subst(
    s: Seq<char>,
    p1: Seq<char>,
    r1: Seq<char>,
    p2: Seq<char>,
    r2: Seq<char>,
) -> Seq<char>
    decreases s.len(),
{
    if s.len() == 0 {
        Seq::<char>::empty()
    } else if p1.len() > 0 && occurs_at(s, p1, 0) {
        r1 + spec_subst(s.skip(p1.len() as int), p1, r1, p2, r2)
    } else if p2.len() > 0 && occurs_at(s, p2, 0) {
        r2 + spec_subst(s.skip(p2.len() as int), p1, r1, p2, r2)
    } else {
        seq![s[0]] + spec_subst(s.skip(1), p1, r1, p2, r2)
    }
}

/// Does `p` occur in `s` at position `i`?  Exact test for `occurs_at`.
pub fn matches_at(s: &Vec<char>, i: usize, p: &Vec<char>) -> (b: bool)
    requires
        i <= s@.len(),
    ensures
        b == occurs_at(s@, p@, i as int),
{
    if s.len() - i < p.len() {
        assert(!occurs_at(s@, p@, i as int));
        return false;
    }
    let mut j: usize = 0;
    while j < p.len()
        invariant
            0 <= j <= p@.len(),
            i + p@.len() <= s@.len() <= usize::MAX,
            forall|k: int| 0 <= k < j ==> s@[i + k] == p@[k],
        decreases p@.len() - j,
    {
        if s[i + j] != p[j] {
            assert(s@.subrange(i as int, i + p@.len() as int) != p@) by {
                assert(s@.subrange(i as int, i + p@.len() as int)[j as int] != p@[j as int]);
            }
            return false;
        }
        j += 1;
    }
    assert(s@.subrange(i as int, i + p@.len() as int) =~= p@);
    true
}

/// Append all characters of `src` to `out`.
pub fn push_all(out: &mut Vec<char>, src: &Vec<char>)
    ensures
        final(out)@ == old(out)@ + src@,
{
    let mut j: usize = 0;
    while j < src.len()
        invariant
            0 <= j <= src@.len(),
            out@ == old(out)@ + src@.take(j as int),
        decreases src@.len() - j,
    {
        out.push(src[j]);
        assert(old(out)@ + src@.take(j as int) + seq![src@[j as int]] =~= old(out)@ + src@.take(
            j + 1,
        ));
        j += 1;
    }
    assert(old(out)@ + src@.take(src@.len() as int) =~= old(out)@ + src@);
}

/// Replace every occurrence of `p1` by `r1` and of `p2` by `r2` in `s`,
/// in one left-to-right scan that tries `p1` first.
pub fn substitute(
    s: &Vec<char>,
    p1: &Vec<char>,
    r1: &Vec<char>,
    p2: &Vec<char>,
    r2: &Vec<char>,
) -> (out: Vec<char>)
    requires
        p1@.len() > 0,
        p2@.len() > 0,
    ensures
        out@ == spec_subst(s@, p1@, r1@, p2@, r2@),
{
    let mut out: Vec<char> = Vec::new();
    let mut i: usize = 0;
    proof {
        assert(s@.skip(0) =~= s@);
        assert(Seq::<char>::empty() + spec_subst(s@, p1@, r1@, p2@, r2@) =~= spec_subst(
            s@,
            p1@,
            r1@,
            p2@,
            r2@,
        ));
    }
    while i < s.len()
        invariant
            0 <= i <= s@.len(),
            p1@.len() > 0,
            p2@.len() > 0,
            spec_subst(s@, p1@, r1@, p2@, r2@) == out@ + spec_subst(
                s@.skip(i as int),
                p1@,
                r1@,
                p2@,
                r2@,
            ),
        decreases s@.len() - i,
    {
        let ghost rest = s@.skip(i as int);
        if matches_at(s, i, p1) {
            proof {
                assert(rest.subrange(0, p1@.len() as int) =~= s@.subrange(
                    i as int,
                    i + p1@.len() as int,
                ));
                assert(occurs_at(rest, p1@, 0));
                assert(rest.skip(p1@.len() as int) =~= s@.skip(i + p1@.len() as int));
                assert(out@ + (r1@ + spec_subst(s@.skip(i + p1@.len() as int), p1@, r1@, p2@, r2@))
                    =~= (out@ + r1@) + spec_subst(s@.skip(i + p1@.len() as int), p1@, r1@, p2@, r2@));
            }
            push_all(&mut out, r1);
            i += p1.len();
        } else if matches_at(s, i, p2) {
            proof {
                assert(rest.len() >= p1@.len() ==> rest.subrange(0, p1@.len() as int) =~= s@
                    .subrange(i as int, i + p1@.len() as int));
                assert(!occurs_at(rest, p1@, 0));
                assert(rest.subrange(0, p2@.len() as int) =~= s@.subrange(
                    i as int,
                    i + p2@.len() as int,
                ));
                assert(occurs_at(rest, p2@, 0));
                assert(rest.skip(p2@.len() as int) =~= s@.skip(i + p2@.len() as int));
                assert(out@ + (r2@ + spec_subst(s@.skip(i + p2@.len() as int), p1@, r1@, p2@, r2@))
                    =~= (out@ + r2@) + spec_subst(s@.skip(i + p2@.len() as int), p1@, r1@, p2@, r2@));
            }
            push_all(&mut out, r2);
            i += p2.len();
        } else {
            proof {
                assert(rest.len() >= p1@.len() ==> rest.subrange(0, p1@.len() as int) =~= s@
                    .subrange(i as int, i + p1@.len() as int));
                assert(rest.len() >= p2@.len() ==> rest.subrange(0, p2@.len() as int) =~= s@
                    .subrange(i as int, i + p2@.len() as int));
                assert(!occurs_at(rest, p1@, 0));
                assert(!occurs_at(rest, p2@, 0));
                assert(rest.skip(1) =~= s@.skip(i + 1));
                assert(seq![rest[0]] =~= seq![s@[i as int]]);
                assert(out@ + (seq![s@[i as int]] + spec_subst(s@.skip(i + 1), p1@, r1@, p2@, r2@))
                    =~= out@.push(s@[i as int]) + spec_subst(s@.skip(i + 1), p1@, r1@, p2@, r2@));
            }
            out.push(s[i]);
            i += 1;
        }
    }
    proof {
        assert(s@.skip(s@.len() as int) =~= Seq::<char>::empty());
        assert(out@ + Seq::<char>::empty() =~= out@);
    }
    out
}

/// When neither pattern occurs in `s`, substitution leaves `s` unchanged.
pub proof fn lemma_subst_absent(
    s: Seq<char>,
    p1: Seq<char>,
    r1: Seq<char>,
    p2: Seq<char>,
    r2: Seq<char>,
)
    requires
        p1.len() > 0,
        p2.len() > 0,
        !occurs(s, p1),
        !occurs(s, p2),
    ensures
        spec_subst(s, p1, r1, p2, r2) == s,
    decreases s.len(),
{
    if s.len() == 0 {
        assert(spec_subst(s, p1, r1, p2, r2) =~= s);
    } else {
        assert(!occurs_at(s, p1, 0));
        assert(!occurs_at(s, p2, 0));
        assert(!occurs(s.skip(1), p1)) by {
            if occurs(s.skip(1), p1) {
                let i: int = choose|i: int| occurs_at(s.skip(1), p1, i);
                assert(s.subrange(i + 1, i + 1 + p1.len() as int) =~= s.skip(1).subrange(
                    i,
                    i + p1.len() as int,
                ));
                assert(occurs_at(s, p1, i + 1));
            }
        }
        assert(!occurs(s.skip(1), p2)) by {
            if occurs(s.skip(1), p2) {
                let i: int = choose|i: int| occurs_at(s.skip(1), p2, i);
                assert(s.subrange(i + 1, i + 1 + p2.len() as int) =~= s.skip(1).subrange(
                    i,
                    i + p2.len() as int,
                ));
                assert(occurs_at(s, p2, i + 1));
            }
        }
        lemma_subst_absent(s.skip(1), p1, r1, p2, r2);
        assert(seq![s[0]] + s.skip(1) =~= s);
    }
}

/// Index of the first `'$'` in `s`, or `s.len()` when there is none.
pub open spec fn first_dollar(s: Seq<char>) -> int
    decreases s.len(),
{
    if s.len() == 0 {
        0
    } else if s[0] == '$' {
        0
    } else {
        1 + first_dollar(s.skip(1))
    }
}

pub proof fn lemma_first_dollar(s: Seq<char>)
    ensures
        0 <= first_dollar(s) <= s.len(),
        contains_char(s, '$') ==> first_dollar(s) < s.len() && s[first_dollar(s)] == '$',
        !contains_char(s, '$') ==> first_dollar(s) == s.len(),
        forall|j: int| 0 <= j < first_dollar(s) ==> s[j] != '$',
    decreases s.len(),
{
    if s.len() == 0 {
        assert(!contains_char(s, '$'));
    } else if s[0] == '$' {
        assert(contains_char(s, '$'));
    } else {
        lemma_first_dollar(s.skip(1));
        assert(contains_char(s, '$') ==> contains_char(s.skip(1), '$')) by {
            if contains_char(s, '$') {
                let i: int = choose|i: int| 0 <= i < s.len() && s[i] == '$';
                assert(s.skip(1)[i - 1] == '$');
            }
        }
        assert(contains_char(s.skip(1), '$') ==> contains_char(s, '$')) by {
            if contains_char(s.skip(1), '$') {
                let i: int = choose|i: int| 0 <= i < s.skip(1).len() && s.skip(1)[i] == '$';
                assert(s[i + 1] == '$');
            }
        }
        assert forall|j: int| 0 <= j < first_dollar(s) implies s[j] != '$' by {
            if j > 0 {
                assert(s.skip(1)[j - 1] != '$');
            }
        }
    }
}

/// Placeholders are well placed in `s` when every `'$'` begins a whole
/// occurrence of one of the two patterns: the text is a sequence of
/// `'$'`-free stretches and complete placeholders.
pub open spec fn well_placed(s: Seq<char>, p1: Seq<char>, p2: Seq<char>) -> bool
    decreases s.len(),
{
    if !contains_char(s, '$') {
        true
    } else {
        let i = first_dollar(s);
        if p1.len() > 0 && occurs_at(s, p1, i) {
            well_placed(s.skip(i + p1.len() as int), p1, p2)
        } else if p2.len() > 0 && occurs_at(s, p2, i) {
            well_placed(s.skip(i + p2.len() as int), p1, p2)
        } else {
            false
        }
    }
}

proof fn lemma_well_placed_shift(s: Seq<char>, p1: Seq<char>, p2: Seq<char>)
    requires
        p1.len() > 0,
        p2.len() > 0,
        s.len() > 0,
        s[0] != '$',
        well_placed(s, p1, p2),
    ensures
        well_placed(s.skip(1), p1, p2),
{
    lemma_first_dollar(s);
    lemma_first_dollar(s.skip(1));
    if !contains_char(s, '$') {
        assert(!contains_char(s.skip(1), '$')) by {
            if contains_char(s.skip(1), '$') {
                let i: int = choose|i: int| 0 <= i < s.skip(1).len() && s.skip(1)[i] == '$';
                assert(s[i + 1] == '$');
            }
        }
    } else {
        let i = first_dollar(s);
        assert(contains_char(s.skip(1), '$')) by {
            assert(s.skip(1)[i - 1] == '$');
        }
        assert(first_dollar(s) == 1 + first_dollar(s.skip(1)));
        let j = i - 1;
        assert(first_dollar(s.skip(1)) == j);
        if p1.len() > 0 && occurs_at(s, p1, i) {
            assert(s.skip(1).subrange(j, j + p1.len() as int) =~= s.subrange(
                i,
                i + p1.len() as int,
            ));
            assert(occurs_at(s.skip(1), p1, j));
            assert(s.skip(1).skip(j + p1.len() as int) =~= s.skip(i + p1.len() as int));
        } else if p2.len() > 0 && occurs_at(s, p2, i) {
            assert(!occurs_at(s.skip(1), p1, j)) by {
                if occurs_at(s.skip(1), p1, j) {
                    assert(s.subrange(i, i + p1.len() as int) =~= s.skip(1).subrange(
                        j,
                        j + p1.len() as int,
                    ));
                }
            }
            assert(s.skip(1).subrange(j, j + p2.len() as int) =~= s.subrange(
                i,
                i + p2.len() as int,
            ));
            assert(occurs_at(s.skip(1), p2, j));
            assert(s.skip(1).skip(j + p2.len() as int) =~= s.skip(i + p2.len() as int));
        }
    }
}

proof fn lemma_contains_concat(a: Seq<char>, b: Seq<char>, c: char)
    ensures
        contains_char(a + b, c) == (contains_char(a, c) || contains_char(b, c)),
{
    if contains_char(a + b, c) {
        let i: int = choose|i: int| 0 <= i < (a + b).len() && (a + b)[i] == c;
        if i < a.len() {
            assert(a[i] == c);
        } else {
            assert(b[i - a.len()] == c);
        }
    }
    if contains_char(a, c) {
        let i: int = choose|i: int| 0 <= i < a.len() && a[i] == c;
        assert((a + b)[i] == c);
    }
    if contains_char(b, c) {
        let i: int = choose|i: int| 0 <= i < b.len() && b[i] == c;
        assert((a + b)[a.len() + i] == c);
    }
}

/// When every `'$'` in `s` begins a whole placeholder and neither
/// replacement introduces a `'$'`, the substituted text holds no `'$'`
/// at all, so no occurrence of either placeholder remains.
pub proof fn lemma_subst_no_dollar(
    s: Seq<char>,
    p1: Seq<char>,
    r1: Seq<char>,
    p2: Seq<char>,
    r2: Seq<char>,
)
    requires
        p1.len() > 0,
        p2.len() > 0,
        p1[0] == '$',
        p2[0] == '$',
        !contains_char(r1, '$'),
        !contains_char(r2, '$'),
        well_placed(s, p1, p2),
    ensures
        !contains_char(spec_subst(s, p1, r1, p2, r2), '$'),
    decreases s.len(),
{
    lemma_first_dollar(s);
    if s.len() == 0 {
        assert(!contains_char(spec_subst(s, p1, r1, p2, r2), '$'));
    } else if p1.len() > 0 && occurs_at(s, p1, 0) {
        assert(s[0] == '$') by {
            assert(s.subrange(0, p1.len() as int)[0] == p1[0]);
        }
        assert(contains_char(s, '$'));
        assert(first_dollar(s) == 0);
        assert(well_placed(s.skip(p1.len() as int), p1, p2));
        lemma_subst_no_dollar(s.skip(p1.len() as int), p1, r1, p2, r2);
        lemma_contains_concat(r1, spec_subst(s.skip(p1.len() as int), p1, r1, p2, r2), '$');
    } else if p2.len() > 0 && occurs_at(s, p2, 0) {
        assert(s[0] == '$') by {
            assert(s.subrange(0, p2.len() as int)[0] == p2[0]);
        }
        assert(contains_char(s, '$'));
        assert(first_dollar(s) == 0);
        assert(well_placed(s.skip(p2.len() as int), p1, p2));
        lemma_subst_no_dollar(s.skip(p2.len() as int), p1, r1, p2, r2);
        lemma_contains_concat(r2, spec_subst(s.skip(p2.len() as int), p1, r1, p2, r2), '$');
    } else if s[0] == '$' {
        assert(contains_char(s, '$'));
        assert(first_dollar(s) == 0);
        assert(false);
    } else {
        lemma_well_placed_shift(s, p1, p2);
        lemma_subst_no_dollar(s.skip(1), p1, r1, p2, r2);
        lemma_contains_concat(seq![s[0]], spec_subst(s.skip(1), p1, r1, p2, r2), '$');
        assert(!contains_char(seq![s[0]], '$')) by {
            if contains_char(seq![s[0]], '$') {
                let i: int = choose|i: int| 0 <= i < 1 && seq![s[0]][i] == '$';
                assert(seq![s[0]][0] == s[0]);
            }
        }
    }
}

/// Substitution property: with well-placed placeholders and `'$'`-free
/// replacements, no occurrence of either placeholder remains in the output.
pub proof fn lemma_subst_removes_placeholders(
    s: Seq<char>,
    p1: Seq<char>,
    r1: Seq<char>,
    p2: Seq<char>,
    r2: Seq<char>,
)
    requires
        p1.len() > 0,
        p2.len() > 0,
        p1[0] == '$',
        p2[0] == '$',
        !contains_char(r1, '$'),
        !contains_char(r2, '$'),
        well_placed(s, p1, p2),
    ensures
        !occurs(spec_subst(s, p1, r1, p2, r2), p1),
        !occurs(spec_subst(s, p1, r1, p2, r2), p2),
{
    lemma_subst_no_dollar(s, p1, r1, p2, r2);
    let out = spec_subst(s, p1, r1, p2, r2);
    if occurs(out, p1) {
        let i: int = choose|i: int| occurs_at(out, p1, i);
        assert(out.subrange(i, i + p1.len() as int)[0] == p1[0]);
        assert(out[i] == '$');
        assert(contains_char(out, '$'));
    }
    if occurs(out, p2) {
        let i: int = choose|i: int| occurs_at(out, p2, i);
        assert(out.subrange(i, i + p2.len() as int)[0] == p2[0]);
        assert(out[i] == '$');
        assert(contains_char(out, '$'));
    }
}

} // verus!
