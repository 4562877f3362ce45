//! Laws of the transduction, stated over the spec model and proved once for
//! every predicate, quote marker and input.

use vstd::prelude::*;

use crate::fixer::CharPredicate;
use crate::fixer::CharacterClass;
use crate::model::fix_rec;
use crate::model::spec_fix;

verus! {

/// A string containing no quote marker, no member of the special set and no
/// bracket character passes through the transduction unchanged, under every
/// bracket policy.
pub proof fn lemma_fix_plain_identity<P: CharPredicate>(
    p: P,
    qc: char,
    cc: CharacterClass,
    s: Seq<char>,
)
    requires
        forall|i: int| 0 <= i < s.len() ==> !p.spec_contains(#[trigger] s[i]) && s[i] != qc
            && s[i] != '[' && s[i] != ']',
    ensures
        spec_fix(p, qc, cc, s) == s,
    decreases s.len(),
{
    if s.len() == 0 {
        assert(spec_fix(p, qc, cc, s) =~= s);
    } else {
        let t = s.drop_first();
        assert(forall|i: int| 0 <= i < t.len() ==> !p.spec_contains(#[trigger] t[i]) && t[i]
            != qc && t[i] != '[' && t[i] != ']') by {
            assert(forall|i: int| 0 <= i < t.len() ==> #[trigger] t[i] == s[i + 1]);
        }
        lemma_fix_plain_identity(p, qc, cc, t);
        assert(spec_fix(p, qc, cc, s) == seq![s[0]] + spec_fix(p, qc, cc, t));
        assert(seq![s[0]] + t =~= s);
    }
}

/// One scan step under the `Ignore` policy, for each kind of head character
/// and each value of the pending-escape bit.
proof fn lemma_fix_rec_ignore_step<P: CharPredicate>(p: P, qc: char, s: Seq<char>)
    requires
        s.len() > 0,
    ensures
        s[0] == qc ==> fix_rec(p, qc, CharacterClass::Ignore, s, false, false, 0, 0)
            == fix_rec(p, qc, CharacterClass::Ignore, s.drop_first(), true, false, 0, 0),
        s[0] == qc ==> fix_rec(p, qc, CharacterClass::Ignore, s, true, false, 0, 0)
            == seq![qc, qc] + fix_rec(
            p,
            qc,
            CharacterClass::Ignore,
            s.drop_first(),
            false,
            false,
            0,
            0,
        ),
        s[0] != qc && p.spec_contains(s[0]) ==> fix_rec(
            p,
            qc,
            CharacterClass::Ignore,
            s,
            false,
            false,
            0,
            0,
        ) == seq![qc, s[0]] + fix_rec(
            p,
            qc,
            CharacterClass::Ignore,
            s.drop_first(),
            false,
            false,
            0,
            0,
        ),
        s[0] != qc && p.spec_contains(s[0]) ==> fix_rec(
            p,
            qc,
            CharacterClass::Ignore,
            s,
            true,
            false,
            0,
            0,
        ) == seq![s[0]] + fix_rec(
            p,
            qc,
            CharacterClass::Ignore,
            s.drop_first(),
            false,
            false,
            0,
            0,
        ),
        s[0] != qc && !p.spec_contains(s[0]) ==> fix_rec(
            p,
            qc,
            CharacterClass::Ignore,
            s,
            false,
            false,
            0,
            0,
        ) == seq![s[0]] + fix_rec(
            p,
            qc,
            CharacterClass::Ignore,
            s.drop_first(),
            false,
            false,
            0,
            0,
        ),
        s[0] != qc && !p.spec_contains(s[0]) ==> fix_rec(
            p,
            qc,
            CharacterClass::Ignore,
            s,
            true,
            false,
            0,
            0,
        ) == seq![qc, s[0]] + fix_rec(
            p,
            qc,
            CharacterClass::Ignore,
            s.drop_first(),
            false,
            false,
            0,
            0,
        ),
{
    if s[0] == qc {
        assert(Seq::<char>::empty() + fix_rec(
            p,
            qc,
            CharacterClass::Ignore,
            s.drop_first(),
            true,
            false,
            0,
            0,
        ) =~= fix_rec(p, qc, CharacterClass::Ignore, s.drop_first(), true, false, 0, 0));
    }
}

/// One unfolding of [`fix_rec`] on a non-empty input, under any policy and
/// from any state.
proof fn lemma_fix_rec_unfold<P: CharPredicate>(
    p: P,
    qc: char,
    cc: CharacterClass,
    s: Seq<char>,
    pending: bool,
    in_class: bool,
    pos: int,
    depth: int,
)
    requires
        s.len() > 0,
    ensures
        fix_rec(p, qc, cc, s, pending, in_class, pos, depth) == crate::model::fix_step(
            p,
            qc,
            cc,
            s[0],
            pending,
            in_class,
            pos,
            depth,
        ).out + fix_rec(
            p,
            qc,
            cc,
            s.drop_first(),
            crate::model::fix_step(p, qc, cc, s[0], pending, in_class, pos, depth).pending,
            crate::model::fix_step(p, qc, cc, s[0], pending, in_class, pos, depth).in_class,
            crate::model::fix_step(p, qc, cc, s[0], pending, in_class, pos, depth).pos,
            crate::model::fix_step(p, qc, cc, s[0], pending, in_class, pos, depth).depth,
        ),
{
}

/// Rescanning the output of a `KeepUnaltered` scan, from the same starting
/// state, returns the input: outside bracket expressions the policy rewrites
/// as `Ignore` does, and inside them it copies verbatim, so the two scans
/// stay aligned. The quote marker must not be the opening bracket: a marker
/// emitted before a special character would otherwise open a bracket
/// expression in the rescan.
#[verifier::rlimit(100)]
proof fn lemma_fix_rec_keep_unaltered_refix<P: CharPredicate>(
    p: P,
    qc: char,
    s: Seq<char>,
    in_class: bool,
    pos: int,
    depth: int,
)
    requires
        qc != '[',
        !in_class ==> pos == 0 && depth == 0,
    ensures
        fix_rec(
            p,
            qc,
            CharacterClass::KeepUnaltered,
            fix_rec(p, qc, CharacterClass::KeepUnaltered, s, false, in_class, pos, depth),
            false,
            in_class,
            pos,
            depth,
        ) == s,
    decreases s.len(),
{
    let ku = CharacterClass::KeepUnaltered;
    if s.len() == 0 {
        assert(fix_rec(p, qc, ku, s, false, in_class, pos, depth) =~= Seq::<char>::empty());
        assert(fix_rec(
            p,
            qc,
            ku,
            Seq::<char>::empty(),
            false,
            in_class,
            pos,
            depth,
        ) =~= s);
    } else {
        let c = s[0];
        let t1 = s.drop_first();
        let st = crate::model::fix_step(p, qc, ku, c, false, in_class, pos, depth);
        lemma_fix_rec_unfold(p, qc, ku, s, false, in_class, pos, depth);
        if in_class {
            // Inside a bracket expression every character is copied verbatim
            // and the pending bit is untouched, so the rescan takes the same
            // step from the same state.
            assert(st.out =~= seq![c] && st.pending == false);
            lemma_fix_rec_keep_unaltered_refix(p, qc, t1, st.in_class, st.pos, st.depth);
            let u = fix_rec(p, qc, ku, t1, false, st.in_class, st.pos, st.depth);
            let v = seq![c] + u;
            assert(fix_rec(p, qc, ku, s, false, in_class, pos, depth) == v);
            assert(v[0] == c && v.drop_first() =~= u);
            lemma_fix_rec_unfold(p, qc, ku, v, false, in_class, pos, depth);
            assert(seq![c] + t1 =~= s);
        } else if c == '[' {
            // An unescaped opening bracket is copied and opens a bracket
            // expression, in the scan and in the rescan alike.
            lemma_fix_rec_keep_unaltered_refix(p, qc, t1, true, 0, 1);
            let u = fix_rec(p, qc, ku, t1, false, true, 0, 1);
            let v = seq!['['] + u;
            assert(fix_rec(p, qc, ku, s, false, in_class, pos, depth) == v);
            assert(v[0] == '[' && v.drop_first() =~= u);
            lemma_fix_rec_unfold(p, qc, ku, v, false, in_class, pos, depth);
            assert(seq!['['] + t1 =~= s);
        } else if c == qc {
            if s.len() == 1 {
                // A lone trailing marker is emitted literally, twice over.
                assert(t1.len() == 0);
                assert(fix_rec(p, qc, ku, s, false, in_class, pos, depth) == seq![qc]);
                let v = seq![qc];
                lemma_fix_rec_unfold(p, qc, ku, v, false, in_class, pos, depth);
                assert(v.drop_first() =~= Seq::<char>::empty());
                assert(fix_rec(
                    p,
                    qc,
                    ku,
                    Seq::<char>::empty(),
                    true,
                    false,
                    0,
                    0,
                ) == seq![qc]);
                assert(s =~= seq![qc]);
            } else {
                let t2 = s.skip(2);
                assert(t1[0] == s[1]);
                assert(t1.drop_first() =~= t2);
                lemma_fix_rec_unfold(p, qc, ku, t1, true, false, 0, 0);
                lemma_fix_rec_keep_unaltered_refix(p, qc, t2, false, 0, 0);
                let u = fix_rec(p, qc, ku, t2, false, false, 0, 0);
                if s[1] == '[' {
                    // An escaped opening bracket is restored literally and
                    // does not open a bracket expression.
                    assert(fix_rec(p, qc, ku, s, false, in_class, pos, depth) == seq![qc, '[']
                        + u);
                    let v = seq![qc, '['] + u;
                    let w = seq!['['] + u;
                    assert(v[0] == qc && v.drop_first() =~= w);
                    lemma_fix_rec_unfold(p, qc, ku, v, false, in_class, pos, depth);
                    assert(w[0] == '[' && w.drop_first() =~= u);
                    lemma_fix_rec_unfold(p, qc, ku, w, true, false, 0, 0);
                    assert(seq![qc, '['] + t2 =~= s);
                } else if s[1] == qc {
                    // A doubled marker is spelled identically in both
                    // dialects.
                    assert(fix_rec(p, qc, ku, s, false, in_class, pos, depth) == seq![qc, qc]
                        + u);
                    let v = seq![qc, qc] + u;
                    let w = seq![qc] + u;
                    assert(v[0] == qc && v.drop_first() =~= w);
                    lemma_fix_rec_unfold(p, qc, ku, v, false, in_class, pos, depth);
                    assert(w[0] == qc && w.drop_first() =~= u);
                    lemma_fix_rec_unfold(p, qc, ku, w, true, false, 0, 0);
                    assert(seq![qc, qc] + t2 =~= s);
                } else if p.spec_contains(s[1]) {
                    // An escaped special character loses its marker, and the
                    // bare spelling gains it back.
                    assert(fix_rec(p, qc, ku, s, false, in_class, pos, depth) == seq![s[1]]
                        + u);
                    let v = seq![s[1]] + u;
                    assert(v[0] == s[1] && v.drop_first() =~= u);
                    lemma_fix_rec_unfold(p, qc, ku, v, false, in_class, pos, depth);
                    assert(seq![qc, s[1]] + t2 =~= s);
                } else {
                    // A marker before an ordinary character is restored
                    // literally and stays that way.
                    assert(fix_rec(p, qc, ku, s, false, in_class, pos, depth) == seq![qc, s[1]]
                        + u);
                    let v = seq![qc, s[1]] + u;
                    let w = seq![s[1]] + u;
                    assert(v[0] == qc && v.drop_first() =~= w);
                    lemma_fix_rec_unfold(p, qc, ku, v, false, in_class, pos, depth);
                    assert(w[0] == s[1] && w.drop_first() =~= u);
                    lemma_fix_rec_unfold(p, qc, ku, w, true, false, 0, 0);
                    assert(seq![qc, s[1]] + t2 =~= s);
                }
            }
        } else {
            lemma_fix_rec_keep_unaltered_refix(p, qc, t1, false, 0, 0);
            let u = fix_rec(p, qc, ku, t1, false, false, 0, 0);
            if p.spec_contains(c) {
                // A bare special character gains a marker, and the escaped
                // spelling loses it again.
                assert(fix_rec(p, qc, ku, s, false, in_class, pos, depth) == seq![qc, c] + u);
                let v = seq![qc, c] + u;
                let w = seq![c] + u;
                assert(v[0] == qc && v.drop_first() =~= w);
                lemma_fix_rec_unfold(p, qc, ku, v, false, in_class, pos, depth);
                assert(Seq::<char>::empty() + fix_rec(p, qc, ku, w, true, false, 0, 0)
                    =~= fix_rec(p, qc, ku, w, true, false, 0, 0));
                assert(w[0] == c && w.drop_first() =~= u);
                lemma_fix_rec_unfold(p, qc, ku, w, true, false, 0, 0);
                assert(seq![c] + t1 =~= s);
            } else {
                // An ordinary character passes through twice unchanged.
                assert(fix_rec(p, qc, ku, s, false, in_class, pos, depth) == seq![c] + u);
                let v = seq![c] + u;
                assert(v[0] == c && v.drop_first() =~= u);
                lemma_fix_rec_unfold(p, qc, ku, v, false, in_class, pos, depth);
                assert(seq![c] + t1 =~= s);
            }
        }
    }
}

/// Applying the transduction twice under the `KeepUnaltered` bracket policy
/// returns the original string exactly, for every quote marker other than
/// the opening bracket itself: outside bracket expressions the rewrite is
/// the same involution as under `Ignore`, and bracket expressions are copied
/// verbatim both times.
pub proof fn lemma_fix_involutive_keep_unaltered<P: CharPredicate>(
    p: P,
    qc: char,
    s: Seq<char>,
)
    requires
        qc != '[',
    ensures
        spec_fix(
            p,
            qc,
            CharacterClass::KeepUnaltered,
            spec_fix(p, qc, CharacterClass::KeepUnaltered, s),
        ) == s,
{
    lemma_fix_rec_keep_unaltered_refix(p, qc, s, false, 0, 0);
}

/// Holds when the opening bracket occurs nowhere in `s`.
pub open spec fn bracket_free(s: Seq<char>) -> bool {
    forall|i: int| 0 <= i < s.len() ==> s[i] != '['
}

/// Outside a bracket expression the policies agree: on a pattern in which no
/// opening bracket occurs, and whose quote marker is not the opening bracket,
/// every policy rewrites exactly as `Ignore` does, and the output is again
/// free of opening brackets.
proof fn lemma_fix_rec_bracket_free<P: CharPredicate>(
    p: P,
    qc: char,
    cc: CharacterClass,
    s: Seq<char>,
    pending: bool,
)
    requires
        qc != '[',
        bracket_free(s),
    ensures
        fix_rec(p, qc, cc, s, pending, false, 0, 0) == fix_rec(
            p,
            qc,
            CharacterClass::Ignore,
            s,
            pending,
            false,
            0,
            0,
        ),
        bracket_free(fix_rec(p, qc, cc, s, pending, false, 0, 0)),
    decreases s.len(),
{
    if s.len() == 0 {
    } else {
        let c = s[0];
        assert(c != '[');
        let t = s.drop_first();
        assert(bracket_free(t)) by {
            assert(forall|i: int| 0 <= i < t.len() ==> #[trigger] t[i] == s[i + 1]);
        }
        let st = crate::model::fix_step(p, qc, cc, c, pending, false, 0, 0);
        assert(st.in_class == false && st.pos == 0 && st.depth == 0);
        assert(crate::model::fix_step(p, qc, CharacterClass::Ignore, c, pending, false, 0, 0)
            == st);
        lemma_fix_rec_bracket_free(p, qc, cc, t, st.pending);
        assert(fix_rec(p, qc, cc, s, pending, false, 0, 0) == st.out + fix_rec(
            p,
            qc,
            cc,
            t,
            st.pending,
            false,
            0,
            0,
        ));
        assert(fix_rec(p, qc, CharacterClass::Ignore, s, pending, false, 0, 0) == st.out
            + fix_rec(p, qc, CharacterClass::Ignore, t, st.pending, false, 0, 0));
        assert(bracket_free(st.out + fix_rec(p, qc, cc, t, st.pending, false, 0, 0))) by {
            let r = st.out + fix_rec(p, qc, cc, t, st.pending, false, 0, 0);
            assert(forall|i: int| 0 <= i < st.out.len() ==> #[trigger] st.out[i] == qc
                || st.out[i] == c);
            assert(forall|i: int| 0 <= i < r.len() ==> #[trigger] r[i] != '[') by {
                assert(forall|i: int| 0 <= i < st.out.len() ==> #[trigger] r[i]
                    == st.out[i]);
                assert(forall|i: int| st.out.len() <= i < r.len() ==> #[trigger] r[i]
                    == fix_rec(p, qc, cc, t, st.pending, false, 0, 0)[i - st.out.len()]);
            }
        }
    }
}

/// On a pattern in which no opening bracket occurs, and whose quote marker is
/// not the opening bracket, applying the transduction twice returns the
/// original string under every bracket policy: the policies differ only on
/// bracket expressions, and without any the rewrite is an involution.
pub proof fn lemma_fix_involutive_bracket_free<P: CharPredicate>(
    p: P,
    qc: char,
    cc: CharacterClass,
    s: Seq<char>,
)
    requires
        qc != '[',
        bracket_free(s),
    ensures
        spec_fix(p, qc, cc, spec_fix(p, qc, cc, s)) == s,
{
    lemma_fix_rec_bracket_free(p, qc, cc, s, false);
    lemma_fix_rec_bracket_free(p, qc, cc, spec_fix(p, qc, cc, s), false);
    lemma_fix_involutive_ignore(p, qc, s);
}

/// Applying the transduction twice under the `Ignore` bracket policy returns
/// the original string exactly: with bracket-awareness disabled, the rewrite
/// is an involution for every predicate, every quote marker and every input,
/// a lone trailing marker included.
pub proof fn lemma_fix_involutive_ignore<P: CharPredicate>(p: P, qc: char, s: Seq<char>)
    ensures
        spec_fix(p, qc, CharacterClass::Ignore, spec_fix(p, qc, CharacterClass::Ignore, s))
            == s,
    decreases s.len(),
{
    let ig = CharacterClass::Ignore;
    if s.len() == 0 {
        assert(spec_fix(p, qc, ig, s) =~= Seq::<char>::empty());
        assert(spec_fix(p, qc, ig, spec_fix(p, qc, ig, s)) =~= s);
    } else if s[0] == qc {
        let d1 = s.drop_first();
        lemma_fix_rec_ignore_step(p, qc, s);
        if s.len() == 1 {
            // A lone trailing marker is emitted literally, twice over.
            assert(d1.len() == 0);
            assert(fix_rec(p, qc, ig, d1, true, false, 0, 0) == seq![qc]);
            assert(spec_fix(p, qc, ig, s) == seq![qc]);
            let v = seq![qc];
            lemma_fix_rec_ignore_step(p, qc, v);
            assert(v.drop_first().len() == 0);
            assert(fix_rec(p, qc, ig, v.drop_first(), true, false, 0, 0) == seq![qc]);
            assert(spec_fix(p, qc, ig, v) == seq![qc]);
            assert(s =~= seq![qc]);
        } else {
            let t2 = s.skip(2);
            lemma_fix_involutive_ignore(p, qc, t2);
            let u = spec_fix(p, qc, ig, t2);
            assert(d1[0] == s[1]);
            assert(d1.drop_first() =~= t2);
            lemma_fix_rec_ignore_step(p, qc, d1);
            if s[1] == qc {
                // A doubled marker is spelled identically in both dialects.
                assert(spec_fix(p, qc, ig, s) == seq![qc, qc] + u);
                let v = seq![qc, qc] + u;
                let w = seq![qc] + u;
                assert(v[0] == qc && v.drop_first() =~= w);
                lemma_fix_rec_ignore_step(p, qc, v);
                assert(w[0] == qc && w.drop_first() =~= u);
                lemma_fix_rec_ignore_step(p, qc, w);
                assert(spec_fix(p, qc, ig, v) == seq![qc, qc] + spec_fix(p, qc, ig, u));
                assert(seq![qc, qc] + t2 =~= s);
            } else if p.spec_contains(s[1]) {
                // An escaped special character loses its marker, and the bare
                // spelling gains it back.
                assert(spec_fix(p, qc, ig, s) == seq![s[1]] + u);
                let v = seq![s[1]] + u;
                assert(v[0] == s[1] && v.drop_first() =~= u);
                lemma_fix_rec_ignore_step(p, qc, v);
                assert(spec_fix(p, qc, ig, v) == seq![qc, s[1]] + spec_fix(p, qc, ig, u));
                assert(seq![qc, s[1]] + t2 =~= s);
            } else {
                // A marker before an ordinary character is restored literally
                // and stays that way.
                assert(spec_fix(p, qc, ig, s) == seq![qc, s[1]] + u);
                let v = seq![qc, s[1]] + u;
                let w = seq![s[1]] + u;
                assert(v[0] == qc && v.drop_first() =~= w);
                lemma_fix_rec_ignore_step(p, qc, v);
                assert(w[0] == s[1] && w.drop_first() =~= u);
                lemma_fix_rec_ignore_step(p, qc, w);
                assert(spec_fix(p, qc, ig, v) == seq![qc, s[1]] + spec_fix(p, qc, ig, u));
                assert(seq![qc, s[1]] + t2 =~= s);
            }
        }
    } else {
        let t1 = s.drop_first();
        lemma_fix_involutive_ignore(p, qc, t1);
        let u = spec_fix(p, qc, ig, t1);
        lemma_fix_rec_ignore_step(p, qc, s);
        if p.spec_contains(s[0]) {
            // A bare special character gains a marker, and the escaped
            // spelling loses it again.
            assert(spec_fix(p, qc, ig, s) == seq![qc, s[0]] + u);
            let v = seq![qc, s[0]] + u;
            let w = seq![s[0]] + u;
            assert(v[0] == qc && v.drop_first() =~= w);
            lemma_fix_rec_ignore_step(p, qc, v);
            assert(w[0] == s[0] && w.drop_first() =~= u);
            lemma_fix_rec_ignore_step(p, qc, w);
            assert(spec_fix(p, qc, ig, v) == seq![s[0]] + spec_fix(p, qc, ig, u));
            assert(seq![s[0]] + t1 =~= s);
        } else {
            // An ordinary character passes through twice unchanged.
            assert(spec_fix(p, qc, ig, s) == seq![s[0]] + u);
            let v = seq![s[0]] + u;
            assert(v[0] == s[0] && v.drop_first() =~= u);
            lemma_fix_rec_ignore_step(p, qc, v);
            assert(spec_fix(p, qc, ig, v) == seq![s[0]] + spec_fix(p, qc, ig, u));
            assert(seq![s[0]] + t1 =~= s);
        }
    }
}

} // verus!
