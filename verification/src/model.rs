//! The mathematical model of the transduction: one spec function per input
//! character, folded over the whole input by a recursive spec function.

use vstd::prelude::*;

use crate::fixer::CharPredicate;
use crate::fixer::CharacterClass;

verus! {

/// What one input character contributes: the characters emitted for it and
/// the scanner state afterwards.
///
/// The scanner state is one pending-escape bit plus the bracket-expression
/// bookkeeping: whether the cursor is inside a bracket expression, the offset
/// of the cursor since that expression opened, and the bracket nesting depth.
/// Outside a bracket expression `pos` and `depth` are both zero.
pub struct FixStep {
    pub out: Seq<char>,
    pub pending: bool,
    pub in_class: bool,
    pub pos: int,
    pub depth: int,
}

/// Processes one character `c` in state `(pending, in_class, pos, depth)`.
///
/// Outside a bracket expression (or always, under `CharacterClass::Ignore`):
/// a first quote marker is deferred; a second consecutive one is emitted
/// doubled; a character of the set gains a marker when it had none and loses
/// the deferred one otherwise; any other character restores a deferred marker
/// literally. An unescaped `[` opens a bracket expression unless the policy
/// is `Ignore`. Inside a bracket expression, a `]` closes it except in the
/// first position, a nested `[` deepens it, and emission follows the policy:
/// verbatim under `KeepUnaltered`; verbatim except the quote marker, whose
/// doubling is rewritten, under `KeepUnalteredButQuoteMeta`.
pub open spec fn fix_step<P: CharPredicate>(
    p: P,
    qc: char,
    cc: CharacterClass,
    c: char,
    pending: bool,
    in_class: bool,
    pos: int,
    depth: int,
) -> FixStep {
    if cc != CharacterClass::Ignore && in_class {
        let npos = pos + 1;
        let ndepth = if c == ']' && npos != 1 {
            depth - 1
        } else if c == '[' {
            depth + 1
        } else {
            depth
        };
        let stays = ndepth != 0;
        let out = match cc {
            CharacterClass::KeepUnalteredButQuoteMeta => if c == qc {
                if pending {
                    seq![qc]
                } else {
                    Seq::<char>::empty()
                }
            } else {
                if pending {
                    seq![qc, qc, c]
                } else {
                    seq![c]
                }
            },
            _ => seq![c],
        };
        let npending = match cc {
            CharacterClass::KeepUnalteredButQuoteMeta => if c == qc {
                !pending
            } else {
                false
            },
            _ => pending,
        };
        FixStep {
            out,
            pending: npending,
            in_class: stays,
            pos: if stays { npos } else { 0 },
            depth: if stays { ndepth } else { 0 },
        }
    } else if cc != CharacterClass::Ignore && c == '[' {
        if pending {
            FixStep { out: seq![qc, '['], pending: false, in_class: false, pos: 0, depth: 0 }
        } else {
            FixStep { out: seq!['['], pending: false, in_class: true, pos: 0, depth: 1 }
        }
    } else if c == qc {
        if pending {
            FixStep { out: seq![qc, qc], pending: false, in_class: false, pos: 0, depth: 0 }
        } else {
            FixStep {
                out: Seq::<char>::empty(),
                pending: true,
                in_class: false,
                pos: 0,
                depth: 0,
            }
        }
    } else if p.spec_contains(c) {
        if pending {
            FixStep { out: seq![c], pending: false, in_class: false, pos: 0, depth: 0 }
        } else {
            FixStep { out: seq![qc, c], pending: false, in_class: false, pos: 0, depth: 0 }
        }
    } else {
        if pending {
            FixStep { out: seq![qc, c], pending: false, in_class: false, pos: 0, depth: 0 }
        } else {
            FixStep { out: seq![c], pending: false, in_class: false, pos: 0, depth: 0 }
        }
    }
}

/// The output produced for the whole remaining input `s`, starting in state
/// `(pending, in_class, pos, depth)`. A marker still deferred when the input
/// ends is emitted literally.
pub open spec fn fix_rec<P: CharPredicate>(
    p: P,
    qc: char,
    cc: CharacterClass,
    s: Seq<char>,
    pending: bool,
    in_class: bool,
    pos: int,
    depth: int,
) -> Seq<char>
    decreases s.len(),
{
    if s.len() == 0 {
        if pending {
            seq![qc]
        } else {
            Seq::<char>::empty()
        }
    } else {
        let st = fix_step(p, qc, cc, s[0], pending, in_class, pos, depth);
        st.out + fix_rec(p, qc, cc, s.drop_first(), st.pending, st.in_class, st.pos, st.depth)
    }
}

/// The output of the whole transduction: a fresh scan of `s`, starting with
/// no pending marker and outside any bracket expression.
pub open spec fn spec_fix<P: CharPredicate>(
    p: P,
    qc: char,
    cc: CharacterClass,
    s: Seq<char>,
) -> Seq<char> {
    fix_rec(p, qc, cc, s, false, false, 0, 0)
}

} // verus!
