use vstd::prelude::*;
use vstd::string::StrSliceExecFns;
use vstd::string::StringExecFns;

use crate::model::fix_rec;
use crate::model::fix_step;
use crate::model::spec_fix;

verus! {

/// Relies on `String::push`: appends the given character to the end of the
/// string.
pub assume_specification[ String::push ](s: &mut String, c: char)
    ensures
        final(s)@ == old(s)@.push(c),
;

/// The escape marker used when none is chosen explicitly.
pub const DEFAULT_QUOTE_CHAR: char = '\\';

/// How characters inside a bracket expression `[...]` are treated.
#[derive(PartialEq, Eq, Structural)]
pub enum CharacterClass {
    /// Bracket expressions receive no special handling; the uniform
    /// per-character rule applies everywhere.
    Ignore,
    /// Characters inside a bracket expression are copied through verbatim;
    /// only the bracket nesting is tracked.
    KeepUnaltered,
    /// Characters inside a bracket expression are copied through verbatim,
    /// except the quote marker itself, whose doubled spelling is still
    /// rewritten. This is the default policy.
    KeepUnalteredButQuoteMeta,
}

/// A membership test over characters: answers whether a character's default
/// specialness is inverted between the two dialects being translated.
pub trait CharPredicate: Sized {
    /// The set of characters this predicate accepts.
    spec fn spec_contains(&self, c: char) -> bool;

    /// Decides membership of one character.
    fn contains(&self, c: char) -> (r: bool)
        ensures
            r == self.spec_contains(c),
    ;
}

/// A membership predicate given by an explicit collection of characters.
pub struct CharSet {
    pub chars: Vec<char>,
}

impl CharPredicate for CharSet {
    open spec fn spec_contains(&self, c: char) -> bool {
        self.chars@.contains(c)
    }

    fn contains(&self, c: char) -> (r: bool) {
        let mut i: usize = 0;
        while i < self.chars.len()
            invariant
                i <= self.chars@.len(),
                forall|j: int| 0 <= j < i ==> self.chars@[j] != c,
            decreases self.chars@.len() - i,
        {
            if self.chars[i] == c {
                assert(self.chars@[i as int] == c);
                return true;
            }
            i = i + 1;
        }
        false
    }
}

/// Bundles the membership predicate, the quote marker, and the bracket
/// policy, and rewrites regex strings between the two escaping dialects.
pub struct RegexQuoteFixer<P> {
    pub lambda: P,
    pub quote_char: char,
    pub cc: CharacterClass,
}

impl RegexQuoteFixer<CharSet> {
    /// A fixer whose predicate holds exactly the characters of `v`, with the
    /// default quote marker and bracket policy.
    pub fn from_chars(v: Vec<char>) -> (r: Self)
        ensures
            r.lambda.chars@ == v@,
            r.quote_char == DEFAULT_QUOTE_CHAR,
            r.cc == CharacterClass::KeepUnalteredButQuoteMeta,
    {
        RegexQuoteFixer {
            lambda: CharSet { chars: v },
            quote_char: DEFAULT_QUOTE_CHAR,
            cc: CharacterClass::KeepUnalteredButQuoteMeta,
        }
    }

    /// A fixer whose predicate holds exactly the characters of `s`, with the
    /// default quote marker and bracket policy.
    pub fn from_string(s: String) -> (r: Self)
        ensures
            r.lambda.chars@ == s@,
            r.quote_char == DEFAULT_QUOTE_CHAR,
            r.cc == CharacterClass::KeepUnalteredButQuoteMeta,
    {
        let st: &str = s.as_str();
        let n: usize = st.unicode_len();
        let mut chars: Vec<char> = Vec::new();
        let mut i: usize = 0;
        while i < n
            invariant
                n == s@.len(),
                st@ == s@,
                i <= n,
                chars@ == s@.subrange(0, i as int),
            decreases n - i,
        {
            chars.push(st.get_char(i));
            proof {
                assert(chars@ =~= s@.subrange(0, i as int + 1));
            }
            i = i + 1;
        }
        proof {
            assert(chars@ =~= s@);
        }
        RegexQuoteFixer {
            lambda: CharSet { chars },
            quote_char: DEFAULT_QUOTE_CHAR,
            cc: CharacterClass::KeepUnalteredButQuoteMeta,
        }
    }

    /// The preset for translating between grep's basic-regex dialect and the
    /// dialect of common extended-regex matchers: the characters whose
    /// default specialness differs are the parentheses, the question mark,
    /// the plus and the braces.
    pub fn for_grep() -> (r: Self)
        ensures
            r.quote_char == DEFAULT_QUOTE_CHAR,
            r.cc == CharacterClass::KeepUnalteredButQuoteMeta,
            forall|c: char| #[trigger] r.lambda.spec_contains(c) <==> (c == '(' || c == ')'
                || c == '?' || c == '+' || c == '{' || c == '}'),
    {
        let r = Self::from_string(String::from_str("()?+{}"));
        proof {
            reveal_strlit("()?+{}");
            let l = "()?+{}"@;
            assert(l.len() == 6);
            assert(l[0] == '(' && l[1] == ')' && l[2] == '?' && l[3] == '+' && l[4] == '{'
                && l[5] == '}');
            assert forall|c: char| #[trigger] r.lambda.spec_contains(c) implies (c == '(' || c
                == ')' || c == '?' || c == '+' || c == '{' || c == '}') by {
                let j: int = choose|j: int| 0 <= j < l.len() && l[j] == c;
                assert(j == 0 || j == 1 || j == 2 || j == 3 || j == 4 || j == 5);
            }
            assert forall|c: char| (c == '(' || c == ')' || c == '?' || c == '+' || c == '{'
                || c == '}') implies #[trigger] r.lambda.spec_contains(c) by {
                if c == '(' {
                    assert(l[0] == c);
                } else if c == ')' {
                    assert(l[1] == c);
                } else if c == '?' {
                    assert(l[2] == c);
                } else if c == '+' {
                    assert(l[3] == c);
                } else if c == '{' {
                    assert(l[4] == c);
                } else {
                    assert(l[5] == c);
                }
            }
        }
        r
    }
}

impl<P: CharPredicate> RegexQuoteFixer<P> {
    /// A fixer holding an arbitrary membership predicate, with the default
    /// quote marker and bracket policy.
    pub fn from_lambda(lambda: P) -> (r: Self)
        ensures
            r.lambda == lambda,
            r.quote_char == DEFAULT_QUOTE_CHAR,
            r.cc == CharacterClass::KeepUnalteredButQuoteMeta,
    {
        RegexQuoteFixer {
            lambda,
            quote_char: DEFAULT_QUOTE_CHAR,
            cc: CharacterClass::KeepUnalteredButQuoteMeta,
        }
    }

    /// Rewrites the escape markers of `s` for the opposite dialect: the
    /// left-to-right transduction described by [`spec_fix`], with the
    /// predicate, quote marker and bracket policy of this fixer.
    #[verifier::rlimit(60)]
    pub fn fix(&self, s: &str) -> (ret: String)
        ensures
            ret@ == spec_fix(self.lambda, self.quote_char, self.cc, s@),
    {
        let n: usize = s.unicode_len();
        let mut ret = String::new();
        let mut pending: bool = false;
        let mut in_class: bool = false;
        let mut pos: usize = 0;
        let mut depth: usize = 0;
        let mut i: usize = 0;
        proof {
            assert(s@.skip(0) =~= s@);
            assert(Seq::<char>::empty() + fix_rec(
                self.lambda,
                self.quote_char,
                self.cc,
                s@,
                false,
                false,
                0,
                0,
            ) =~= fix_rec(self.lambda, self.quote_char, self.cc, s@, false, false, 0, 0));
        }
        while i < n
            invariant
                n == s@.len(),
                i <= n,
                !in_class ==> pos == 0 && depth == 0,
                in_class ==> pos < i && 1 <= depth <= pos + 1,
                self.cc == CharacterClass::Ignore ==> !in_class,
                spec_fix(self.lambda, self.quote_char, self.cc, s@) == ret@ + fix_rec(
                    self.lambda,
                    self.quote_char,
                    self.cc,
                    s@.skip(i as int),
                    pending,
                    in_class,
                    pos as int,
                    depth as int,
                ),
            decreases n - i,
        {
            let c = s.get_char(i);
            let ghost prefix = ret@;
            let ghost st = fix_step(
                self.lambda,
                self.quote_char,
                self.cc,
                c,
                pending,
                in_class,
                pos as int,
                depth as int,
            );
            proof {
                assert(s@.skip(i as int)[0] == s@[i as int]);
                assert(s@.skip(i as int).drop_first() =~= s@.skip(i as int + 1));
                assert(fix_rec(
                    self.lambda,
                    self.quote_char,
                    self.cc,
                    s@.skip(i as int),
                    pending,
                    in_class,
                    pos as int,
                    depth as int,
                ) == st.out + fix_rec(
                    self.lambda,
                    self.quote_char,
                    self.cc,
                    s@.skip(i as int + 1),
                    st.pending,
                    st.in_class,
                    st.pos,
                    st.depth,
                ));
            }
            if self.cc != CharacterClass::Ignore && in_class {
                pos = pos + 1;
                if c == ']' && pos != 1 {
                    depth = depth - 1;
                } else if c == '[' {
                    depth = depth + 1;
                }
                match self.cc {
                    CharacterClass::KeepUnalteredButQuoteMeta => {
                        if c == self.quote_char {
                            if pending {
                                ret.push(self.quote_char);
                                pending = false;
                            } else {
                                pending = true;
                            }
                        } else {
                            if pending {
                                ret.push(self.quote_char);
                                ret.push(self.quote_char);
                                ret.push(c);
                                pending = false;
                            } else {
                                ret.push(c);
                            }
                        }
                    },
                    _ => {
                        ret.push(c);
                    },
                }
                if depth == 0 {
                    in_class = false;
                    pos = 0;
                }
            } else if self.cc != CharacterClass::Ignore && c == '[' {
                if pending {
                    ret.push(self.quote_char);
                    ret.push('[');
                    pending = false;
                } else {
                    ret.push('[');
                    in_class = true;
                    pos = 0;
                    depth = 1;
                }
            } else if c == self.quote_char {
                if pending {
                    ret.push(self.quote_char);
                    ret.push(self.quote_char);
                    pending = false;
                } else {
                    pending = true;
                }
            } else if self.lambda.contains(c) {
                if pending {
                    ret.push(c);
                    pending = false;
                } else {
                    ret.push(self.quote_char);
                    ret.push(c);
                }
            } else {
                if pending {
                    ret.push(self.quote_char);
                    ret.push(c);
                    pending = false;
                } else {
                    ret.push(c);
                }
            }
            proof {
                assert(ret@ =~= prefix + st.out);
                assert(pending == st.pending);
                assert(in_class == st.in_class);
                assert(pos as int == st.pos);
                assert(depth as int == st.depth);
            }
            i = i + 1;
        }
        if pending {
            ret.push(self.quote_char);
        }
        proof {
            assert(s@.skip(n as int) =~= Seq::<char>::empty());
            assert(ret@ =~= spec_fix(self.lambda, self.quote_char, self.cc, s@));
        }
        ret
    }
}

} // verus!
