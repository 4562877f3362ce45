//! Translate regular expressions between two escaping dialects.
//!
//! Regex engines disagree on which characters are metacharacters by default
//! and which become special only when preceded by an escape marker. For a
//! fixed set of characters whose default specialness is inverted between two
//! dialects, [`RegexQuoteFixer::fix`] rewrites the escape markers so the
//! meaning of a pattern is preserved while its spelling convention changes.

mod fixer;
mod laws;
mod model;

pub use fixer::CharPredicate;
pub use fixer::CharSet;
pub use fixer::CharacterClass;
pub use fixer::RegexQuoteFixer;
pub use fixer::DEFAULT_QUOTE_CHAR;
pub use laws::bracket_free;
pub use laws::lemma_fix_involutive_bracket_free;
pub use laws::lemma_fix_involutive_ignore;
pub use laws::lemma_fix_involutive_keep_unaltered;
pub use laws::lemma_fix_plain_identity;
pub use model::FixStep;
pub use model::fix_rec;
pub use model::fix_step;
pub use model::spec_fix;
