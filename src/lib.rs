//! Canonicalization of locale identifiers: alias resolution to a fixpoint,
//! and the add / remove likely-subtags operations, over immutable tables.
use vstd::prelude::*;

pub mod aliases;
pub mod canonicalizer;
pub mod likely;
pub mod locale;
pub mod subtag;

pub use aliases::{AliasTable, LanguageRule, LegacyRule, VariantRule, KEY_RG, KEY_SD};
pub use canonicalizer::{CanonicalizationResult, DataError, LocaleCanonicalizer, MAX_PASSES};
pub use likely::{LikelyEntry, LikelySubtags};
pub use locale::LocaleId;
pub use subtag::{subtag, UND};

verus! {

} // verus!
