//! The canonicalization engine: `canonicalize`, `maximize` and `minimize`.
use vstd::prelude::*;

use crate::aliases::{
    alias_pass, apply_legacy, component_step, first_legacy_from, AliasTable, AliasView,
};
use crate::likely::{
    candidates, first_hit_from, is_full, likely_hit, likely_well_formed, lookup_from,
    maximize_core, minimize_core, probe, LikelyEntry, LikelySubtags,
};
use crate::locale::{
    core_eq, keys_increasing, lemma_sort_dedup_sorted, lemma_sort_keywords_sorted,
    strictly_sorted, LocaleId, LocaleView,
};
use crate::subtag::UND;

verus! {

/// The most alias passes `canonicalize` makes; data that still changes after
/// that many passes is cyclic or malformed.
pub const MAX_PASSES: usize = 64;

/// Whether an operation changed the identifier.
#[derive(PartialEq, Eq, Structural, Debug, Clone, Copy)]
pub enum CanonicalizationResult {
    Modified,
    Unmodified,
}

/// Why an engine could not be built from its tables.
#[derive(PartialEq, Eq, Structural, Debug, Clone, Copy)]
pub enum DataError {
    /// A likely-subtags row gives the wildcard language.
    MalformedLikelySubtags,
    /// Alias resolution still changed the identifier after `MAX_PASSES`
    /// passes: the alias data is cyclic.
    AliasCycle,
}

/// `Modified` exactly when the value changed.
pub open spec fn outcome(before: LocaleView, after: LocaleView) -> CanonicalizationResult {
    if before == after {
        CanonicalizationResult::Unmodified
    } else {
        CanonicalizationResult::Modified
    }
}

/// Alias passes from `v` until one changes nothing, at most `fuel` of them.
pub open spec fn canon_iter(t: AliasView, v: LocaleView, fuel: nat) -> LocaleView
    decreases fuel,
{
    if fuel == 0 {
        v
    } else {
        let w = alias_pass(t, v);
        if w == v {
            v
        } else {
            canon_iter(t, w, (fuel - 1) as nat)
        }
    }
}

/// The canonical form of `v`.
pub open spec fn canonical(t: AliasView, v: LocaleView) -> LocaleView {
    canon_iter(t, v, MAX_PASSES as nat)
}

/// Whether alias resolution of `v` reached a fixpoint within the pass bound.
pub open spec fn converges(t: AliasView, v: LocaleView) -> bool {
    alias_pass(t, canonical(t, v)) == canonical(t, v)
}

pub open spec fn maximized(t: Seq<LikelyEntry>, v: LocaleView) -> LocaleView {
    v.with_core(maximize_core(t, v.core_tag()))
}

pub open spec fn minimized(t: Seq<LikelyEntry>, v: LocaleView) -> LocaleView {
    v.with_core(minimize_core(t, v.core_tag()))
}

/// The engine: an alias table and a likely-subtags table, read only.
pub struct LocaleCanonicalizer {
    pub aliases: AliasTable,
    pub likely: LikelySubtags,
}

impl LocaleCanonicalizer {
    /// Builds an engine from its two tables; fails when a likely-subtags row
    /// gives the wildcard language.
    pub fn try_new(aliases: AliasTable, likely: LikelySubtags) -> (r: Result<
        LocaleCanonicalizer,
        DataError,
    >)
        ensures
            r is Err <==> !likely_well_formed(likely.entries@),
            r is Err ==> r == Err::<LocaleCanonicalizer, DataError>(
                DataError::MalformedLikelySubtags,
            ),
            r is Ok ==> r->Ok_0.aliases@ == aliases@ && r->Ok_0.likely.entries@
                == likely.entries@,
    {
        if !likely.is_well_formed() {
            return Err(DataError::MalformedLikelySubtags);
        }
        Ok(LocaleCanonicalizer { aliases, likely })
    }

    /// Resolves aliases until a pass changes nothing (at most `MAX_PASSES`
    /// passes); each pass also sorts the variants and keywords.
    pub fn canonicalize(&self, loc: &mut LocaleId) -> (r: CanonicalizationResult)
        ensures
            final(loc)@ == canonical(self.aliases@, old(loc)@),
            r == outcome(old(loc)@, final(loc)@),
            converges(self.aliases@, old(loc)@) ==> strictly_sorted(final(loc)@.variants)
                && keys_increasing(final(loc)@.keywords),
    {
        let ghost t = self.aliases@;
        let ghost start = loc@;
        let mut cur = loc.duplicate();
        let mut n: usize = 0;
        let mut done = false;
        while n < MAX_PASSES && !done
            invariant
                n <= MAX_PASSES,
                t == self.aliases@,
                canonical(t, start) == canon_iter(t, cur@, (MAX_PASSES - n) as nat),
                done ==> alias_pass(t, cur@) == cur@,
            decreases MAX_PASSES - n, if done {
                0int
            } else {
                1int
            },
        {
            let next = self.aliases.pass(&cur);
            if next.same_as(&cur) {
                done = true;
            } else {
                cur = next;
                n = n + 1;
            }
        }
        proof {
            if converges(t, start) {
                canonical_is_ordered(t, start);
            }
        }
        let changed = !cur.same_as(loc);
        *loc = cur;
        if changed {
            CanonicalizationResult::Modified
        } else {
            CanonicalizationResult::Unmodified
        }
    }

    /// `canonicalize`, reporting `AliasCycle` (and leaving the identifier
    /// unchanged) when the pass bound ends resolution before its fixpoint.
    pub fn try_canonicalize(&self, loc: &mut LocaleId) -> (r: Result<
        CanonicalizationResult,
        DataError,
    >)
        ensures
            r is Err <==> !converges(self.aliases@, old(loc)@),
            r is Err ==> r == Err::<CanonicalizationResult, DataError>(DataError::AliasCycle)
                && final(loc)@ == old(loc)@,
            r is Ok ==> final(loc)@ == canonical(self.aliases@, old(loc)@) && r
                == Ok::<CanonicalizationResult, DataError>(outcome(old(loc)@, final(loc)@)),
    {
        let mut work = loc.duplicate();
        let res = self.canonicalize(&mut work);
        let again = self.aliases.pass(&work);
        if !again.same_as(&work) {
            return Err(DataError::AliasCycle);
        }
        *loc = work;
        Ok(res)
    }

    /// Fills an absent language, script or region from the likely-subtags
    /// table; variants, keywords and present fields stay.
    pub fn maximize(&self, loc: &mut LocaleId) -> (r: CanonicalizationResult)
        ensures
            final(loc)@ == maximized(self.likely.entries@, old(loc)@),
            r == outcome(old(loc)@, final(loc)@),
            old(loc)@.language != UND ==> final(loc)@.language == old(loc)@.language,
            old(loc)@.script.is_some() ==> final(loc)@.script == old(loc)@.script,
            old(loc)@.region.is_some() ==> final(loc)@.region == old(loc)@.region,
            final(loc)@.variants == old(loc)@.variants,
            final(loc)@.keywords == old(loc)@.keywords,
    {
        let c = loc.core_tag();
        let m = self.likely.maximize_core(c);
        loc.language = m.0;
        loc.script = m.1;
        loc.region = m.2;
        if core_eq(c, m) {
            CanonicalizationResult::Unmodified
        } else {
            CanonicalizationResult::Modified
        }
    }

    /// Replaces language, script and region by the shortest of the reduced
    /// forms that maximizes to the same core; variants and keywords stay.
    pub fn minimize(&self, loc: &mut LocaleId) -> (r: CanonicalizationResult)
        ensures
            final(loc)@ == minimized(self.likely.entries@, old(loc)@),
            r == outcome(old(loc)@, final(loc)@),
            final(loc)@.variants == old(loc)@.variants,
            final(loc)@.keywords == old(loc)@.keywords,
    {
        let c = loc.core_tag();
        let m = self.likely.minimize_core(c);
        loc.language = m.0;
        loc.script = m.1;
        loc.region = m.2;
        if core_eq(c, m) {
            CanonicalizationResult::Unmodified
        } else {
            CanonicalizationResult::Modified
        }
    }
}

/// Canonicalizing a canonical form again changes nothing, wherever alias
/// resolution reached its fixpoint within the pass bound.
pub proof fn canonicalize_idempotent(t: AliasView, v: LocaleView)
    requires
        converges(t, v),
    ensures
        canonical(t, canonical(t, v)) == canonical(t, v),
        outcome(canonical(t, v), canonical(t, canonical(t, v)))
            == CanonicalizationResult::Unmodified,
{
    let w = canonical(t, v);
    assert(canon_iter(t, w, MAX_PASSES as nat) == w);
}

/// A canonical form that resolution reached has its variants strictly
/// increasing and its keyword keys strictly increasing.
pub proof fn canonical_is_ordered(t: AliasView, v: LocaleView)
    requires
        converges(t, v),
    ensures
        strictly_sorted(canonical(t, v).variants),
        keys_increasing(canonical(t, v).keywords),
{
    let w = canonical(t, v);
    match first_legacy_from(t.legacy, w, 0) {
        Some(k) => {
            let a = apply_legacy(t.legacy[k], w);
            lemma_sort_dedup_sorted(a.variants);
            lemma_sort_keywords_sorted(a.keywords);
        },
        None => {
            let a = component_step(t, w);
            lemma_sort_dedup_sorted(a.variants);
            lemma_sort_keywords_sorted(a.keywords);
        },
    }
}

proof fn lemma_lookup_from_row(t: Seq<LikelyEntry>, key: (u64, Option<u64>, Option<u64>), k: int)
    requires
        likely_well_formed(t),
        lookup_from(t, key, k).is_some(),
    ensures
        lookup_from(t, key, k).unwrap().0 != UND,
    decreases t.len() - k,
{
    if !(k < 0 || k >= t.len()) && t[k].key != key {
        lemma_lookup_from_row(t, key, k + 1);
    }
}

proof fn lemma_first_hit_row(
    t: Seq<LikelyEntry>,
    cs: Seq<(bool, (u64, Option<u64>, Option<u64>))>,
    k: int,
)
    requires
        likely_well_formed(t),
        first_hit_from(t, cs, k).is_some(),
    ensures
        first_hit_from(t, cs, k).unwrap().0 != UND,
    decreases cs.len() - k,
{
    if !(k < 0 || k >= cs.len()) {
        if probe(t, cs[k].0, cs[k].1).is_some() {
            lemma_lookup_from_row(t, cs[k].1, 0);
        } else {
            lemma_first_hit_row(t, cs, k + 1);
        }
    }
}

/// With a well-formed table, maximizing a maximized core changes nothing.
pub proof fn maximize_idempotent(t: Seq<LikelyEntry>, c: (u64, Option<u64>, Option<u64>))
    requires
        likely_well_formed(t),
    ensures
        maximize_core(t, maximize_core(t, c)) == maximize_core(t, c),
{
    if !is_full(c) && likely_hit(t, c).is_some() {
        lemma_first_hit_row(t, candidates(c), 0);
        assert(is_full(maximize_core(t, c)));
    }
}

/// Maximizing the minimized identifier gives the same language, script and
/// region as maximizing the identifier itself.
pub proof fn minimize_then_maximize(t: Seq<LikelyEntry>, v: LocaleView)
    requires
        likely_well_formed(t),
    ensures
        maximized(t, minimized(t, v)).core_tag() == maximized(t, v).core_tag(),
{
    maximize_idempotent(t, v.core_tag());
}

/// Maximizing keeps every field that was present, and the variants and
/// keywords.
pub proof fn maximize_keeps_present(t: Seq<LikelyEntry>, v: LocaleView)
    ensures
        v.language != UND ==> maximized(t, v).language == v.language,
        v.script.is_some() ==> maximized(t, v).script == v.script,
        v.region.is_some() ==> maximized(t, v).region == v.region,
        maximized(t, v).variants == v.variants,
        maximized(t, v).keywords == v.keywords,
{
}

/// Minimizing keeps the variants and keywords.
pub proof fn minimize_keeps_variants(t: Seq<LikelyEntry>, v: LocaleView)
    ensures
        minimized(t, v).variants == v.variants,
        minimized(t, v).keywords == v.keywords,
{
}

} // verus!
