//! The alias table and one pass of alias resolution.
use vstd::prelude::*;

use crate::locale::{
    all_in, concat, contains_all, contains_word, copy_pairs, copy_words, opt_eq, remove_all,
    sort_dedup, sort_keywords, sorted_keywords, sorted_unique, without, words_eq, LocaleId, LocaleView,
};
use crate::subtag::UND;

verus! {

/// The packed Unicode extension key `sd` (subdivision).
pub const KEY_SD: u64 = 0x7364_0000_0000_0000;

/// The packed Unicode extension key `rg` (region override).
pub const KEY_RG: u64 = 0x7267_0000_0000_0000;

/// A legacy whole-tag alias: an exact language, script, region and variant
/// list, and the identifier parts that replace them.
pub struct LegacyRule {
    pub from_language: u64,
    pub from_script: Option<u64>,
    pub from_region: Option<u64>,
    pub from_variants: Vec<u64>,
    pub to_language: u64,
    pub to_script: Option<u64>,
    pub to_region: Option<u64>,
    pub to_variants: Vec<u64>,
}

/// A language alias. It applies when the language is `language` (any language
/// when `UND`) and every one of `variants` is present. The language becomes
/// `to_language` (kept when `UND`), an absent script or region is filled
/// from `to_script` / `to_region`, and `variants` give way to `to_variants`.
pub struct LanguageRule {
    pub language: u64,
    pub variants: Vec<u64>,
    pub to_language: u64,
    pub to_script: Option<u64>,
    pub to_region: Option<u64>,
    pub to_variants: Vec<u64>,
}

/// A variant alias: `variant` gives way to `replacements`.
pub struct VariantRule {
    pub variant: u64,
    pub replacements: Vec<u64>,
}

/// The alias table. Within each category the first matching rule applies.
pub struct AliasTable {
    pub legacy: Vec<LegacyRule>,
    pub languages: Vec<LanguageRule>,
    pub scripts: Vec<(u64, u64)>,
    pub regions: Vec<(u64, u64)>,
    pub variants: Vec<VariantRule>,
    pub subdivisions: Vec<(u64, u64)>,
}

/// The mathematical value of an `AliasTable`: its rule lists.
pub struct AliasView {
    pub legacy: Seq<LegacyRule>,
    pub languages: Seq<LanguageRule>,
    pub scripts: Seq<(u64, u64)>,
    pub regions: Seq<(u64, u64)>,
    pub variants: Seq<VariantRule>,
    pub subdivisions: Seq<(u64, u64)>,
}

impl View for AliasTable {
    type V = AliasView;

    open spec fn view(&self) -> AliasView {
        AliasView {
            legacy: self.legacy@,
            languages: self.languages@,
            scripts: self.scripts@,
            regions: self.regions@,
            variants: self.variants@,
            subdivisions: self.subdivisions@,
        }
    }
}

pub open spec fn legacy_matches(r: LegacyRule, v: LocaleView) -> bool {
    &&& r.from_language == v.language
    &&& r.from_script == v.script
    &&& r.from_region == v.region
    &&& r.from_variants@ == v.variants
}

pub open spec fn first_legacy_from(rs: Seq<LegacyRule>, v: LocaleView, k: int) -> Option<int>
    decreases rs.len() - k,
{
    if k < 0 || k >= rs.len() {
        None
    } else if legacy_matches(rs[k], v) {
        Some(k)
    } else {
        first_legacy_from(rs, v, k + 1)
    }
}

pub open spec fn apply_legacy(r: LegacyRule, v: LocaleView) -> LocaleView {
    LocaleView {
        language: r.to_language,
        script: r.to_script,
        region: r.to_region,
        variants: r.to_variants@,
        keywords: v.keywords,
    }
}

pub open spec fn language_matches(r: LanguageRule, v: LocaleView) -> bool {
    (r.language == UND || r.language == v.language) && all_in(r.variants@, v.variants)
}

pub open spec fn first_language_from(rs: Seq<LanguageRule>, v: LocaleView, k: int) -> Option<int>
    decreases rs.len() - k,
{
    if k < 0 || k >= rs.len() {
        None
    } else if language_matches(rs[k], v) {
        Some(k)
    } else {
        first_language_from(rs, v, k + 1)
    }
}

/// Applies a language alias, filling only the fields that are absent.
pub open spec fn apply_language(r: LanguageRule, v: LocaleView) -> LocaleView {
    LocaleView {
        language: if r.to_language == UND {
            v.language
        } else {
            r.to_language
        },
        script: if v.script.is_none() {
            r.to_script
        } else {
            v.script
        },
        region: if v.region.is_none() {
            r.to_region
        } else {
            v.region
        },
        variants: remove_all(v.variants, r.variants@) + r.to_variants@,
        keywords: v.keywords,
    }
}

/// The replacement of `x` by the first pair at or after `k` whose first is `x`.
pub open spec fn pair_lookup_from(rs: Seq<(u64, u64)>, x: u64, k: int) -> Option<u64>
    decreases rs.len() - k,
{
    if k < 0 || k >= rs.len() {
        None
    } else if rs[k].0 == x {
        Some(rs[k].1)
    } else {
        pair_lookup_from(rs, x, k + 1)
    }
}

/// `x` replaced by its alias, or `x` when it has none.
pub open spec fn replaced(rs: Seq<(u64, u64)>, x: u64) -> u64 {
    match pair_lookup_from(rs, x, 0) {
        Some(y) => y,
        None => x,
    }
}

pub open spec fn replaced_opt(rs: Seq<(u64, u64)>, x: Option<u64>) -> Option<u64> {
    match x {
        Some(y) => Some(replaced(rs, y)),
        None => None,
    }
}

pub open spec fn first_variant_from(rs: Seq<VariantRule>, vs: Seq<u64>, k: int) -> Option<int>
    decreases rs.len() - k,
{
    if k < 0 || k >= rs.len() {
        None
    } else if vs.contains(rs[k].variant) {
        Some(k)
    } else {
        first_variant_from(rs, vs, k + 1)
    }
}

/// The variants after the first variant alias whose variant is present.
pub open spec fn variants_step(rs: Seq<VariantRule>, vs: Seq<u64>) -> Seq<u64> {
    match first_variant_from(rs, vs, 0) {
        Some(k) => remove_all(vs, seq![rs[k].variant]) + rs[k].replacements@,
        None => vs,
    }
}

/// A keyword with its subdivision value replaced by its alias.
pub open spec fn keyword_step(rs: Seq<(u64, u64)>, kv: (u64, u64)) -> (u64, u64) {
    if kv.0 == KEY_SD || kv.0 == KEY_RG {
        (kv.0, replaced(rs, kv.1))
    } else {
        kv
    }
}

pub open spec fn keywords_step(rs: Seq<(u64, u64)>, ks: Seq<(u64, u64)>) -> Seq<(u64, u64)> {
    ks.map_values(|kv: (u64, u64)| keyword_step(rs, kv))
}

/// Language, script, region, variant and subdivision aliases, in that order.
pub open spec fn component_step(t: AliasView, v: LocaleView) -> LocaleView {
    let a = match first_language_from(t.languages, v, 0) {
        Some(k) => apply_language(t.languages[k], v),
        None => v,
    };
    LocaleView {
        language: a.language,
        script: replaced_opt(t.scripts, a.script),
        region: replaced_opt(t.regions, a.region),
        variants: variants_step(t.variants, a.variants),
        keywords: keywords_step(t.subdivisions, a.keywords),
    }
}

/// Variants sorted and deduplicated; keywords sorted by key, one per key.
pub open spec fn normalized(v: LocaleView) -> LocaleView {
    LocaleView { variants: sort_dedup(v.variants), keywords: sort_keywords(v.keywords), ..v }
}

/// One pass: a legacy whole-tag alias if one matches, else the component
/// aliases; then canonical variant and keyword order.
pub open spec fn alias_pass(t: AliasView, v: LocaleView) -> LocaleView {
    match first_legacy_from(t.legacy, v, 0) {
        Some(k) => normalized(apply_legacy(t.legacy[k], v)),
        None => normalized(component_step(t, v)),
    }
}

fn first_pair(rs: &Vec<(u64, u64)>, x: u64) -> (r: Option<u64>)
    ensures
        r == pair_lookup_from(rs@, x, 0),
{
    let mut i: usize = 0;
    while i < rs.len()
        invariant
            i <= rs@.len(),
            pair_lookup_from(rs@, x, 0) == pair_lookup_from(rs@, x, i as int),
        decreases rs@.len() - i,
    {
        if rs[i].0 == x {
            return Some(rs[i].1);
        }
        i = i + 1;
    }
    None
}

fn replace_word(rs: &Vec<(u64, u64)>, x: u64) -> (r: u64)
    ensures
        r == replaced(rs@, x),
{
    match first_pair(rs, x) {
        Some(y) => y,
        None => x,
    }
}

fn replace_opt(rs: &Vec<(u64, u64)>, x: Option<u64>) -> (r: Option<u64>)
    ensures
        r == replaced_opt(rs@, x),
{
    match x {
        Some(y) => Some(replace_word(rs, y)),
        None => None,
    }
}

impl AliasTable {
    fn find_legacy(&self, v: &LocaleId) -> (r: Option<usize>)
        ensures
            r.is_some() == first_legacy_from(self.legacy@, v@, 0).is_some(),
            r.is_some() ==> r.unwrap() < self.legacy@.len(),
            r.is_some() ==> first_legacy_from(self.legacy@, v@, 0) == Some(r.unwrap() as int),
    {
        let mut i: usize = 0;
        while i < self.legacy.len()
            invariant
                i <= self.legacy@.len(),
                first_legacy_from(self.legacy@, v@, 0) == first_legacy_from(
                    self.legacy@,
                    v@,
                    i as int,
                ),
            decreases self.legacy@.len() - i,
        {
            let r = &self.legacy[i];
            if r.from_language == v.language && opt_eq(r.from_script, v.script) && opt_eq(
                r.from_region,
                v.region,
            ) && words_eq(&r.from_variants, &v.variants) {
                return Some(i);
            }
            i = i + 1;
        }
        None
    }

    fn find_language(&self, v: &LocaleId) -> (r: Option<usize>)
        ensures
            r.is_some() == first_language_from(self.languages@, v@, 0).is_some(),
            r.is_some() ==> r.unwrap() < self.languages@.len(),
            r.is_some() ==> first_language_from(self.languages@, v@, 0) == Some(
                r.unwrap() as int,
            ),
    {
        let mut i: usize = 0;
        while i < self.languages.len()
            invariant
                i <= self.languages@.len(),
                first_language_from(self.languages@, v@, 0) == first_language_from(
                    self.languages@,
                    v@,
                    i as int,
                ),
            decreases self.languages@.len() - i,
        {
            let r = &self.languages[i];
            if (r.language == UND || r.language == v.language) && contains_all(
                &v.variants,
                &r.variants,
            ) {
                return Some(i);
            }
            i = i + 1;
        }
        None
    }

    fn find_variant(&self, vs: &Vec<u64>) -> (r: Option<usize>)
        ensures
            r.is_some() == first_variant_from(self.variants@, vs@, 0).is_some(),
            r.is_some() ==> r.unwrap() < self.variants@.len(),
            r.is_some() ==> first_variant_from(self.variants@, vs@, 0) == Some(
                r.unwrap() as int,
            ),
    {
        let mut i: usize = 0;
        while i < self.variants.len()
            invariant
                i <= self.variants@.len(),
                first_variant_from(self.variants@, vs@, 0) == first_variant_from(
                    self.variants@,
                    vs@,
                    i as int,
                ),
            decreases self.variants@.len() - i,
        {
            if contains_word(vs, self.variants[i].variant) {
                return Some(i);
            }
            i = i + 1;
        }
        None
    }

    fn variants_step(&self, vs: &Vec<u64>) -> (r: Vec<u64>)
        ensures
            r@ == variants_step(self.variants@, vs@),
    {
        match self.find_variant(vs) {
            Some(k) => {
                let rule = &self.variants[k];
                let rm: Vec<u64> = vec![rule.variant];
                assert(rm@ == seq![rule.variant]);
                let kept = without(vs, &rm);
                concat(&kept, &rule.replacements)
            },
            None => copy_words(vs),
        }
    }

    fn keywords_step(&self, ks: &Vec<(u64, u64)>) -> (r: Vec<(u64, u64)>)
        ensures
            r@ == keywords_step(self.subdivisions@, ks@),
    {
        let mut r: Vec<(u64, u64)> = Vec::new();
        let mut i: usize = 0;
        while i < ks.len()
            invariant
                i <= ks@.len(),
                r@ == keywords_step(self.subdivisions@, ks@.take(i as int)),
            decreases ks@.len() - i,
        {
            let kv = ks[i];
            let out = if kv.0 == KEY_SD || kv.0 == KEY_RG {
                (kv.0, replace_word(&self.subdivisions, kv.1))
            } else {
                kv
            };
            r.push(out);
            i = i + 1;
            assert(r@ =~= keywords_step(self.subdivisions@, ks@.take(i as int)));
        }
        assert(ks@.take(ks@.len() as int) =~= ks@);
        r
    }

    fn language_step(&self, v: &LocaleId) -> (r: LocaleId)
        ensures
            r@ == (match first_language_from(self.languages@, v@, 0) {
                Some(k) => apply_language(self.languages@[k], v@),
                None => v@,
            }),
    {
        match self.find_language(v) {
            Some(k) => {
                let rule = &self.languages[k];
                let kept = without(&v.variants, &rule.variants);
                LocaleId {
                    language: if rule.to_language == UND {
                        v.language
                    } else {
                        rule.to_language
                    },
                    script: if v.script.is_none() {
                        rule.to_script
                    } else {
                        v.script
                    },
                    region: if v.region.is_none() {
                        rule.to_region
                    } else {
                        v.region
                    },
                    variants: concat(&kept, &rule.to_variants),
                    keywords: copy_pairs(&v.keywords),
                }
            },
            None => v.duplicate(),
        }
    }

    /// One pass of alias resolution.
    pub fn pass(&self, v: &LocaleId) -> (r: LocaleId)
        ensures
            r@ == alias_pass(self@, v@),
    {
        match self.find_legacy(v) {
            Some(k) => {
                let rule = &self.legacy[k];
                LocaleId {
                    language: rule.to_language,
                    script: rule.to_script,
                    region: rule.to_region,
                    variants: sorted_unique(&rule.to_variants),
                    keywords: sorted_keywords(&v.keywords),
                }
            },
            None => {
                let a = self.language_step(v);
                let vs = self.variants_step(&a.variants);
                let ks = self.keywords_step(&a.keywords);
                LocaleId {
                    language: a.language,
                    script: replace_opt(&self.scripts, a.script),
                    region: replace_opt(&self.regions, a.region),
                    variants: sorted_unique(&vs),
                    keywords: sorted_keywords(&ks),
                }
            },
        }
    }
}

} // verus!
