use locale_canonicalizer::{
    subtag, AliasTable, CanonicalizationResult, DataError, LanguageRule, LegacyRule,
    LikelyEntry, LikelySubtags, LocaleCanonicalizer, LocaleId, VariantRule, KEY_SD, UND,
};

fn st(s: &str) -> u64 {
    subtag(s.as_bytes()).expect("valid subtag")
}

fn opt(s: &str) -> Option<u64> {
    if s.is_empty() {
        None
    } else {
        Some(st(s))
    }
}

fn loc(language: &str, script: &str, region: &str, variants: &[&str]) -> LocaleId {
    let l = if language.is_empty() { UND } else { st(language) };
    LocaleId::new(
        l,
        opt(script),
        opt(region),
        variants.iter().map(|v| st(v)).collect(),
        Vec::new(),
    )
}

fn text(l: &LocaleId) -> String {
    String::from_utf8(l.to_tag_bytes()).expect("ascii")
}

fn row(key: (&str, &str, &str), to: (&str, &str, &str)) -> LikelyEntry {
    let l = if key.0.is_empty() { UND } else { st(key.0) };
    LikelyEntry {
        key: (l, opt(key.1), opt(key.2)),
        language: st(to.0),
        script: st(to.1),
        region: st(to.2),
    }
}

fn likely_table() -> LikelySubtags {
    LikelySubtags {
        entries: vec![
            row(("zh", "", ""), ("zh", "Hans", "CN")),
            row(("zh", "", "TW"), ("zh", "Hant", "TW")),
            row(("zh", "Hant", ""), ("zh", "Hant", "TW")),
            row(("", "", "TW"), ("zh", "Hant", "TW")),
            row(("en", "", ""), ("en", "Latn", "US")),
            row(("", "", ""), ("en", "Latn", "US")),
        ],
    }
}

fn empty_aliases() -> AliasTable {
    AliasTable {
        legacy: Vec::new(),
        languages: Vec::new(),
        scripts: Vec::new(),
        regions: Vec::new(),
        variants: Vec::new(),
        subdivisions: Vec::new(),
    }
}

fn alias_table() -> AliasTable {
    let mut t = empty_aliases();
    t.legacy.push(LegacyRule {
        from_language: st("art"),
        from_script: None,
        from_region: None,
        from_variants: vec![st("lojban")],
        to_language: st("jbo"),
        to_script: None,
        to_region: None,
        to_variants: Vec::new(),
    });
    t.languages.push(LanguageRule {
        language: UND,
        variants: vec![st("hepburn"), st("heploc")],
        to_language: UND,
        to_script: None,
        to_region: None,
        to_variants: vec![st("alalc97")],
    });
    t.languages.push(LanguageRule {
        language: st("sh"),
        variants: Vec::new(),
        to_language: st("sr"),
        to_script: Some(st("Latn")),
        to_region: None,
        to_variants: Vec::new(),
    });
    t.languages.push(LanguageRule {
        language: st("iw"),
        variants: Vec::new(),
        to_language: st("he"),
        to_script: None,
        to_region: None,
        to_variants: Vec::new(),
    });
    t.scripts.push((st("Qaai"), st("Zinh")));
    t.regions.push((st("DD"), st("DE")));
    t.variants.push(VariantRule { variant: st("heploc"), replacements: vec![st("alalc97")] });
    t.variants.push(VariantRule {
        variant: st("aaland"),
        replacements: vec![st("fonipa"), st("arevela")],
    });
    t.subdivisions.push((st("cn11"), st("cnbj")));
    t
}

fn engine() -> LocaleCanonicalizer {
    LocaleCanonicalizer::try_new(alias_table(), likely_table()).expect("well-formed tables")
}

#[test]
fn canonicalize_merges_variant_alias() {
    let lc = engine();
    let mut l = loc("ja", "Latn", "", &["fonipa", "hepburn", "heploc"]);
    assert_eq!(lc.canonicalize(&mut l), CanonicalizationResult::Modified);
    assert_eq!(text(&l), "ja-Latn-alalc97-fonipa");
}

#[test]
fn maximize_fills_script() {
    let lc = engine();
    let mut l = loc("zh", "", "CN", &[]);
    assert_eq!(lc.maximize(&mut l), CanonicalizationResult::Modified);
    assert_eq!(text(&l), "zh-Hans-CN");
}

#[test]
fn maximize_full_is_unmodified() {
    let lc = engine();
    let mut l = loc("zh", "Hant", "TW", &[]);
    assert_eq!(lc.maximize(&mut l), CanonicalizationResult::Unmodified);
    assert_eq!(text(&l), "zh-Hant-TW");
}

#[test]
fn minimize_to_language() {
    let lc = engine();
    let mut l = loc("zh", "Hans", "CN", &[]);
    assert_eq!(lc.minimize(&mut l), CanonicalizationResult::Modified);
    assert_eq!(text(&l), "zh");
}

#[test]
fn minimize_language_only_is_unmodified() {
    let lc = engine();
    let mut l = loc("zh", "", "", &[]);
    assert_eq!(lc.minimize(&mut l), CanonicalizationResult::Unmodified);
    assert_eq!(text(&l), "zh");
}

#[test]
fn canonicalize_without_alias_is_unmodified() {
    let lc = engine();
    let mut l = loc("en", "", "US", &[]);
    assert_eq!(lc.canonicalize(&mut l), CanonicalizationResult::Unmodified);
    assert_eq!(text(&l), "en-US");
}

#[test]
fn canonicalize_twice_is_unmodified() {
    let lc = engine();
    let mut l = loc("sh", "", "DD", &["heploc", "aaland"]);
    assert_eq!(lc.canonicalize(&mut l), CanonicalizationResult::Modified);
    let first = text(&l);
    assert_eq!(first, "sr-Latn-DE-alalc97-arevela-fonipa");
    assert_eq!(lc.canonicalize(&mut l), CanonicalizationResult::Unmodified);
    assert_eq!(text(&l), first);
}

#[test]
fn minimize_then_maximize_recovers_maximized() {
    let lc = engine();
    for (lang, script, region) in [("zh", "Hant", "TW"), ("", "", "TW"), ("zh", "Hans", ""), ("en", "", "")] {
        let mut a = loc(lang, script, region, &[]);
        lc.maximize(&mut a);
        let mut b = loc(lang, script, region, &[]);
        lc.minimize(&mut b);
        lc.maximize(&mut b);
        assert_eq!(text(&a), text(&b));
    }
}

#[test]
fn minimize_traditional_prefers_script() {
    let lc = engine();
    let mut l = loc("zh", "Hant", "TW", &[]);
    assert_eq!(lc.minimize(&mut l), CanonicalizationResult::Modified);
    assert_eq!(text(&l), "zh-Hant");
}

#[test]
fn maximize_keeps_explicit_fields() {
    let lc = engine();
    let mut l = loc("en", "Cyrl", "", &["fonipa"]);
    assert_eq!(lc.maximize(&mut l), CanonicalizationResult::Modified);
    assert_eq!(text(&l), "en-Cyrl-US-fonipa");
}

#[test]
fn maximize_wildcard_language() {
    let lc = engine();
    let mut l = loc("", "", "TW", &[]);
    assert_eq!(lc.maximize(&mut l), CanonicalizationResult::Modified);
    assert_eq!(text(&l), "zh-Hant-TW");
    let mut w = loc("", "", "", &[]);
    assert_eq!(lc.maximize(&mut w), CanonicalizationResult::Modified);
    assert_eq!(text(&w), "en-Latn-US");
}

#[test]
fn minimize_keeps_variants_and_keywords() {
    let lc = engine();
    let mut l = LocaleId::new(
        st("zh"),
        Some(st("Hans")),
        Some(st("CN")),
        vec![st("pinyin")],
        vec![(st("ca"), st("chinese"))],
    );
    assert_eq!(lc.minimize(&mut l), CanonicalizationResult::Modified);
    assert_eq!(text(&l), "zh-pinyin-u-ca-chinese");
}

#[test]
fn canonicalize_legacy_tag() {
    let lc = engine();
    let mut l = loc("art", "", "", &["lojban"]);
    assert_eq!(lc.canonicalize(&mut l), CanonicalizationResult::Modified);
    assert_eq!(text(&l), "jbo");
}

#[test]
fn canonicalize_language_alias_keeps_explicit_script() {
    let lc = engine();
    let mut l = loc("sh", "Cyrl", "", &[]);
    assert_eq!(lc.canonicalize(&mut l), CanonicalizationResult::Modified);
    assert_eq!(text(&l), "sr-Cyrl");
    let mut m = loc("iw", "", "IL", &[]);
    assert_eq!(lc.canonicalize(&mut m), CanonicalizationResult::Modified);
    assert_eq!(text(&m), "he-IL");
}

#[test]
fn canonicalize_script_and_subdivision() {
    let lc = engine();
    let mut l = LocaleId::new(
        st("zh"),
        Some(st("Qaai")),
        None,
        Vec::new(),
        vec![(KEY_SD, st("cn11")), (st("ca"), st("cn11"))],
    );
    assert_eq!(lc.canonicalize(&mut l), CanonicalizationResult::Modified);
    assert_eq!(text(&l), "zh-Zinh-u-ca-cn11-sd-cnbj");
}

#[test]
fn canonicalize_sorts_and_dedups_variants() {
    let lc = LocaleCanonicalizer::try_new(empty_aliases(), likely_table()).unwrap();
    let mut l = loc("de", "", "", &["fonipa", "1996", "fonipa"]);
    assert_eq!(lc.canonicalize(&mut l), CanonicalizationResult::Modified);
    assert_eq!(text(&l), "de-1996-fonipa");
}

#[test]
fn canonicalize_cyclic_data_stops() {
    let mut t = empty_aliases();
    t.scripts.push((st("Aaaa"), st("Bbbb")));
    t.scripts.push((st("Bbbb"), st("Aaaa")));
    let lc = LocaleCanonicalizer::try_new(t, likely_table()).unwrap();
    let mut l = loc("xx", "Aaaa", "", &[]);
    assert_eq!(lc.canonicalize(&mut l), CanonicalizationResult::Unmodified);
    assert_eq!(text(&l), "xx-Aaaa");
    let mut m = loc("xx", "Bbbb", "", &["fonipa", "1996"]);
    assert_eq!(lc.try_canonicalize(&mut m), Err(DataError::AliasCycle));
    assert_eq!(text(&m), "xx-Bbbb-fonipa-1996");
}

#[test]
fn try_canonicalize_reaches_fixpoint() {
    let lc = engine();
    let mut l = loc("iw", "", "DD", &[]);
    assert_eq!(lc.try_canonicalize(&mut l), Ok(CanonicalizationResult::Modified));
    assert_eq!(text(&l), "he-DE");
    assert_eq!(lc.try_canonicalize(&mut l), Ok(CanonicalizationResult::Unmodified));
}

#[test]
fn canonicalize_orders_keywords_by_key() {
    let lc = LocaleCanonicalizer::try_new(empty_aliases(), likely_table()).unwrap();
    let mut l = LocaleId::new(
        st("de"),
        None,
        None,
        Vec::new(),
        vec![(st("nu"), st("latn")), (st("ca"), st("gregory")), (st("nu"), st("arab"))],
    );
    assert_eq!(lc.canonicalize(&mut l), CanonicalizationResult::Modified);
    assert_eq!(text(&l), "de-u-ca-gregory-nu-latn");
}

#[test]
fn malformed_likely_table_is_refused() {
    let mut t = likely_table();
    t.entries.push(row(("fr", "", ""), ("und", "Latn", "FR")));
    let r = LocaleCanonicalizer::try_new(alias_table(), t);
    assert_eq!(r.err(), Some(DataError::MalformedLikelySubtags));
}

#[test]
fn maximize_without_table_hit_is_unmodified() {
    let t = LikelySubtags { entries: vec![row(("zh", "", ""), ("zh", "Hans", "CN"))] };
    let lc = LocaleCanonicalizer::try_new(empty_aliases(), t).unwrap();
    let mut l = loc("fr", "", "", &[]);
    assert_eq!(lc.maximize(&mut l), CanonicalizationResult::Unmodified);
    assert_eq!(text(&l), "fr");
}

#[test]
fn subtag_packing() {
    assert_eq!(subtag(b"und"), Some(UND));
    assert_eq!(subtag(b""), None);
    assert_eq!(subtag(b"abcdefghi"), None);
    assert_eq!(subtag(b"a-b"), None);
    assert_eq!(subtag(b"zh"), Some(0x7a68_0000_0000_0000));
    assert!(st("alalc97") < st("fonipa"));
    assert!(st("abc") < st("abcd"));
}
