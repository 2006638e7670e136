//! The structured locale identifier and the sequence operations on its parts.
use vstd::prelude::*;

use crate::subtag::{push_subtag_text, subtag_text};

verus! {

/// The language, script and region of an identifier. The language is `UND`
/// when absent.
pub type Core = (u64, Option<u64>, Option<u64>);

/// A locale identifier whose subtags are packed words (see `subtag`).
///
/// `keywords` holds the Unicode extension's key / value pairs; the engine reads
/// only the subdivision keys and carries the rest through unchanged.
pub struct LocaleId {
    pub language: u64,
    pub script: Option<u64>,
    pub region: Option<u64>,
    pub variants: Vec<u64>,
    pub keywords: Vec<(u64, u64)>,
}

/// The mathematical value of a `LocaleId`.
pub struct LocaleView {
    pub language: u64,
    pub script: Option<u64>,
    pub region: Option<u64>,
    pub variants: Seq<u64>,
    pub keywords: Seq<(u64, u64)>,
}

impl View for LocaleId {
    type V = LocaleView;

    open spec fn view(&self) -> LocaleView {
        LocaleView {
            language: self.language,
            script: self.script,
            region: self.region,
            variants: self.variants@,
            keywords: self.keywords@,
        }
    }
}

impl LocaleView {
    pub open spec fn core_tag(self) -> Core {
        (self.language, self.script, self.region)
    }

    /// The same identifier with its language, script and region replaced.
    pub open spec fn with_core(self, c: Core) -> LocaleView {
        LocaleView { language: c.0, script: c.1, region: c.2, ..self }
    }
}

impl LocaleId {
    /// An identifier with the given parts.
    pub fn new(
        language: u64,
        script: Option<u64>,
        region: Option<u64>,
        variants: Vec<u64>,
        keywords: Vec<(u64, u64)>,
    ) -> (r: LocaleId)
        ensures
            r@ == (LocaleView {
                language,
                script,
                region,
                variants: variants@,
                keywords: keywords@,
            }),
    {
        LocaleId { language, script, region, variants, keywords }
    }

    pub fn core_tag(&self) -> (r: Core)
        ensures
            r == self@.core_tag(),
    {
        (self.language, self.script, self.region)
    }

    /// A copy with equal parts.
    pub fn duplicate(&self) -> (r: LocaleId)
        ensures
            r@ == self@,
    {
        LocaleId {
            language: self.language,
            script: self.script,
            region: self.region,
            variants: copy_words(&self.variants),
            keywords: copy_pairs(&self.keywords),
        }
    }

    /// Whether two identifiers have equal parts.
    pub fn same_as(&self, other: &LocaleId) -> (r: bool)
        ensures
            r == (self@ == other@),
    {
        if !core_eq(self.core_tag(), other.core_tag()) {
            return false;
        }
        let a = words_eq(&self.variants, &other.variants);
        let b = pairs_eq(&self.keywords, &other.keywords);
        if a && b {
            assert(self@ == other@);
        }
        a && b
    }
}

/// `-` followed by the subtag's text, or nothing.
pub open spec fn opt_text(x: Option<u64>) -> Seq<u8> {
    match x {
        Some(y) => seq![0x2du8] + subtag_text(y),
        None => seq![],
    }
}

/// Each subtag preceded by `-`.
pub open spec fn dashed(xs: Seq<u64>) -> Seq<u8>
    decreases xs.len(),
{
    if xs.len() == 0 {
        seq![]
    } else {
        dashed(xs.drop_last()) + seq![0x2du8] + subtag_text(xs.last())
    }
}

/// Each key and value preceded by `-`.
pub open spec fn keyword_text(ks: Seq<(u64, u64)>) -> Seq<u8>
    decreases ks.len(),
{
    if ks.len() == 0 {
        seq![]
    } else {
        keyword_text(ks.drop_last()) + seq![0x2du8] + subtag_text(ks.last().0) + seq![0x2du8]
            + subtag_text(ks.last().1)
    }
}

/// The serialized identifier: `language[-script][-region](-variant)*`, then
/// `-u` and the keywords when there are any.
pub open spec fn tag_text(v: LocaleView) -> Seq<u8> {
    subtag_text(v.language) + opt_text(v.script) + opt_text(v.region) + dashed(v.variants) + (
    if v.keywords.len() == 0 {
        seq![]
    } else {
        seq![0x2du8, 0x75u8] + keyword_text(v.keywords)
    })
}

fn push_opt_text(out: &mut Vec<u8>, x: Option<u64>)
    ensures
        final(out)@ == old(out)@ + opt_text(x),
{
    match x {
        Some(y) => {
            let ghost pre = out@;
            out.push(0x2d);
            push_subtag_text(out, y);
            assert(out@ =~= pre + opt_text(x));
        },
        None => {
            assert(out@ =~= old(out)@ + opt_text(x));
        },
    }
}

impl LocaleId {
    /// The identifier's text, its subtags joined by `-`.
    pub fn to_tag_bytes(&self) -> (r: Vec<u8>)
        ensures
            r@ == tag_text(self@),
    {
        let mut out: Vec<u8> = Vec::new();
        push_subtag_text(&mut out, self.language);
        push_opt_text(&mut out, self.script);
        push_opt_text(&mut out, self.region);
        let ghost head = out@;
        let mut i: usize = 0;
        while i < self.variants.len()
            invariant
                i <= self.variants@.len(),
                out@ == head + dashed(self.variants@.take(i as int)),
            decreases self.variants@.len() - i,
        {
            let ghost before = out@;
            out.push(0x2d);
            push_subtag_text(&mut out, self.variants[i]);
            assert(self.variants@.take(i + 1).drop_last() =~= self.variants@.take(i as int));
            assert(out@ =~= head + dashed(self.variants@.take(i + 1)));
            i = i + 1;
        }
        assert(self.variants@.take(self.variants@.len() as int) =~= self.variants@);
        if self.keywords.len() > 0 {
            out.push(0x2d);
            out.push(0x75);
            let ghost head2 = out@;
            let mut j: usize = 0;
            while j < self.keywords.len()
                invariant
                    j <= self.keywords@.len(),
                    out@ == head2 + keyword_text(self.keywords@.take(j as int)),
                decreases self.keywords@.len() - j,
            {
                let kv = self.keywords[j];
                out.push(0x2d);
                push_subtag_text(&mut out, kv.0);
                out.push(0x2d);
                push_subtag_text(&mut out, kv.1);
                assert(self.keywords@.take(j + 1).drop_last() =~= self.keywords@.take(j as int));
                assert(out@ =~= head2 + keyword_text(self.keywords@.take(j + 1)));
                j = j + 1;
            }
            assert(self.keywords@.take(self.keywords@.len() as int) =~= self.keywords@);
        }
        assert(out@ =~= tag_text(self@));
        out
    }
}

pub fn opt_eq(a: Option<u64>, b: Option<u64>) -> (r: bool)
    ensures
        r == (a == b),
{
    match (a, b) {
        (Some(x), Some(y)) => x == y,
        (None, None) => true,
        _ => false,
    }
}

pub fn core_eq(a: Core, b: Core) -> (r: bool)
    ensures
        r == (a == b),
{
    a.0 == b.0 && opt_eq(a.1, b.1) && opt_eq(a.2, b.2)
}

pub fn copy_words(v: &Vec<u64>) -> (r: Vec<u64>)
    ensures
        r@ == v@,
{
    let mut r: Vec<u64> = Vec::new();
    let mut i: usize = 0;
    while i < v.len()
        invariant
            i <= v@.len(),
            r@ == v@.take(i as int),
        decreases v@.len() - i,
    {
        r.push(v[i]);
        i = i + 1;
        assert(r@ =~= v@.take(i as int));
    }
    assert(v@.take(v@.len() as int) =~= v@);
    r
}

pub fn copy_pairs(v: &Vec<(u64, u64)>) -> (r: Vec<(u64, u64)>)
    ensures
        r@ == v@,
{
    let mut r: Vec<(u64, u64)> = Vec::new();
    let mut i: usize = 0;
    while i < v.len()
        invariant
            i <= v@.len(),
            r@ == v@.take(i as int),
        decreases v@.len() - i,
    {
        r.push(v[i]);
        i = i + 1;
        assert(r@ =~= v@.take(i as int));
    }
    assert(v@.take(v@.len() as int) =~= v@);
    r
}

pub fn words_eq(a: &Vec<u64>, b: &Vec<u64>) -> (r: bool)
    ensures
        r == (a@ == b@),
{
    if a.len() != b.len() {
        return false;
    }
    let mut i: usize = 0;
    while i < a.len()
        invariant
            i <= a@.len(),
            a@.len() == b@.len(),
            forall|k: int| 0 <= k < i ==> a@[k] == b@[k],
        decreases a@.len() - i,
    {
        if a[i] != b[i] {
            return false;
        }
        i = i + 1;
    }
    assert(a@ =~= b@);
    true
}

pub fn pairs_eq(a: &Vec<(u64, u64)>, b: &Vec<(u64, u64)>) -> (r: bool)
    ensures
        r == (a@ == b@),
{
    if a.len() != b.len() {
        return false;
    }
    let mut i: usize = 0;
    while i < a.len()
        invariant
            i <= a@.len(),
            a@.len() == b@.len(),
            forall|k: int| 0 <= k < i ==> a@[k] == b@[k],
        decreases a@.len() - i,
    {
        if a[i].0 != b[i].0 || a[i].1 != b[i].1 {
            return false;
        }
        i = i + 1;
    }
    assert(a@ =~= b@);
    true
}

pub fn contains_word(v: &Vec<u64>, x: u64) -> (r: bool)
    ensures
        r == v@.contains(x),
{
    let mut i: usize = 0;
    while i < v.len()
        invariant
            i <= v@.len(),
            forall|k: int| 0 <= k < i ==> v@[k] != x,
        decreases v@.len() - i,
    {
        if v[i] == x {
            return true;
        }
        i = i + 1;
    }
    false
}

/// Whether every element of `sub` occurs in `s`.
pub open spec fn all_in(sub: Seq<u64>, s: Seq<u64>) -> bool {
    forall|k: int| 0 <= k < sub.len() ==> s.contains(#[trigger] sub[k])
}

pub fn contains_all(s: &Vec<u64>, sub: &Vec<u64>) -> (r: bool)
    ensures
        r == all_in(sub@, s@),
{
    let mut i: usize = 0;
    while i < sub.len()
        invariant
            i <= sub@.len(),
            forall|k: int| 0 <= k < i ==> s@.contains(#[trigger] sub@[k]),
        decreases sub@.len() - i,
    {
        if !contains_word(s, sub[i]) {
            return false;
        }
        i = i + 1;
    }
    true
}

/// `s` without the elements that occur in `rm`, order kept.
pub open spec fn remove_all(s: Seq<u64>, rm: Seq<u64>) -> Seq<u64> {
    s.filter(|x: u64| !rm.contains(x))
}

pub fn without(s: &Vec<u64>, rm: &Vec<u64>) -> (r: Vec<u64>)
    ensures
        r@ == remove_all(s@, rm@),
{
    let ghost f = |x: u64| !rm@.contains(x);
    let mut r: Vec<u64> = Vec::new();
    let mut i: usize = 0;
    while i < s.len()
        invariant
            i <= s@.len(),
            f == (|x: u64| !rm@.contains(x)),
            r@ == s@.take(i as int).filter(f),
        decreases s@.len() - i,
    {
        let x = s[i];
        assert(s@.take(i + 1) =~= s@.take(i as int).push(x));
        proof {
            s@.take(i as int).lemma_filter_push(x, f);
        }
        if !contains_word(rm, x) {
            r.push(x);
        }
        i = i + 1;
    }
    assert(s@.take(s@.len() as int) =~= s@);
    r
}

/// Appends `b` to a copy of `a`.
pub fn concat(a: &Vec<u64>, b: &Vec<u64>) -> (r: Vec<u64>)
    ensures
        r@ == a@ + b@,
{
    let mut r = copy_words(a);
    let mut i: usize = 0;
    while i < b.len()
        invariant
            i <= b@.len(),
            r@ == a@ + b@.take(i as int),
        decreases b@.len() - i,
    {
        r.push(b[i]);
        i = i + 1;
        assert(r@ =~= a@ + b@.take(i as int));
    }
    assert(b@.take(b@.len() as int) =~= b@);
    r
}

/// Inserts `v` into `s` before the first element not below it, unless that
/// element equals `v`.
pub open spec fn insert_sorted(s: Seq<u64>, v: u64) -> Seq<u64>
    decreases s.len(),
{
    if s.len() == 0 {
        seq![v]
    } else if v < s[0] {
        seq![v] + s
    } else if v == s[0] {
        s
    } else {
        seq![s[0]] + insert_sorted(s.drop_first(), v)
    }
}

/// `s` sorted increasingly, each value once.
pub open spec fn sort_dedup(s: Seq<u64>) -> Seq<u64>
    decreases s.len(),
{
    if s.len() == 0 {
        s
    } else {
        insert_sorted(sort_dedup(s.drop_last()), s.last())
    }
}

pub open spec fn strictly_sorted(s: Seq<u64>) -> bool {
    forall|i: int, j: int| 0 <= i < j < s.len() ==> s[i] < s[j]
}

proof fn lemma_insert_sorted_keeps_order(s: Seq<u64>, v: u64)
    requires
        strictly_sorted(s),
    ensures
        strictly_sorted(insert_sorted(s, v)),
        forall|x: u64| #[trigger] insert_sorted(s, v).contains(x) ==> x == v || s.contains(x),
    decreases s.len(),
{
    if s.len() > 0 && v > s[0] {
        let t = s.drop_first();
        lemma_insert_sorted_keeps_order(t, v);
        let r = insert_sorted(t, v);
        assert forall|x: u64| r.contains(x) implies s[0] < x by {
            if x != v {
                let k = choose|k: int| 0 <= k < t.len() && t[k] == x;
                assert(s[k + 1] == x);
            }
        }
        let w = seq![s[0]] + r;
        assert forall|i: int, j: int| 0 <= i < j < w.len() implies w[i] < w[j] by {
            if i == 0 {
                assert(r.contains(w[j]));
            }
        }
        assert forall|x: u64| #[trigger] w.contains(x) implies x == v || s.contains(x) by {
            if x != s[0] {
                let k = choose|k: int| 0 <= k < w.len() && w[k] == x;
                assert(r.contains(x));
                if x != v {
                    let m = choose|m: int| 0 <= m < t.len() && t[m] == x;
                    assert(s[m + 1] == x);
                }
            } else {
                assert(s[0] == x);
            }
        }
    } else if s.len() > 0 && v < s[0] {
        let w = seq![v] + s;
        assert forall|x: u64| #[trigger] w.contains(x) implies x == v || s.contains(x) by {
            let k = choose|k: int| 0 <= k < w.len() && w[k] == x;
            if k > 0 {
                assert(s[k - 1] == x);
            }
        }
    }
}

/// Sorting and deduplicating gives a strictly increasing sequence.
pub proof fn lemma_sort_dedup_sorted(s: Seq<u64>)
    ensures
        strictly_sorted(sort_dedup(s)),
    decreases s.len(),
{
    if s.len() > 0 {
        lemma_sort_dedup_sorted(s.drop_last());
        lemma_insert_sorted_keeps_order(sort_dedup(s.drop_last()), s.last());
    }
}

proof fn lemma_insert_at(s: Seq<u64>, v: u64, j: int)
    requires
        0 <= j <= s.len(),
        forall|k: int| 0 <= k < j ==> s[k] < v,
        j == s.len() || v <= s[j],
    ensures
        insert_sorted(s, v) == (if j < s.len() && s[j] == v {
            s
        } else {
            s.take(j) + seq![v] + s.skip(j)
        }),
    decreases j,
{
    if j == 0 {
        if s.len() == 0 {
            assert(s.take(0) + seq![v] + s.skip(0) =~= seq![v]);
        } else {
            assert(s.take(0) + seq![v] + s.skip(0) =~= seq![v] + s);
        }
    } else {
        let t = s.drop_first();
        assert forall|k: int| 0 <= k < j - 1 implies t[k] < v by {
            assert(s[k + 1] < v);
        }
        lemma_insert_at(t, v, j - 1);
        if j < s.len() && s[j] == v {
            assert(seq![s[0]] + t =~= s);
        } else {
            assert(seq![s[0]] + (t.take(j - 1) + seq![v] + t.skip(j - 1)) =~= s.take(j) + seq![v]
                + s.skip(j));
        }
    }
}

pub fn insert_word_sorted(s: &mut Vec<u64>, v: u64)
    ensures
        final(s)@ == insert_sorted(old(s)@, v),
{
    let mut j: usize = 0;
    while j < s.len() && s[j] < v
        invariant
            j <= s@.len(),
            forall|k: int| 0 <= k < j ==> s@[k] < v,
        decreases s@.len() - j,
    {
        j = j + 1;
    }
    proof {
        lemma_insert_at(s@, v, j as int);
    }
    if j < s.len() && s[j] == v {
        return;
    }
    let ghost before = s@;
    s.insert(j, v);
    assert(s@ =~= before.take(j as int) + seq![v] + before.skip(j as int));
}

/// The variants sorted increasingly, each once.
pub fn sorted_unique(s: &Vec<u64>) -> (r: Vec<u64>)
    ensures
        r@ == sort_dedup(s@),
{
    let mut r: Vec<u64> = Vec::new();
    let mut i: usize = 0;
    while i < s.len()
        invariant
            i <= s@.len(),
            r@ == sort_dedup(s@.take(i as int)),
        decreases s@.len() - i,
    {
        assert(s@.take(i + 1).drop_last() =~= s@.take(i as int));
        insert_word_sorted(&mut r, s[i]);
        i = i + 1;
    }
    assert(s@.take(s@.len() as int) =~= s@);
    r
}

/// Inserts `kv` into `s` before the first pair whose key is not below its key,
/// unless that pair has the same key (the pair already there stays).
pub open spec fn insert_keyword(s: Seq<(u64, u64)>, kv: (u64, u64)) -> Seq<(u64, u64)>
    decreases s.len(),
{
    if s.len() == 0 {
        seq![kv]
    } else if kv.0 < s[0].0 {
        seq![kv] + s
    } else if kv.0 == s[0].0 {
        s
    } else {
        seq![s[0]] + insert_keyword(s.drop_first(), kv)
    }
}

/// The keywords sorted by key, keeping the first pair of each key.
pub open spec fn sort_keywords(s: Seq<(u64, u64)>) -> Seq<(u64, u64)>
    decreases s.len(),
{
    if s.len() == 0 {
        s
    } else {
        insert_keyword(sort_keywords(s.drop_last()), s.last())
    }
}

/// Keys strictly increasing: sorted by key, one pair per key.
pub open spec fn keys_increasing(s: Seq<(u64, u64)>) -> bool {
    forall|i: int, j: int| 0 <= i < j < s.len() ==> s[i].0 < s[j].0
}

proof fn lemma_insert_keyword_keeps_order(s: Seq<(u64, u64)>, kv: (u64, u64))
    requires
        keys_increasing(s),
    ensures
        keys_increasing(insert_keyword(s, kv)),
        forall|x: (u64, u64)| #[trigger]
            insert_keyword(s, kv).contains(x) ==> x == kv || s.contains(x),
    decreases s.len(),
{
    if s.len() > 0 && kv.0 > s[0].0 {
        let t = s.drop_first();
        lemma_insert_keyword_keeps_order(t, kv);
        let r = insert_keyword(t, kv);
        assert forall|x: (u64, u64)| r.contains(x) implies s[0].0 < x.0 by {
            if x != kv {
                let k = choose|k: int| 0 <= k < t.len() && t[k] == x;
                assert(s[k + 1] == x);
            }
        }
        let w = seq![s[0]] + r;
        assert forall|i: int, j: int| 0 <= i < j < w.len() implies w[i].0 < w[j].0 by {
            if i == 0 {
                assert(r.contains(w[j]));
            }
        }
        assert forall|x: (u64, u64)| #[trigger] w.contains(x) implies x == kv || s.contains(x) by {
            if x != s[0] {
                let k = choose|k: int| 0 <= k < w.len() && w[k] == x;
                assert(r.contains(x));
                if x != kv {
                    let m = choose|m: int| 0 <= m < t.len() && t[m] == x;
                    assert(s[m + 1] == x);
                }
            } else {
                assert(s[0] == x);
            }
        }
    } else if s.len() > 0 && kv.0 < s[0].0 {
        let w = seq![kv] + s;
        assert forall|x: (u64, u64)| #[trigger] w.contains(x) implies x == kv || s.contains(x) by {
            let k = choose|k: int| 0 <= k < w.len() && w[k] == x;
            if k > 0 {
                assert(s[k - 1] == x);
            }
        }
    }
}

/// Sorting keywords gives strictly increasing keys.
pub proof fn lemma_sort_keywords_sorted(s: Seq<(u64, u64)>)
    ensures
        keys_increasing(sort_keywords(s)),
    decreases s.len(),
{
    if s.len() > 0 {
        lemma_sort_keywords_sorted(s.drop_last());
        lemma_insert_keyword_keeps_order(sort_keywords(s.drop_last()), s.last());
    }
}

proof fn lemma_insert_keyword_at(s: Seq<(u64, u64)>, kv: (u64, u64), j: int)
    requires
        0 <= j <= s.len(),
        forall|k: int| 0 <= k < j ==> s[k].0 < kv.0,
        j == s.len() || kv.0 <= s[j].0,
    ensures
        insert_keyword(s, kv) == (if j < s.len() && s[j].0 == kv.0 {
            s
        } else {
            s.take(j) + seq![kv] + s.skip(j)
        }),
    decreases j,
{
    if j == 0 {
        if s.len() == 0 {
            assert(s.take(0) + seq![kv] + s.skip(0) =~= seq![kv]);
        } else {
            assert(s.take(0) + seq![kv] + s.skip(0) =~= seq![kv] + s);
        }
    } else {
        let t = s.drop_first();
        assert forall|k: int| 0 <= k < j - 1 implies t[k].0 < kv.0 by {
            assert(s[k + 1].0 < kv.0);
        }
        lemma_insert_keyword_at(t, kv, j - 1);
        if j < s.len() && s[j].0 == kv.0 {
            assert(seq![s[0]] + t =~= s);
        } else {
            assert(seq![s[0]] + (t.take(j - 1) + seq![kv] + t.skip(j - 1)) =~= s.take(j) + seq![
                kv,
            ] + s.skip(j));
        }
    }
}

fn insert_keyword_sorted(s: &mut Vec<(u64, u64)>, kv: (u64, u64))
    ensures
        final(s)@ == insert_keyword(old(s)@, kv),
{
    let mut j: usize = 0;
    while j < s.len() && s[j].0 < kv.0
        invariant
            j <= s@.len(),
            forall|k: int| 0 <= k < j ==> s@[k].0 < kv.0,
        decreases s@.len() - j,
    {
        j = j + 1;
    }
    proof {
        lemma_insert_keyword_at(s@, kv, j as int);
    }
    if j < s.len() && s[j].0 == kv.0 {
        return;
    }
    let ghost before = s@;
    s.insert(j, kv);
    assert(s@ =~= before.take(j as int) + seq![kv] + before.skip(j as int));
}

/// The keywords sorted by key, the first pair of each key kept.
pub fn sorted_keywords(s: &Vec<(u64, u64)>) -> (r: Vec<(u64, u64)>)
    ensures
        r@ == sort_keywords(s@),
{
    let mut r: Vec<(u64, u64)> = Vec::new();
    let mut i: usize = 0;
    while i < s.len()
        invariant
            i <= s@.len(),
            r@ == sort_keywords(s@.take(i as int)),
        decreases s@.len() - i,
    {
        assert(s@.take(i + 1).drop_last() =~= s@.take(i as int));
        insert_keyword_sorted(&mut r, s[i]);
        i = i + 1;
    }
    assert(s@.take(s@.len() as int) =~= s@);
    r
}

} // verus!
