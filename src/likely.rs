//! The likely-subtags table and the add / remove likely-subtags searches.
use vstd::prelude::*;

use crate::locale::{core_eq, Core};
use crate::subtag::UND;

verus! {

/// One row of the likely-subtags table: a partial key (language `UND` and
/// `None` for the omitted positions) and the complete triple it stands for.
#[derive(Clone, Copy)]
pub struct LikelyEntry {
    pub key: Core,
    pub language: u64,
    pub script: u64,
    pub region: u64,
}

/// The likely-subtags table. Lookups take the first row whose key matches.
pub struct LikelySubtags {
    pub entries: Vec<LikelyEntry>,
}

/// A table whose every row gives a triple without wildcard.
pub open spec fn likely_well_formed(t: Seq<LikelyEntry>) -> bool {
    forall|i: int| 0 <= i < t.len() ==> (#[trigger] t[i]).language != UND
}

/// The triple of the first row at or after `k` whose key is `key`.
pub open spec fn lookup_from(t: Seq<LikelyEntry>, key: Core, k: int) -> Option<(u64, u64, u64)>
    decreases t.len() - k,
{
    if k < 0 || k >= t.len() {
        None
    } else if t[k].key == key {
        Some((t[k].language, t[k].script, t[k].region))
    } else {
        lookup_from(t, key, k + 1)
    }
}

pub open spec fn lookup(t: Seq<LikelyEntry>, key: Core) -> Option<(u64, u64, u64)> {
    lookup_from(t, key, 0)
}

/// The probe for `key` when `present` (all the key's fields are known), else
/// nothing.
pub open spec fn probe(t: Seq<LikelyEntry>, present: bool, key: Core) -> Option<(u64, u64, u64)> {
    if present {
        lookup(t, key)
    } else {
        None
    }
}

/// The candidate keys built from the known fields of `c`, from most to least
/// specific, each with whether all its fields are known; the full wildcard
/// comes last and is always probed.
pub open spec fn candidates(c: Core) -> Seq<(bool, Core)> {
    let hl = c.0 != UND;
    let hs = c.1.is_some();
    let hr = c.2.is_some();
    seq![
        (hl && hs && hr, c),
        (hl && hs, (c.0, c.1, None)),
        (hl && hr, (c.0, None, c.2)),
        (hs && hr, (UND, c.1, c.2)),
        (hl, (c.0, None, None)),
        (hs, (UND, c.1, None)),
        (hr, (UND, None, c.2)),
        (true, (UND, None, None)),
    ]
}

/// The first hit among the candidates at or after `k`.
pub open spec fn first_hit_from(t: Seq<LikelyEntry>, cs: Seq<(bool, Core)>, k: int) -> Option<
    (u64, u64, u64),
>
    decreases cs.len() - k,
{
    if k < 0 || k >= cs.len() {
        None
    } else {
        match probe(t, cs[k].0, cs[k].1) {
            Some(h) => Some(h),
            None => first_hit_from(t, cs, k + 1),
        }
    }
}

/// The first hit among the candidate keys of `c`.
pub open spec fn likely_hit(t: Seq<LikelyEntry>, c: Core) -> Option<(u64, u64, u64)> {
    first_hit_from(t, candidates(c), 0)
}

/// Whether language, script and region are all present.
pub open spec fn is_full(c: Core) -> bool {
    c.0 != UND && c.1.is_some() && c.2.is_some()
}

/// Adds likely subtags to a core: each absent field is taken from the first
/// hit; present fields stay.
pub open spec fn maximize_core(t: Seq<LikelyEntry>, c: Core) -> Core {
    if is_full(c) {
        c
    } else {
        match likely_hit(t, c) {
            None => c,
            Some(h) => (
                if c.0 == UND { h.0 } else { c.0 },
                if c.1.is_none() { Some(h.1) } else { c.1 },
                if c.2.is_none() { Some(h.2) } else { c.2 },
            ),
        }
    }
}

/// Removes likely subtags from a core: the first of language alone, language
/// and script, language and region that maximizes to the same core as the
/// input; else the maximized core.
pub open spec fn minimize_core(t: Seq<LikelyEntry>, c: Core) -> Core {
    let m = maximize_core(t, c);
    let a = (m.0, None, None);
    let b = (m.0, m.1, None);
    let d = (m.0, None, m.2);
    if maximize_core(t, a) == m {
        a
    } else if maximize_core(t, b) == m {
        b
    } else if maximize_core(t, d) == m {
        d
    } else {
        m
    }
}

impl LikelySubtags {
    pub open spec fn rows(&self) -> Seq<LikelyEntry> {
        self.entries@
    }

    /// Whether no row gives a wildcard language.
    pub fn is_well_formed(&self) -> (r: bool)
        ensures
            r == likely_well_formed(self.rows()),
    {
        let mut i: usize = 0;
        while i < self.entries.len()
            invariant
                i <= self.entries@.len(),
                forall|k: int| 0 <= k < i ==> (#[trigger] self.entries@[k]).language != UND,
            decreases self.entries@.len() - i,
        {
            if self.entries[i].language == UND {
                return false;
            }
            i = i + 1;
        }
        true
    }

    /// The triple of the first row whose key is `key`.
    pub fn get(&self, key: Core) -> (r: Option<(u64, u64, u64)>)
        ensures
            r == lookup(self.rows(), key),
    {
        let mut i: usize = 0;
        while i < self.entries.len()
            invariant
                i <= self.entries@.len(),
                lookup(self.rows(), key) == lookup_from(self.rows(), key, i as int),
            decreases self.entries@.len() - i,
        {
            let e = self.entries[i];
            if core_eq(e.key, key) {
                return Some((e.language, e.script, e.region));
            }
            i = i + 1;
        }
        None
    }

    fn probe(&self, present: bool, key: Core) -> (r: Option<(u64, u64, u64)>)
        ensures
            r == probe(self.rows(), present, key),
    {
        if present {
            self.get(key)
        } else {
            None
        }
    }

    /// The first hit among the candidate keys of `c`.
    pub fn likely_hit(&self, c: Core) -> (r: Option<(u64, u64, u64)>)
        ensures
            r == likely_hit(self.rows(), c),
    {
        let hl = c.0 != UND;
        let hs = c.1.is_some();
        let hr = c.2.is_some();
        let keys: Vec<(bool, Core)> = vec![
            (hl && hs && hr, c),
            (hl && hs, (c.0, c.1, None)),
            (hl && hr, (c.0, None, c.2)),
            (hs && hr, (UND, c.1, c.2)),
            (hl, (c.0, None, None)),
            (hs, (UND, c.1, None)),
            (hr, (UND, None, c.2)),
            (true, (UND, None, None)),
        ];
        assert(keys@ == candidates(c));
        let mut i: usize = 0;
        while i < keys.len()
            invariant
                i <= keys@.len(),
                keys@ == candidates(c),
                likely_hit(self.rows(), c) == first_hit_from(self.rows(), keys@, i as int),
            decreases keys@.len() - i,
        {
            let p = self.probe(keys[i].0, keys[i].1);
            if p.is_some() {
                return p;
            }
            i = i + 1;
        }
        None
    }

    /// The core with likely subtags added.
    pub fn maximize_core(&self, c: Core) -> (r: Core)
        ensures
            r == maximize_core(self.rows(), c),
    {
        if c.0 != UND && c.1.is_some() && c.2.is_some() {
            return c;
        }
        match self.likely_hit(c) {
            None => c,
            Some(h) => (
                if c.0 == UND { h.0 } else { c.0 },
                if c.1.is_none() { Some(h.1) } else { c.1 },
                if c.2.is_none() { Some(h.2) } else { c.2 },
            ),
        }
    }

    /// The core with likely subtags removed.
    pub fn minimize_core(&self, c: Core) -> (r: Core)
        ensures
            r == minimize_core(self.rows(), c),
    {
        let m = self.maximize_core(c);
        let a: Core = (m.0, None, None);
        if core_eq(self.maximize_core(a), m) {
            return a;
        }
        let b: Core = (m.0, m.1, None);
        if core_eq(self.maximize_core(b), m) {
            return b;
        }
        let d: Core = (m.0, None, m.2);
        if core_eq(self.maximize_core(d), m) {
            return d;
        }
        m
    }
}

} // verus!
