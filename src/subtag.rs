//! Subtags packed into one machine word.
//!
//! A subtag of one to eight ASCII letters or digits is stored in a `u64`, its
//! first byte in the most significant position and unused positions zero. Two
//! packed subtags compare as integers exactly as their texts compare
//! lexicographically, so sorting packed variants sorts them alphabetically.
use vstd::prelude::*;

verus! {

/// The packed form of `und`, the wildcard language.
pub const UND: u64 = 0x756e_6400_0000_0000;

/// `true` for an ASCII letter or digit.
pub open spec fn is_alnum(b: u8) -> bool {
    (0x30 <= b <= 0x39) || (0x41 <= b <= 0x5a) || (0x61 <= b <= 0x7a)
}

/// The bytes that form a subtag: one to eight ASCII letters or digits.
pub open spec fn valid_subtag_bytes(s: Seq<u8>) -> bool {
    1 <= s.len() <= 8 && forall|i: int| 0 <= i < s.len() ==> is_alnum(#[trigger] s[i])
}

/// The byte at position `i`, or zero past the end.
pub open spec fn byte_or_zero(s: Seq<u8>, i: int) -> nat {
    if 0 <= i < s.len() {
        s[i] as nat
    } else {
        0
    }
}

/// The number formed by the first `n` positions of `s`, big-endian, base 256.
pub open spec fn pack_prefix(s: Seq<u8>, n: nat) -> nat
    decreases n,
{
    if n == 0 {
        0
    } else {
        pack_prefix(s, (n - 1) as nat) * 256 + byte_or_zero(s, n - 1)
    }
}

/// The packed value of a subtag's bytes: eight positions, left-aligned.
pub open spec fn pack(s: Seq<u8>) -> nat {
    pack_prefix(s, 8)
}

pub open spec fn pow256(n: nat) -> nat
    decreases n,
{
    if n == 0 {
        1
    } else {
        256 * pow256((n - 1) as nat)
    }
}

proof fn lemma_pack_prefix_bound(s: Seq<u8>, n: nat)
    ensures
        pack_prefix(s, n) < pow256(n),
    decreases n,
{
    if n > 0 {
        lemma_pack_prefix_bound(s, (n - 1) as nat);
        let p = pack_prefix(s, (n - 1) as nat);
        let b = byte_or_zero(s, n - 1);
        let q = pow256((n - 1) as nat);
        assert(b < 256);
        assert(p * 256 + b < 256 * q) by (nonlinear_arith)
            requires
                p < q,
                b < 256,
        ;
    }
}

/// Packs the bytes of a subtag; `None` when they are not one to eight ASCII
/// letters or digits.
pub fn subtag(b: &[u8]) -> (r: Option<u64>)
    ensures
        r.is_some() == valid_subtag_bytes(b@),
        r.is_some() ==> r.unwrap() as nat == pack(b@),
{
    if b.len() == 0 || b.len() > 8 {
        return None;
    }
    let mut i: usize = 0;
    while i < b.len()
        invariant
            i <= b@.len(),
            forall|k: int| 0 <= k < i ==> is_alnum(#[trigger] b@[k]),
        decreases b@.len() - i,
    {
        let c = b[i];
        if !((0x30 <= c && c <= 0x39) || (0x41 <= c && c <= 0x5a) || (0x61 <= c && c <= 0x7a)) {
            return None;
        }
        i = i + 1;
    }
    let mut x: u64 = 0;
    let mut n: usize = 0;
    while n < 8
        invariant
            n <= 8,
            x as nat == pack_prefix(b@, n as nat),
        decreases 8 - n,
    {
        proof {
            lemma_pack_prefix_bound(b@, (n + 1) as nat);
            reveal_with_fuel(pow256, 9);
            assert(pow256(8) == 0x1_0000_0000_0000_0000);
            lemma_pow256_mono((n + 1) as nat, 8);
        }
        let c: u64 = if n < b.len() {
            b[n] as u64
        } else {
            0
        };
        x = x * 256 + c;
        n = n + 1;
    }
    Some(x)
}

/// The byte at position `i` (0 = most significant) of a packed subtag.
pub open spec fn byte_at(x: u64, i: nat) -> u8 {
    ((x >> ((56 - 8 * i) as u64)) & 0xff) as u8
}

/// The text of a packed subtag from position `i` up to its first zero byte.
pub open spec fn text_from(x: u64, i: nat) -> Seq<u8>
    decreases 8 - i,
{
    if i >= 8 {
        seq![]
    } else if byte_at(x, i) == 0 {
        seq![]
    } else {
        seq![byte_at(x, i)] + text_from(x, i + 1)
    }
}

/// The text of a packed subtag.
pub open spec fn subtag_text(x: u64) -> Seq<u8> {
    text_from(x, 0)
}

/// Appends the text of a packed subtag.
pub fn push_subtag_text(out: &mut Vec<u8>, x: u64)
    ensures
        final(out)@ == old(out)@ + subtag_text(x),
{
    let ghost pre = out@;
    let mut i: usize = 0;
    let mut stop = false;
    while i < 8 && !stop
        invariant
            i <= 8,
            pre + subtag_text(x) == out@ + (if stop {
                seq![]
            } else {
                text_from(x, i as nat)
            }),
        decreases 8 - i, if stop {
            0int
        } else {
            1int
        },
    {
        let shift: u64 = 56 - 8 * (i as u64);
        let m: u64 = (x >> shift) & 0xff;
        assert(m <= 0xff) by (bit_vector)
            requires
                m == (x >> shift) & 0xff,
        ;
        let b = m as u8;
        assert(b == byte_at(x, i as nat));
        if b == 0 {
            stop = true;
        } else {
            let ghost before = out@;
            out.push(b);
            assert(before + text_from(x, i as nat) =~= out@ + text_from(x, (i + 1) as nat));
            i = i + 1;
        }
    }
    if !stop {
        assert(out@ + text_from(x, i as nat) =~= out@);
    } else {
        assert(out@ + seq![] =~= out@);
    }
}

proof fn lemma_pow256_mono(a: nat, b: nat)
    requires
        a <= b,
    ensures
        pow256(a) <= pow256(b),
    decreases b,
{
    if a < b {
        lemma_pow256_mono(a, (b - 1) as nat);
    }
}

} // verus!
