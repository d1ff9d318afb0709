//! Byte-string utilities shared by the filter pipeline and the renderers:
//! lexicographic comparison, decimal rendering of counters, and simple
//! sequence helpers.

use vstd::prelude::*;

verus! {

/// Byte-wise lexicographic "less than or equal" on byte strings.
pub open spec fn lex_le(a: Seq<u8>, b: Seq<u8>) -> bool
    decreases a.len(),
{
    if a.len() == 0 {
        true
    } else if b.len() == 0 {
        false
    } else if a[0] < b[0] {
        true
    } else if a[0] > b[0] {
        false
    } else {
        lex_le(a.skip(1), b.skip(1))
    }
}

/// Compare two byte strings lexicographically.
pub fn bytes_le(a: &Vec<u8>, b: &Vec<u8>) -> (r: bool)
    ensures
        r == lex_le(a@, b@),
{
    let mut i: usize = 0;
    proof {
        assert(a@.skip(0) =~= a@);
        assert(b@.skip(0) =~= b@);
    }
    loop
        invariant
            i <= a@.len(),
            i <= b@.len(),
            forall|j: int| 0 <= j < i ==> a@[j] == b@[j],
            lex_le(a@, b@) == lex_le(a@.skip(i as int), b@.skip(i as int)),
        decreases a@.len() - i,
    {
        if i == a.len() {
            assert(lex_le(a@.skip(i as int), b@.skip(i as int)));
            return true;
        }
        if i == b.len() {
            assert(!lex_le(a@.skip(i as int), b@.skip(i as int)));
            return false;
        }
        let x = a[i];
        let y = b[i];
        if x < y {
            assert(lex_le(a@.skip(i as int), b@.skip(i as int)));
            return true;
        }
        if x > y {
            assert(!lex_le(a@.skip(i as int), b@.skip(i as int)));
            return false;
        }
        proof {
            assert(a@.skip(i as int).skip(1) =~= a@.skip(i + 1));
            assert(b@.skip(i as int).skip(1) =~= b@.skip(i + 1));
        }
        i = i + 1;
    }
}

/// `lex_le` is total: any two byte strings are comparable.
pub proof fn lemma_lex_le_total(a: Seq<u8>, b: Seq<u8>)
    ensures
        lex_le(a, b) || lex_le(b, a),
    decreases a.len(),
{
    if a.len() != 0 && b.len() != 0 && a[0] == b[0] {
        lemma_lex_le_total(a.skip(1), b.skip(1));
    }
}

/// `lex_le` is transitive.
pub proof fn lemma_lex_le_transitive(a: Seq<u8>, b: Seq<u8>, c: Seq<u8>)
    requires
        lex_le(a, b),
        lex_le(b, c),
    ensures
        lex_le(a, c),
    decreases a.len(),
{
    if a.len() != 0 && b.len() != 0 && c.len() != 0 {
        if a[0] == b[0] && b[0] == c[0] {
            lemma_lex_le_transitive(a.skip(1), b.skip(1), c.skip(1));
        }
    }
}

/// Decimal rendering of a natural number, most significant digit first.
pub open spec fn spec_dec(n: nat) -> Seq<u8>
    decreases n,
{
    if n < 10 {
        seq![(48 + n) as u8]
    } else {
        spec_dec(n / 10) + seq![(48 + n % 10) as u8]
    }
}

/// Render `n` in decimal as ASCII digit bytes.
pub fn dec_bytes(n: u128) -> (r: Vec<u8>)
    ensures
        r@ == spec_dec(n as nat),
{
    let mut digits: Vec<u8> = Vec::new();
    let mut m: u128 = n;
    proof {
        assert(spec_dec(n as nat) =~= spec_dec(n as nat) + digits@);
    }
    loop
        invariant
            spec_dec(n as nat) == spec_dec(m as nat) + digits@,
        decreases m,
    {
        let d: u8 = 48 + (m % 10) as u8;
        digits.insert(0, d);
        proof {
            assert(digits@ =~= seq![d] + digits@.skip(1));
        }
        if m < 10 {
            proof {
                assert(spec_dec(m as nat) =~= seq![d]);
                assert(spec_dec(n as nat) =~= digits@);
            }
            return digits;
        } else {
            proof {
                assert(spec_dec(m as nat) =~= spec_dec((m as nat) / 10) + seq![d]);
                assert(spec_dec((m as nat) / 10) + seq![d] + digits@.skip(1) =~= spec_dec(
                    (m as nat) / 10,
                ) + digits@);
            }
            m = m / 10;
        }
    }
}

/// A decimal field right-aligned to eight columns with spaces, as the token
/// report prints it.
pub open spec fn spec_pad8(s: Seq<u8>) -> Seq<u8> {
    if s.len() >= 8 {
        s
    } else {
        Seq::new((8 - s.len()) as nat, |i: int| 32u8) + s
    }
}

/// Render `n` in decimal, right-aligned to eight columns with spaces.
pub fn dec_bytes_pad8(n: u128) -> (r: Vec<u8>)
    ensures
        r@ == spec_pad8(spec_dec(n as nat)),
{
    let digits = dec_bytes(n);
    let mut r: Vec<u8> = Vec::new();
    if digits.len() < 8 {
        let pad = 8 - digits.len();
        let mut k: usize = 0;
        while k < pad
            invariant
                k <= pad,
                pad == 8 - digits@.len(),
                digits@.len() < 8,
                r@ =~= Seq::new(k as nat, |i: int| 32u8),
            decreases pad - k,
        {
            r.push(32);
            k = k + 1;
        }
        proof {
            assert(r@ =~= Seq::new((8 - digits@.len()) as nat, |i: int| 32u8));
        }
    }
    push_bytes(&mut r, digits.as_slice());
    proof {
        assert(r@ =~= spec_pad8(digits@));
    }
    r
}

/// Append all of `s` to `out`.
pub fn push_bytes(out: &mut Vec<u8>, s: &[u8])
    ensures
        final(out)@ == old(out)@ + s@,
{
    out.extend_from_slice(s);
}

} // verus!
