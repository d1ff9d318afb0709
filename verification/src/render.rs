//! Helpers shared by the two renderers: trailing-newline trimming, markup
//! escaping, and the byte/token totals of a selected set.

use vstd::prelude::*;

use crate::bytes::push_bytes;
use crate::select::CollectedFile;
use crate::select::views_of;
use crate::tokens::estimate_tokens;
use crate::tokens::spec_estimate_tokens;

verus! {

/// `c` with every trailing newline byte removed.
pub open spec fn spec_trim_nl(c: Seq<u8>) -> Seq<u8>
    decreases c.len(),
{
    if c.len() > 0 && c.last() == 10 {
        spec_trim_nl(c.drop_last())
    } else {
        c
    }
}

/// A prefix that ends the trimming is the trimmed value.
proof fn lemma_trim_take(c: Seq<u8>, e: int)
    requires
        0 <= e <= c.len(),
        forall|j: int| e <= j < c.len() ==> c[j] == 10,
        e > 0 ==> c[e - 1] != 10,
    ensures
        spec_trim_nl(c) == c.take(e),
    decreases c.len(),
{
    if e == c.len() {
        assert(c.take(e) =~= c);
    } else {
        assert(c.last() == 10);
        lemma_trim_take(c.drop_last(), e);
        assert(c.drop_last().take(e) =~= c.take(e));
    }
}

/// The length of `c` once every trailing newline byte is removed.
fn trim_pos(c: &Vec<u8>) -> (e: usize)
    ensures
        e <= c@.len(),
        forall|j: int| e <= j < c@.len() ==> c@[j] == 10,
        e > 0 ==> c@[e - 1] != 10,
{
    let mut e: usize = c.len();
    loop
        invariant
            e <= c@.len(),
            forall|j: int| e <= j < c@.len() ==> c@[j] == 10,
        decreases e,
    {
        if e == 0 {
            return e;
        }
        if c[e - 1] != 10 {
            return e;
        }
        e = e - 1;
    }
}

/// Remove every trailing newline byte of `c`.
pub fn trim_trailing_newlines(c: &Vec<u8>) -> (r: Vec<u8>)
    ensures
        r@ == spec_trim_nl(c@),
{
    let e = trim_pos(c);
    proof {
        lemma_trim_take(c@, e as int);
    }
    crate::lang::subrange_vec(c, 0, e)
}

/// What one byte escapes to in the tagged-markup body: the three reserved
/// bytes become their named entities, every other byte stands as itself.
pub open spec fn spec_esc_byte(b: u8) -> Seq<u8> {
    if b == 38 {  // '&' -> "&amp;"
        seq![38u8, 97u8, 109u8, 112u8, 59u8]
    } else if b == 60 {  // '<' -> "&lt;"
        seq![38u8, 108u8, 116u8, 59u8]
    } else if b == 62 {  // '>' -> "&gt;"
        seq![38u8, 103u8, 116u8, 59u8]
    } else {
        seq![b]
    }
}

/// The escaped body: each byte replaced independently, so the ampersands the
/// substitutions produce are never escaped again.
pub open spec fn spec_escape(c: Seq<u8>) -> Seq<u8>
    decreases c.len(),
{
    if c.len() == 0 {
        Seq::empty()
    } else {
        spec_esc_byte(c[0]) + spec_escape(c.skip(1))
    }
}

/// Escaping distributes over concatenation.
pub proof fn lemma_escape_concat(a: Seq<u8>, b: Seq<u8>)
    ensures
        spec_escape(a + b) == spec_escape(a) + spec_escape(b),
    decreases a.len(),
{
    if a.len() == 0 {
        assert(a + b =~= b);
        assert(spec_escape(a) + spec_escape(b) =~= spec_escape(b));
    } else {
        lemma_escape_concat(a.skip(1), b);
        assert((a + b).skip(1) =~= a.skip(1) + b);
        assert((a + b)[0] == a[0]);
        assert(spec_esc_byte(a[0]) + (spec_escape(a.skip(1)) + spec_escape(b)) =~= (spec_esc_byte(
            a[0],
        ) + spec_escape(a.skip(1))) + spec_escape(b));
    }
}

/// Escape the three reserved markup bytes of `c`.
pub fn escape_markup(c: &Vec<u8>) -> (r: Vec<u8>)
    ensures
        r@ == spec_escape(c@),
{
    let mut r: Vec<u8> = Vec::new();
    let n = c.len();
    let mut i: usize = 0;
    proof {
        assert(c@.take(0) =~= Seq::<u8>::empty());
    }
    while i < n
        invariant
            i <= n,
            n == c@.len(),
            r@ == spec_escape(c@.take(i as int)),
        decreases n - i,
    {
        let b = c[i];
        if b == 38 {
            let amp: [u8; 5] = [38, 97, 109, 112, 59];
            push_bytes(&mut r, amp.as_slice());
            proof {
                assert(amp@ =~= spec_esc_byte(38u8));
            }
        } else if b == 60 {
            let lt: [u8; 4] = [38, 108, 116, 59];
            push_bytes(&mut r, lt.as_slice());
            proof {
                assert(lt@ =~= spec_esc_byte(60u8));
            }
        } else if b == 62 {
            let gt: [u8; 4] = [38, 103, 116, 59];
            push_bytes(&mut r, gt.as_slice());
            proof {
                assert(gt@ =~= spec_esc_byte(62u8));
            }
        } else {
            r.push(b);
            proof {
                assert(seq![b] =~= spec_esc_byte(b));
            }
        }
        proof {
            let pre = c@.take(i as int);
            let cur = c@.take(i + 1);
            assert(cur =~= pre + seq![c@[i as int]]);
            lemma_escape_concat(pre, seq![c@[i as int]]);
            let s1 = seq![c@[i as int]];
            assert(s1.skip(1) =~= Seq::<u8>::empty());
            assert(spec_escape(Seq::<u8>::empty()) =~= Seq::<u8>::empty());
            assert(spec_escape(s1) =~= spec_esc_byte(c@[i as int]) + spec_escape(s1.skip(1)));
            assert(spec_escape(s1) =~= spec_esc_byte(c@[i as int]));
        }
        i = i + 1;
    }
    proof {
        assert(c@.take(n as int) =~= c@);
    }
    r
}

/// Total content bytes over a selected set's views.
pub open spec fn spec_total_bytes(files: Seq<(Seq<u8>, Seq<u8>)>) -> nat
    decreases files.len(),
{
    if files.len() == 0 {
        0
    } else {
        spec_total_bytes(files.drop_last()) + files.last().1.len()
    }
}

/// Total estimated tokens over a selected set's views.
pub open spec fn spec_total_tokens(files: Seq<(Seq<u8>, Seq<u8>)>) -> nat
    decreases files.len(),
{
    if files.len() == 0 {
        0
    } else {
        spec_total_tokens(files.drop_last()) + spec_estimate_tokens(files.last().1.len())
    }
}

/// Sum content bytes and estimated tokens over a file list.
pub fn totals(files: &Vec<CollectedFile>) -> (r: (u128, u128))
    ensures
        r.0 == spec_total_bytes(views_of(files@)),
        r.1 == spec_total_tokens(views_of(files@)),
{
    let mut total_bytes: u128 = 0;
    let mut total_tokens: u128 = 0;
    let n = files.len();
    let mut i: usize = 0;
    proof {
        assert(views_of(files@.take(0)) =~= Seq::<(Seq<u8>, Seq<u8>)>::empty());
    }
    while i < n
        invariant
            i <= n,
            n == files@.len(),
            n <= 0xFFFF_FFFF_FFFF_FFFFu128,
            total_bytes == spec_total_bytes(views_of(files@.take(i as int))),
            total_tokens == spec_total_tokens(views_of(files@.take(i as int))),
            total_bytes <= i * 0xFFFF_FFFF_FFFF_FFFFu128,
            total_tokens <= i * 0xFFFF_FFFF_FFFF_FFFFu128,
        decreases n - i,
    {
        let b = files[i].content.len();
        let t = estimate_tokens(&files[i].content);
        proof {
            assert((i + 1) * 0xFFFF_FFFF_FFFF_FFFFu128 == i * 0xFFFF_FFFF_FFFF_FFFFu128
                + 0xFFFF_FFFF_FFFF_FFFFu128) by (nonlinear_arith);
            assert(i * 0xFFFF_FFFF_FFFF_FFFFu128 + 0xFFFF_FFFF_FFFF_FFFFu128
                <= 0xFFFF_FFFF_FFFF_FFFFu128 * 0xFFFF_FFFF_FFFF_FFFFu128) by (nonlinear_arith)
                requires
                    0 <= i,
                    i + 1 <= 0xFFFF_FFFF_FFFF_FFFFu128,
            ;
            let pre = views_of(files@.take(i as int));
            let cur = views_of(files@.take(i + 1));
            assert(cur.drop_last() =~= pre);
            assert(cur.last() == files@[i as int]@);
        }
        total_bytes = total_bytes + b as u128;
        total_tokens = total_tokens + t as u128;
        i = i + 1;
    }
    proof {
        assert(files@.take(n as int) =~= files@);
    }
    (total_bytes, total_tokens)
}

} // verus!
