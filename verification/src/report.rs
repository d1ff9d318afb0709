//! The token report: one line per selected file with its estimated tokens,
//! byte length and path, then a totals line, numeric fields right-aligned to
//! eight columns.

use vstd::prelude::*;

use crate::bytes::dec_bytes;
use crate::bytes::dec_bytes_pad8;
use crate::bytes::push_bytes;
use crate::bytes::spec_dec;
use crate::bytes::spec_pad8;
use crate::render::spec_total_bytes;
use crate::render::spec_total_tokens;
use crate::render::totals;
use crate::select::CollectedFile;
use crate::select::views_of;
use crate::tokens::estimate_tokens;
use crate::tokens::spec_estimate_tokens;

verus! {

/// The bytes of " tokens  ".
pub open spec fn lit_tokens_field() -> Seq<u8> {
    seq![32u8, 116u8, 111u8, 107u8, 101u8, 110u8, 115u8, 32u8, 32u8]
}

/// The bytes of " bytes  ".
pub open spec fn lit_bytes_field() -> Seq<u8> {
    seq![32u8, 98u8, 121u8, 116u8, 101u8, 115u8, 32u8, 32u8]
}

/// One report line: estimated tokens, byte length, path.
pub open spec fn spec_report_line(f: (Seq<u8>, Seq<u8>)) -> Seq<u8> {
    spec_pad8(spec_dec(spec_estimate_tokens(f.1.len()))) + lit_tokens_field() + spec_pad8(
        spec_dec(f.1.len()),
    ) + lit_bytes_field() + f.0 + seq![10u8]
}

/// All report lines, in list order.
pub open spec fn spec_report_lines(files: Seq<(Seq<u8>, Seq<u8>)>) -> Seq<u8>
    decreases files.len(),
{
    if files.len() == 0 {
        Seq::empty()
    } else {
        spec_report_lines(files.drop_last()) + spec_report_line(files.last())
    }
}

/// The totals line: total tokens, total bytes, and the file count.
pub open spec fn spec_report_totals(files: Seq<(Seq<u8>, Seq<u8>)>) -> Seq<u8> {
    spec_pad8(spec_dec(spec_total_tokens(files))) + lit_tokens_field() + spec_pad8(
        spec_dec(spec_total_bytes(files)),
    ) + lit_bytes_field() + seq![116u8, 111u8, 116u8, 97u8, 108u8, 32u8, 40u8] + spec_dec(
        files.len(),
    ) + seq![32u8, 102u8, 105u8, 108u8, 101u8, 115u8, 41u8, 10u8]
}

/// The whole token report: the per-file lines, a blank line, the totals.
pub open spec fn spec_token_report(files: Seq<(Seq<u8>, Seq<u8>)>) -> Seq<u8> {
    spec_report_lines(files) + seq![10u8] + spec_report_totals(files)
}

/// Render the token report for a file list.
pub fn format_token_report(files: &Vec<CollectedFile>) -> (r: Vec<u8>)
    ensures
        r@ == spec_token_report(views_of(files@)),
{
    let mut out: Vec<u8> = Vec::new();
    let a_tok: [u8; 9] = [32, 116, 111, 107, 101, 110, 115, 32, 32];
    let a_byt: [u8; 8] = [32, 98, 121, 116, 101, 115, 32, 32];
    let n = files.len();
    let mut i: usize = 0;
    proof {
        assert(views_of(files@.take(0)) =~= Seq::<(Seq<u8>, Seq<u8>)>::empty());
    }
    while i < n
        invariant
            i <= n,
            n == files@.len(),
            out@ == spec_report_lines(views_of(files@.take(i as int))),
        decreases n - i,
    {
        let ghost start = out@;
        let ghost fv = files@[i as int]@;
        let t = estimate_tokens(&files[i].content);
        let b = files[i].content.len();
        let tp = dec_bytes_pad8(t as u128);
        push_bytes(&mut out, tp.as_slice());
        let a_tok2: [u8; 9] = [32, 116, 111, 107, 101, 110, 115, 32, 32];
        push_bytes(&mut out, a_tok2.as_slice());
        let bp = dec_bytes_pad8(b as u128);
        push_bytes(&mut out, bp.as_slice());
        let a_byt2: [u8; 8] = [32, 98, 121, 116, 101, 115, 32, 32];
        push_bytes(&mut out, a_byt2.as_slice());
        push_bytes(&mut out, files[i].relative_path.as_slice());
        out.push(10);
        proof {
            assert(out@ =~= start + spec_report_line(fv));
            let pre = views_of(files@.take(i as int));
            let cur = views_of(files@.take(i + 1));
            assert(cur.drop_last() =~= pre);
            assert(cur.last() == fv);
            assert(out@ == spec_report_lines(cur));
        }
        i = i + 1;
    }
    out.push(10);
    let t = totals(files);
    let ttp = dec_bytes_pad8(t.1);
    push_bytes(&mut out, ttp.as_slice());
    push_bytes(&mut out, a_tok.as_slice());
    let tbp = dec_bytes_pad8(t.0);
    push_bytes(&mut out, tbp.as_slice());
    push_bytes(&mut out, a_byt.as_slice());
    let a_total: [u8; 7] = [116, 111, 116, 97, 108, 32, 40];
    push_bytes(&mut out, a_total.as_slice());
    let count = dec_bytes(files.len() as u128);
    push_bytes(&mut out, count.as_slice());
    let a_close: [u8; 8] = [32, 102, 105, 108, 101, 115, 41, 10];
    push_bytes(&mut out, a_close.as_slice());
    proof {
        assert(files@.take(n as int) =~= files@);
        assert(views_of(files@).len() == files@.len());
        assert(out@ =~= spec_token_report(views_of(files@)));
    }
    out
}

} // verus!
