//! The tagged-markup renderer: a root element holding one element per
//! selected file, the content escaped for the three reserved bytes, with an
//! optional self-closing metadata element carrying the totals.

use vstd::prelude::*;

use crate::bytes::dec_bytes;
use crate::bytes::push_bytes;
use crate::bytes::spec_dec;
use crate::render::escape_markup;
use crate::render::spec_escape;
use crate::render::spec_total_tokens;
use crate::render::totals;
use crate::select::CollectedFile;
use crate::select::views_of;

verus! {

/// The bytes of the root open tag line.
pub open spec fn lit_ctx_open() -> Seq<u8> {
    seq![60u8, 99u8, 111u8, 110u8, 116u8, 101u8, 120u8, 116u8, 62u8, 10u8]
}

/// The bytes of the root close tag line.
pub open spec fn lit_ctx_close() -> Seq<u8> {
    seq![60u8, 47u8, 99u8, 111u8, 110u8, 116u8, 101u8, 120u8, 116u8, 62u8, 10u8]
}

/// The bytes opening the metadata element up to its file count.
pub open spec fn lit_meta_open() -> Seq<u8> {
    seq![32u8, 32u8, 60u8, 109u8, 101u8, 116u8, 97u8, 32u8, 102u8, 105u8, 108u8, 101u8, 115u8, 61u8, 34u8]
}

/// The bytes between the metadata counts.
pub open spec fn lit_meta_mid() -> Seq<u8> {
    seq![34u8, 32u8, 116u8, 111u8, 107u8, 101u8, 110u8, 115u8, 61u8, 34u8, 126u8]
}

/// The bytes closing the metadata element.
pub open spec fn lit_meta_close() -> Seq<u8> {
    seq![34u8, 47u8, 62u8, 10u8]
}

/// The bytes opening a file element up to its path attribute.
pub open spec fn lit_file_open() -> Seq<u8> {
    seq![32u8, 32u8, 60u8, 102u8, 105u8, 108u8, 101u8, 32u8, 112u8, 97u8, 116u8, 104u8, 61u8, 34u8]
}

/// The bytes closing the path attribute and the open tag line.
pub open spec fn lit_attr_close() -> Seq<u8> {
    seq![34u8, 62u8, 10u8]
}

/// The bytes of the file close tag line.
pub open spec fn lit_file_close() -> Seq<u8> {
    seq![32u8, 32u8, 60u8, 47u8, 102u8, 105u8, 108u8, 101u8, 62u8, 10u8]
}

/// An escaped body, newline-terminated: a newline is appended exactly when
/// the escaped body does not already end in one, so the close tag always
/// starts a fresh line.
pub open spec fn spec_escaped_body(c: Seq<u8>) -> Seq<u8> {
    let e = spec_escape(c);
    if e.len() > 0 && e.last() == 10 {
        e
    } else {
        e + seq![10u8]
    }
}

/// One file's element: the open tag with the path attribute, the escaped
/// newline-terminated body, the close tag.
pub open spec fn spec_xml_file(f: (Seq<u8>, Seq<u8>)) -> Seq<u8> {
    lit_file_open() + f.0 + lit_attr_close() + spec_escaped_body(f.1) + lit_file_close()
}

/// All file elements, in list order.
pub open spec fn spec_xml_body(files: Seq<(Seq<u8>, Seq<u8>)>) -> Seq<u8>
    decreases files.len(),
{
    if files.len() == 0 {
        Seq::empty()
    } else {
        spec_xml_body(files.drop_last()) + spec_xml_file(files.last())
    }
}

/// The metadata element: file count and total estimated tokens.
pub open spec fn spec_xml_meta(files: Seq<(Seq<u8>, Seq<u8>)>) -> Seq<u8> {
    lit_meta_open() + spec_dec(files.len()) + lit_meta_mid() + spec_dec(spec_total_tokens(files))
        + lit_meta_close()
}

/// The whole tagged-markup document: the root element around the optional
/// metadata element and every file element in list order.
pub open spec fn spec_format_xml(files: Seq<(Seq<u8>, Seq<u8>)>, show_tokens: bool) -> Seq<u8> {
    lit_ctx_open() + (if show_tokens {
        spec_xml_meta(files)
    } else {
        Seq::<u8>::empty()
    }) + spec_xml_body(files) + lit_ctx_close()
}

/// Render the selected files as a tagged-markup document.
pub fn format_xml(files: &Vec<CollectedFile>, show_tokens: bool) -> (r: Vec<u8>)
    ensures
        r@ == spec_format_xml(views_of(files@), show_tokens),
{
    let mut out: Vec<u8> = Vec::new();
    let a_open: [u8; 10] = [60, 99, 111, 110, 116, 101, 120, 116, 62, 10];
    push_bytes(&mut out, a_open.as_slice());
    if show_tokens {
        let t = totals(files);
        let a_meta: [u8; 15] = [32, 32, 60, 109, 101, 116, 97, 32, 102, 105, 108, 101, 115, 61, 34];
        let a_mid: [u8; 11] = [34, 32, 116, 111, 107, 101, 110, 115, 61, 34, 126];
        let a_close: [u8; 4] = [34, 47, 62, 10];
        push_bytes(&mut out, a_meta.as_slice());
        let count = dec_bytes(files.len() as u128);
        push_bytes(&mut out, count.as_slice());
        push_bytes(&mut out, a_mid.as_slice());
        let tt = dec_bytes(t.1);
        push_bytes(&mut out, tt.as_slice());
        push_bytes(&mut out, a_close.as_slice());
        proof {
            assert(views_of(files@).len() == files@.len());
            assert(out@ =~= lit_ctx_open() + spec_xml_meta(views_of(files@)));
        }
    }
    let ghost head = out@;
    proof {
        if !show_tokens {
            assert(head =~= lit_ctx_open() + Seq::<u8>::empty());
        }
    }
    let n = files.len();
    let mut i: usize = 0;
    proof {
        assert(views_of(files@.take(0)) =~= Seq::<(Seq<u8>, Seq<u8>)>::empty());
    }
    while i < n
        invariant
            i <= n,
            n == files@.len(),
            out@ == head + spec_xml_body(views_of(files@.take(i as int))),
        decreases n - i,
    {
        let ghost start = out@;
        let ghost fv = files@[i as int]@;
        let a_fopen: [u8; 14] = [32, 32, 60, 102, 105, 108, 101, 32, 112, 97, 116, 104, 61, 34];
        let a_aclose: [u8; 3] = [34, 62, 10];
        let a_fclose: [u8; 10] = [32, 32, 60, 47, 102, 105, 108, 101, 62, 10];
        push_bytes(&mut out, a_fopen.as_slice());
        push_bytes(&mut out, files[i].relative_path.as_slice());
        push_bytes(&mut out, a_aclose.as_slice());
        let escaped = escape_markup(&files[i].content);
        push_bytes(&mut out, escaped.as_slice());
        if escaped.len() == 0 || escaped[escaped.len() - 1] != 10 {
            out.push(10);
        }
        push_bytes(&mut out, a_fclose.as_slice());
        proof {
            assert(out@ =~= start + spec_xml_file(fv));
            let pre = views_of(files@.take(i as int));
            let cur = views_of(files@.take(i + 1));
            assert(cur.drop_last() =~= pre);
            assert(cur.last() == fv);
            assert(out@ == head + spec_xml_body(cur));
        }
        i = i + 1;
    }
    let a_cclose: [u8; 11] = [60, 47, 99, 111, 110, 116, 101, 120, 116, 62, 10];
    push_bytes(&mut out, a_cclose.as_slice());
    proof {
        assert(files@.take(n as int) =~= files@);
        assert(out@ =~= spec_format_xml(views_of(files@), show_tokens));
    }
    out
}

} // verus!
