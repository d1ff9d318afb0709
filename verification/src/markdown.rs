//! The Markdown renderer: one heading and one fenced code block per selected
//! file, preceded by an optional comment line with file, byte and token
//! totals.

use vstd::prelude::*;

use crate::bytes::push_bytes;
use crate::bytes::spec_dec;
use crate::bytes::dec_bytes;
use crate::lang::lang_tag;
use crate::lang::spec_lang_tag;
use crate::render::spec_total_bytes;
use crate::render::spec_total_tokens;
use crate::render::spec_trim_nl;
use crate::render::totals;
use crate::render::trim_trailing_newlines;
use crate::select::CollectedFile;
use crate::select::views_of;

verus! {

/// The bytes of "## `".
pub open spec fn lit_md_heading() -> Seq<u8> {
    seq![35u8, 35u8, 32u8, 96u8]
}

/// The bytes of a backquote and a newline.
pub open spec fn lit_md_heading_close() -> Seq<u8> {
    seq![96u8, 10u8]
}

/// The bytes of one newline.
pub open spec fn lit_nl() -> Seq<u8> {
    seq![10u8]
}

/// The bytes of a code fence.
pub open spec fn lit_fence() -> Seq<u8> {
    seq![96u8, 96u8, 96u8]
}

/// The bytes of "<!-- ".
pub open spec fn lit_cmt_open() -> Seq<u8> {
    seq![60u8, 33u8, 45u8, 45u8, 32u8]
}

/// The bytes of " files | ".
pub open spec fn lit_files_sep() -> Seq<u8> {
    seq![32u8, 102u8, 105u8, 108u8, 101u8, 115u8, 32u8, 124u8, 32u8]
}

/// The bytes of " bytes | ~".
pub open spec fn lit_bytes_sep() -> Seq<u8> {
    seq![32u8, 98u8, 121u8, 116u8, 101u8, 115u8, 32u8, 124u8, 32u8, 126u8]
}

/// The bytes of " tokens -->" and a newline.
pub open spec fn lit_tokens_close() -> Seq<u8> {
    seq![32u8, 116u8, 111u8, 107u8, 101u8, 110u8, 115u8, 32u8, 45u8, 45u8, 62u8, 10u8]
}

/// One file's Markdown section: a heading line naming the path, a blank
/// line, a fence opened with the inferred language tag, the content with its
/// trailing newlines trimmed and one newline restored, the closing fence,
/// and a blank line.
pub open spec fn spec_md_file(f: (Seq<u8>, Seq<u8>)) -> Seq<u8> {
    lit_md_heading() + f.0 + lit_md_heading_close() + lit_nl() + lit_fence() + spec_lang_tag(f.0)
        + lit_nl() + spec_trim_nl(f.1) + lit_nl() + lit_fence() + lit_nl() + lit_nl()
}

/// All file sections, in list order.
pub open spec fn spec_md_body(files: Seq<(Seq<u8>, Seq<u8>)>) -> Seq<u8>
    decreases files.len(),
{
    if files.len() == 0 {
        Seq::empty()
    } else {
        spec_md_body(files.drop_last()) + spec_md_file(files.last())
    }
}

/// The summary comment line: file count, total content bytes, total
/// estimated tokens, followed by a blank line.
pub open spec fn spec_md_summary(files: Seq<(Seq<u8>, Seq<u8>)>) -> Seq<u8> {
    lit_cmt_open() + spec_dec(files.len()) + lit_files_sep() + spec_dec(spec_total_bytes(files))
        + lit_bytes_sep() + spec_dec(spec_total_tokens(files)) + lit_tokens_close() + lit_nl()
}

/// The whole Markdown document: the summary when asked for, then every file
/// section in list order.
pub open spec fn spec_format_markdown(files: Seq<(Seq<u8>, Seq<u8>)>, show_tokens: bool) -> Seq<
    u8,
> {
    if show_tokens {
        spec_md_summary(files) + spec_md_body(files)
    } else {
        spec_md_body(files)
    }
}

/// Render the selected files as a Markdown document.
pub fn format_markdown(files: &Vec<CollectedFile>, show_tokens: bool) -> (r: Vec<u8>)
    ensures
        r@ == spec_format_markdown(views_of(files@), show_tokens),
{
    let mut out: Vec<u8> = Vec::new();
    if show_tokens {
        let t = totals(files);
        let a_cmt: [u8; 5] = [60, 33, 45, 45, 32];
        let a_files: [u8; 9] = [32, 102, 105, 108, 101, 115, 32, 124, 32];
        let a_bytes: [u8; 10] = [32, 98, 121, 116, 101, 115, 32, 124, 32, 126];
        let a_tok: [u8; 12] = [32, 116, 111, 107, 101, 110, 115, 32, 45, 45, 62, 10];
        push_bytes(&mut out, a_cmt.as_slice());
        let count = dec_bytes(files.len() as u128);
        push_bytes(&mut out, count.as_slice());
        push_bytes(&mut out, a_files.as_slice());
        let tb = dec_bytes(t.0);
        push_bytes(&mut out, tb.as_slice());
        push_bytes(&mut out, a_bytes.as_slice());
        let tt = dec_bytes(t.1);
        push_bytes(&mut out, tt.as_slice());
        push_bytes(&mut out, a_tok.as_slice());
        out.push(10);
        proof {
            assert(views_of(files@).len() == files@.len());
            assert(out@ =~= spec_md_summary(views_of(files@)));
        }
    }
    let ghost head = out@;
    let n = files.len();
    let mut i: usize = 0;
    proof {
        assert(views_of(files@.take(0)) =~= Seq::<(Seq<u8>, Seq<u8>)>::empty());
    }
    while i < n
        invariant
            i <= n,
            n == files@.len(),
            out@ == head + spec_md_body(views_of(files@.take(i as int))),
        decreases n - i,
    {
        let ghost start = out@;
        let ghost fv = files@[i as int]@;
        let a_head: [u8; 4] = [35, 35, 32, 96];
        let a_hclose: [u8; 2] = [96, 10];
        let a_fence: [u8; 3] = [96, 96, 96];
        push_bytes(&mut out, a_head.as_slice());
        push_bytes(&mut out, files[i].relative_path.as_slice());
        push_bytes(&mut out, a_hclose.as_slice());
        out.push(10);
        push_bytes(&mut out, a_fence.as_slice());
        let lang = lang_tag(&files[i].relative_path);
        push_bytes(&mut out, lang.as_slice());
        out.push(10);
        let trimmed = trim_trailing_newlines(&files[i].content);
        push_bytes(&mut out, trimmed.as_slice());
        out.push(10);
        push_bytes(&mut out, a_fence.as_slice());
        out.push(10);
        out.push(10);
        proof {
            assert(out@ =~= start + spec_md_file(fv));
            let pre = views_of(files@.take(i as int));
            let cur = views_of(files@.take(i + 1));
            assert(cur.drop_last() =~= pre);
            assert(cur.last() == fv);
            assert(out@ == head + spec_md_body(cur));
        }
        i = i + 1;
    }
    proof {
        assert(files@.take(n as int) =~= files@);
    }
    out
}

} // verus!
