//! Recovery of the (path, content) pairs from a rendered Markdown document:
//! an extraction function over the document bytes, and the proof that
//! extraction inverts rendering up to the trailing-newline trimming the
//! renderer applies to each file.

use vstd::prelude::*;

use crate::markdown::lit_cmt_open;
use crate::markdown::lit_md_heading;
use crate::markdown::spec_format_markdown;
use crate::markdown::spec_md_body;
use crate::markdown::spec_md_file;
use crate::markdown::spec_md_summary;
use crate::render::spec_trim_nl;
use crate::roundtrip::lemma_dec_digits;
use crate::roundtrip::lemma_first_pos_at;
use crate::roundtrip::spec_first_pos;

verus! {

/// The frame that closes a Markdown code block between file sections: a
/// newline, the fence, a newline, and the blank line.
pub open spec fn md_fence_pat() -> Seq<u8> {
    seq![10u8, 96u8, 96u8, 96u8, 10u8, 10u8]
}

/// Position of the first occurrence of `pat` in `s`, or -1 if absent.
pub open spec fn spec_first_sub(s: Seq<u8>, pat: Seq<u8>) -> int
    decreases s.len(),
{
    if s.len() < pat.len() {
        -1
    } else if s.take(pat.len() as int) == pat {
        0
    } else if s.len() == 0 {
        -1
    } else {
        let r = spec_first_sub(s.skip(1), pat);
        if r < 0 {
            -1
        } else {
            r + 1
        }
    }
}

/// The first occurrence of `pat` is where the first witness stands.
proof fn lemma_first_sub_at(s: Seq<u8>, pat: Seq<u8>, k: int)
    requires
        0 <= k,
        k + pat.len() <= s.len(),
        s.subrange(k, k + pat.len()) == pat,
        forall|j: int| 0 <= j < k ==> #[trigger] s.subrange(j, j + pat.len()) != pat,
    ensures
        spec_first_sub(s, pat) == k,
    decreases k,
{
    if k == 0 {
        assert(s.take(pat.len() as int) =~= s.subrange(0, pat.len() as int));
    } else {
        assert(s.subrange(0, 0 + pat.len() as int) != pat);
        assert(s.take(pat.len() as int) =~= s.subrange(0, 0 + pat.len() as int));
        assert(s.take(pat.len() as int) != pat);
        assert(s.len() > 0);
        let t = s.skip(1);
        assert(t.subrange(k - 1, k - 1 + pat.len()) =~= s.subrange(k, k + pat.len()));
        assert forall|j: int| 0 <= j < k - 1 implies #[trigger] t.subrange(j, j + pat.len())
            != pat by {
            assert(t.subrange(j, j + pat.len()) =~= s.subrange(j + 1, j + 1 + pat.len()));
        }
        lemma_first_sub_at(t, pat, k - 1);
    }
}

/// A language tag never holds a newline: every tag of the fixed table is
/// made of printable bytes, and the empty tag has none at all.
proof fn lemma_lang_tag_no_nl(p: Seq<u8>)
    ensures
        forall|i: int|
            0 <= i < crate::lang::spec_lang_tag(p).len() ==> #[trigger] crate::lang::spec_lang_tag(
                p,
            )[i] != 10,
{
}

/// Content as the Markdown renderer lets a reader recover it: every
/// trailing newline trimmed and exactly one restored.
pub open spec fn spec_md_norm(c: Seq<u8>) -> Seq<u8> {
    spec_trim_nl(c) + seq![10u8]
}

/// The pairs with each content trimmed to one trailing newline.
pub open spec fn spec_md_normalized(files: Seq<(Seq<u8>, Seq<u8>)>) -> Seq<(Seq<u8>, Seq<u8>)> {
    files.map_values(|f: (Seq<u8>, Seq<u8>)| (f.0, spec_md_norm(f.1)))
}

/// Every path is free of the newline byte, which the one-line heading
/// cannot carry.
pub open spec fn spec_md_paths_ok(files: Seq<(Seq<u8>, Seq<u8>)>) -> bool {
    forall|k: int, i: int|
        0 <= k < files.len() && 0 <= i < files[k].0.len() ==> files[k].0[i] != 10
}

/// No trimmed content holds the closing-fence frame, which would end its
/// code block early.
pub open spec fn spec_md_contents_ok(files: Seq<(Seq<u8>, Seq<u8>)>) -> bool {
    forall|k: int, j: int|
        0 <= k < files.len() && 0 <= j && j + 6 <= spec_trim_nl(files[k].1).len()
            ==> #[trigger] spec_trim_nl(files[k].1).subrange(j, j + 6) != md_fence_pat()
}

/// Parse a sequence of Markdown file sections to the end of the document.
pub open spec fn spec_parse_md(s: Seq<u8>) -> Option<Seq<(Seq<u8>, Seq<u8>)>>
    decreases s.len(),
{
    if s.len() == 0 {
        Some(Seq::empty())
    } else if s.len() >= 4 && s.take(4) == lit_md_heading() {
        let r = s.skip(4);
        let q = spec_first_pos(r, 10);
        if 1 <= q < r.len() {
            let path = r.take(q - 1);
            let r2 = r.skip(q - 1);
            if r2.len() >= 6 && r2.take(6) == seq![96u8, 10u8, 10u8, 96u8, 96u8, 96u8] {
                let r3 = r2.skip(6);
                let k = spec_first_pos(r3, 10);
                if 0 <= k < r3.len() {
                    let r4 = r3.skip(k + 1);
                    let m = spec_first_sub(r4, md_fence_pat());
                    if 0 <= m && m + 6 <= r4.len() {
                        let body = r4.take(m);
                        match spec_parse_md(r4.skip(m + 6)) {
                            Some(l) => Some(seq![(path, body + seq![10u8])] + l),
                            None => None,
                        }
                    } else {
                        None
                    }
                } else {
                    None
                }
            } else {
                None
            }
        } else {
            None
        }
    } else {
        None
    }
}

/// Extract the (path, content) pairs back out of a rendered Markdown
/// document: skip the summary comment line and its blank line when present,
/// then parse the file sections.
pub open spec fn spec_extract_md(doc: Seq<u8>) -> Option<Seq<(Seq<u8>, Seq<u8>)>> {
    if doc.len() >= 5 && doc.take(5) == lit_cmt_open() {
        let k = spec_first_pos(doc, 10);
        if 0 <= k && k + 2 <= doc.len() && doc[k + 1] == 10 {
            spec_parse_md(doc.skip(k + 2))
        } else {
            None
        }
    } else {
        spec_parse_md(doc)
    }
}

/// A trimmed content never ends in a newline.
proof fn lemma_trim_no_trailing_nl(c: Seq<u8>)
    ensures
        spec_trim_nl(c).len() == 0 || spec_trim_nl(c).last() != 10,
    decreases c.len(),
{
    if c.len() > 0 && c.last() == 10 {
        lemma_trim_no_trailing_nl(c.drop_last());
    }
}

/// Parsing one rendered Markdown section hands back its pair and leaves the
/// rest to parse.
#[verifier::rlimit(100)]
proof fn lemma_md_parse_one(p: Seq<u8>, c: Seq<u8>, tail: Seq<u8>)
    requires
        forall|i: int| 0 <= i < p.len() ==> p[i] != 10,
        forall|j: int|
            0 <= j && j + 6 <= spec_trim_nl(c).len() ==> #[trigger] spec_trim_nl(c).subrange(
                j,
                j + 6,
            ) != md_fence_pat(),
        spec_parse_md(tail) is Some,
    ensures
        spec_parse_md(spec_md_file((p, c)) + tail) == Some(
            seq![(p, spec_md_norm(c))] + spec_parse_md(tail)->Some_0,
        ),
{
    let lang = crate::lang::spec_lang_tag(p);
    let trimmed = spec_trim_nl(c);
    let pat = md_fence_pat();
    let s = spec_md_file((p, c)) + tail;
    let mid: Seq<u8> = seq![96u8, 10u8, 10u8, 96u8, 96u8, 96u8];
    assert(s =~= lit_md_heading() + p + mid + lang + seq![10u8] + trimmed + pat + tail);
    assert(s.len() == 4 + p.len() + 6 + lang.len() + 1 + trimmed.len() + 6 + tail.len());
    assert(s.len() > 0);
    assert(s.take(4) =~= lit_md_heading());
    let r = s.skip(4);
    assert(r =~= p + mid + lang + seq![10u8] + trimmed + pat + tail);
    let q: int = p.len() as int + 1;
    assert(r[q] == 10);
    assert forall|j: int| 0 <= j < q implies r[j] != 10 by {
        if j < p.len() {
            assert(r[j] == p[j]);
        } else {
            assert(r[j] == 96);
        }
    }
    lemma_first_pos_at(r, 10, q);
    assert(1 <= q < r.len());
    assert(r.take(q - 1) =~= p);
    let r2 = r.skip(q - 1);
    assert(r2 =~= mid + lang + seq![10u8] + trimmed + pat + tail);
    assert(r2.len() >= 6);
    assert(r2.take(6) =~= mid);
    let r3 = r2.skip(6);
    assert(r3 =~= lang + seq![10u8] + trimmed + pat + tail);
    lemma_lang_tag_no_nl(p);
    let k: int = lang.len() as int;
    assert(r3[k] == 10);
    assert forall|j: int| 0 <= j < k implies r3[j] != 10 by {
        assert(r3[j] == lang[j]);
    }
    lemma_first_pos_at(r3, 10, k);
    assert(0 <= k < r3.len());
    let r4 = r3.skip(k + 1);
    assert(r4 =~= trimmed + pat + tail);
    let m: int = trimmed.len() as int;
    assert(r4.subrange(m, m + 6) =~= pat);
    lemma_trim_no_trailing_nl(c);
    assert forall|j: int| 0 <= j < m implies #[trigger] r4.subrange(j, j + 6) != pat by {
        if j + 6 <= m {
            assert(r4.subrange(j, j + 6) =~= trimmed.subrange(j, j + 6));
        } else {
            let d = m - j;
            assert(1 <= d <= 5);
            let w = r4.subrange(j, j + 6);
            if d == 1 {
                assert(w[0] == trimmed[m - 1]);
                assert(trimmed[m - 1] != 10);
                assert(pat[0] == 10);
            } else if d == 2 {
                assert(w[2] == pat[0]);
                assert(pat[0] == 10 && pat[2] == 96);
            } else if d == 3 {
                assert(w[3] == pat[0]);
                assert(pat[0] == 10 && pat[3] == 96);
            } else if d == 4 {
                assert(w[5] == pat[1]);
                assert(pat[1] == 96 && pat[5] == 10);
            } else {
                assert(w[4] == trimmed[m - 1]);
                assert(trimmed[m - 1] != 10);
                assert(pat[4] == 10);
            }
        }
    }
    lemma_first_sub_at(r4, pat, m);
    assert(0 <= m && m + 6 <= r4.len());
    assert(r4.take(m) =~= trimmed);
    assert(r4.skip(m + 6) =~= tail);
}

/// The Markdown body concatenation taken from the front.
proof fn lemma_md_body_cons(files: Seq<(Seq<u8>, Seq<u8>)>)
    requires
        files.len() > 0,
    ensures
        spec_md_body(files) == spec_md_file(files[0]) + spec_md_body(files.skip(1)),
    decreases files.len(),
{
    if files.len() == 1 {
        assert(files.last() == files[0]);
        assert(files.drop_last().len() == 0);
        assert(files.skip(1).len() == 0);
        assert(spec_md_body(files.drop_last()) =~= Seq::<u8>::empty());
        assert(spec_md_body(files.skip(1)) =~= Seq::<u8>::empty());
        assert(spec_md_body(files) == spec_md_body(files.drop_last()) + spec_md_file(
            files.last(),
        ));
        assert(spec_md_body(files) =~= spec_md_file(files[0]) + spec_md_body(files.skip(1)));
    } else {
        lemma_md_body_cons(files.drop_last());
        assert(files.drop_last()[0] == files[0]);
        assert(files.drop_last().skip(1) =~= files.skip(1).drop_last());
        assert(files.skip(1).len() > 0);
        assert(files.skip(1).last() == files.last());
        assert(spec_md_body(files.skip(1)) == spec_md_body(files.skip(1).drop_last())
            + spec_md_file(files.last()));
        assert(spec_md_body(files) == (spec_md_file(files[0]) + spec_md_body(
            files.skip(1).drop_last(),
        )) + spec_md_file(files.last()));
        assert((spec_md_file(files[0]) + spec_md_body(files.skip(1).drop_last())) + spec_md_file(
            files.last(),
        ) =~= spec_md_file(files[0]) + spec_md_body(files.skip(1)));
    }
}

/// Parsing the rendered Markdown sections recovers the trimmed pairs.
#[verifier::rlimit(100)]
proof fn lemma_md_parse_body(files: Seq<(Seq<u8>, Seq<u8>)>)
    requires
        spec_md_paths_ok(files),
        spec_md_contents_ok(files),
    ensures
        spec_parse_md(spec_md_body(files)) == Some(spec_md_normalized(files)),
    decreases files.len(),
{
    if files.len() == 0 {
        assert(spec_md_body(files).len() == 0);
        assert(spec_md_normalized(files) =~= Seq::<(Seq<u8>, Seq<u8>)>::empty());
    } else {
        let f0 = files[0];
        let rest = files.skip(1);
        assert forall|k: int, i: int|
            0 <= k < rest.len() && 0 <= i < rest[k].0.len() implies rest[k].0[i] != 10 by {
            assert(rest[k] == files[k + 1]);
        }
        assert forall|k: int, j: int|
            0 <= k < rest.len() && 0 <= j && j + 6 <= spec_trim_nl(rest[k].1).len() implies
            #[trigger] spec_trim_nl(rest[k].1).subrange(j, j + 6) != md_fence_pat() by {
            assert(rest[k] == files[k + 1]);
        }
        lemma_md_parse_body(rest);
        lemma_md_body_cons(files);
        assert(f0 == (f0.0, f0.1));
        lemma_md_parse_one(f0.0, f0.1, spec_md_body(rest));
        assert(seq![(f0.0, spec_md_norm(f0.1))] + spec_md_normalized(rest) =~= spec_md_normalized(
            files,
        ));
    }
}

/// The summary comment line holds no newline before the one that ends it.
proof fn lemma_md_summary_line(files: Seq<(Seq<u8>, Seq<u8>)>)
    ensures
        spec_md_summary(files).len() >= 31,
        spec_md_summary(files)[spec_md_summary(files).len() - 1] == 10,
        spec_md_summary(files)[spec_md_summary(files).len() - 2] == 10,
        forall|j: int|
            0 <= j < spec_md_summary(files).len() - 2 ==> #[trigger] spec_md_summary(files)[j]
                != 10,
        spec_md_summary(files).take(5) == lit_cmt_open(),
{
    let su = spec_md_summary(files);
    let op = lit_cmt_open();
    let fs = crate::markdown::lit_files_sep();
    let bs = crate::markdown::lit_bytes_sep();
    let tc = crate::markdown::lit_tokens_close();
    let dn = crate::bytes::spec_dec(files.len());
    let db = crate::bytes::spec_dec(crate::render::spec_total_bytes(files));
    let dt = crate::bytes::spec_dec(crate::render::spec_total_tokens(files));
    lemma_dec_digits(files.len());
    lemma_dec_digits(crate::render::spec_total_bytes(files));
    lemma_dec_digits(crate::render::spec_total_tokens(files));
    assert(dn.len() >= 1);
    assert(db.len() >= 1);
    assert(dt.len() >= 1);
    assert(su =~= op + dn + fs + db + bs + dt + tc + seq![10u8]);
    assert(su.len() == 37 + dn.len() + db.len() + dt.len());
    assert(su[su.len() - 1] == 10);
    assert(su[su.len() - 2] == tc[11]);
    assert forall|j: int| 0 <= j < su.len() - 2 implies #[trigger] su[j] != 10 by {
        if j < 5 {
            assert(su[j] == op[j]);
        } else if j < 5 + dn.len() {
            assert(su[j] == dn[j - 5]);
        } else if j < 14 + dn.len() {
            assert(su[j] == fs[j - 5 - dn.len()]);
        } else if j < 14 + dn.len() + db.len() {
            assert(su[j] == db[j - 14 - dn.len()]);
        } else if j < 24 + dn.len() + db.len() {
            assert(su[j] == bs[j - 14 - dn.len() - db.len()]);
        } else if j < 24 + dn.len() + db.len() + dt.len() {
            assert(su[j] == dt[j - 24 - dn.len() - db.len()]);
        } else {
            assert(su[j] == tc[j - 24 - dn.len() - db.len() - dt.len()]);
        }
    }
    assert(su.take(5) =~= op);
}

/// Rendering a selected set as Markdown and extracting it back recovers the
/// (path, content) pairs exactly, each content trimmed to one trailing
/// newline, with or without the summary line.
#[verifier::rlimit(100)]
pub proof fn lemma_md_round_trip(files: Seq<(Seq<u8>, Seq<u8>)>, show_tokens: bool)
    requires
        spec_md_paths_ok(files),
        spec_md_contents_ok(files),
    ensures
        spec_extract_md(spec_format_markdown(files, show_tokens)) == Some(
            spec_md_normalized(files),
        ),
{
    let doc = spec_format_markdown(files, show_tokens);
    let body = spec_md_body(files);
    lemma_md_parse_body(files);
    if show_tokens {
        let su = spec_md_summary(files);
        lemma_md_summary_line(files);
        assert(doc =~= su + body);
        assert(doc.len() >= 5);
        assert(doc.take(5) =~= su.take(5));
        let k: int = su.len() - 2;
        assert(doc[k] == su[su.len() - 2]);
        assert forall|j: int| 0 <= j < k implies doc[j] != 10 by {
            assert(doc[j] == su[j]);
        }
        lemma_first_pos_at(doc, 10, k);
        assert(doc[k + 1] == su[su.len() - 1]);
        assert(doc.skip(k + 2) =~= body);
        assert(spec_extract_md(doc) == spec_parse_md(doc.skip(k + 2)));
    } else {
        assert(doc == body);
        if doc.len() >= 5 && doc.take(5) == lit_cmt_open() {
            assert(files.len() > 0) by {
                if files.len() == 0 {
                    assert(body.len() == 0);
                }
            }
            lemma_md_body_cons(files);
            assert(body =~= spec_md_file(files[0]) + spec_md_body(files.skip(1)));
            assert(body.take(4) =~= lit_md_heading());
            assert(doc[0] == body.take(4)[0]);
            assert(lit_md_heading()[0] == 35);
            assert(doc.take(5)[0] == lit_cmt_open()[0]);
            assert(lit_cmt_open()[0] == 60);
            assert(false);
        }
        assert(spec_extract_md(doc) == spec_parse_md(doc));
    }
}

} // verus!
