//! Recovery of the (path, content) pairs from a rendered tagged-markup
//! document: an extraction function over the document bytes, and the proof
//! that extraction inverts rendering up to one trailing-newline
//! normalization per file.

use vstd::prelude::*;

use crate::markup::lit_attr_close;
use crate::markup::lit_ctx_close;
use crate::markup::lit_ctx_open;
use crate::markup::lit_file_close;
use crate::markup::lit_file_open;
use crate::markup::lit_meta_open;
use crate::markup::spec_escaped_body;
use crate::markup::spec_format_xml;
use crate::markup::spec_xml_body;
use crate::markup::spec_xml_file;
use crate::markup::spec_xml_meta;
use crate::render::spec_esc_byte;
use crate::render::spec_escape;

verus! {

/// Undo the body escaping: each named entity becomes its byte again, every
/// other byte stands as itself.
pub open spec fn spec_unescape(s: Seq<u8>) -> Seq<u8>
    decreases s.len(),
{
    if s.len() == 0 {
        Seq::empty()
    } else if s[0] == 38 {
        if s.len() >= 5 && s[1] == 97 && s[2] == 109 && s[3] == 112 && s[4] == 59 {
            seq![38u8] + spec_unescape(s.skip(5))
        } else if s.len() >= 4 && s[1] == 108 && s[2] == 116 && s[3] == 59 {
            seq![60u8] + spec_unescape(s.skip(4))
        } else if s.len() >= 4 && s[1] == 103 && s[2] == 116 && s[3] == 59 {
            seq![62u8] + spec_unescape(s.skip(4))
        } else {
            seq![38u8] + spec_unescape(s.skip(1))
        }
    } else {
        seq![s[0]] + spec_unescape(s.skip(1))
    }
}

/// Content with exactly one trailing newline restored: what either renderer
/// lets a reader recover of a file's content.
pub open spec fn spec_norm_nl(c: Seq<u8>) -> Seq<u8> {
    if c.len() > 0 && c.last() == 10 {
        c
    } else {
        c + seq![10u8]
    }
}

/// Unescaping an escaped text followed by anything recovers the text and
/// leaves the rest to unescape.
proof fn lemma_unescape_escape_suffix(c: Seq<u8>, t: Seq<u8>)
    ensures
        spec_unescape(spec_escape(c) + t) == c + spec_unescape(t),
    decreases c.len(),
{
    if c.len() == 0 {
        assert(spec_escape(c) + t =~= t);
        assert(c + spec_unescape(t) =~= spec_unescape(t));
    } else {
        lemma_unescape_escape_suffix(c.skip(1), t);
        let s = spec_escape(c) + t;
        let e0 = spec_esc_byte(c[0]);
        let rest = spec_escape(c.skip(1)) + t;
        assert(s =~= e0 + rest);
        if c[0] == 38 {
            assert(s.len() >= 5 && s[0] == 38 && s[1] == 97 && s[2] == 109 && s[3] == 112 && s[4]
                == 59);
            assert(s.skip(5) =~= rest);
            assert(spec_unescape(s) == seq![38u8] + (c.skip(1) + spec_unescape(t)));
            assert(seq![38u8] + (c.skip(1) + spec_unescape(t)) =~= c + spec_unescape(t));
        } else if c[0] == 60 {
            assert(s.len() >= 4 && s[0] == 38 && s[1] == 108 && s[2] == 116 && s[3] == 59);
            assert(s.skip(4) =~= rest);
            assert(spec_unescape(s) == seq![60u8] + (c.skip(1) + spec_unescape(t)));
            assert(seq![60u8] + (c.skip(1) + spec_unescape(t)) =~= c + spec_unescape(t));
        } else if c[0] == 62 {
            assert(s.len() >= 4 && s[0] == 38 && s[1] == 103 && s[2] == 116 && s[3] == 59);
            assert(s.skip(4) =~= rest);
            assert(spec_unescape(s) == seq![62u8] + (c.skip(1) + spec_unescape(t)));
            assert(seq![62u8] + (c.skip(1) + spec_unescape(t)) =~= c + spec_unescape(t));
        } else {
            assert(s[0] == c[0] && s[0] != 38);
            assert(s.skip(1) =~= rest);
            assert(spec_unescape(s) == seq![c[0]] + (c.skip(1) + spec_unescape(t)));
            assert(seq![c[0]] + (c.skip(1) + spec_unescape(t)) =~= c + spec_unescape(t));
        }
    }
}

/// Unescaping inverts escaping.
pub proof fn lemma_unescape_escape(c: Seq<u8>)
    ensures
        spec_unescape(spec_escape(c)) == c,
{
    lemma_unescape_escape_suffix(c, Seq::empty());
    assert(spec_escape(c) + Seq::<u8>::empty() =~= spec_escape(c));
    assert(spec_unescape(Seq::<u8>::empty()) =~= Seq::<u8>::empty());
    assert(c + Seq::<u8>::empty() =~= c);
}

/// An escaped text never holds the open-bracket byte.
proof fn lemma_escape_no_lt(c: Seq<u8>)
    ensures
        forall|i: int| 0 <= i < spec_escape(c).len() ==> spec_escape(c)[i] != 60,
    decreases c.len(),
{
    if c.len() > 0 {
        lemma_escape_no_lt(c.skip(1));
        let e0 = spec_esc_byte(c[0]);
        assert(forall|i: int| 0 <= i < e0.len() ==> e0[i] != 60);
        assert(forall|i: int|
            0 <= i < spec_escape(c).len() ==> spec_escape(c)[i] == (if i < e0.len() {
                e0[i]
            } else {
                spec_escape(c.skip(1))[i - e0.len()]
            }));
    }
}

/// A nonempty text and its escape end alike in a newline or not.
proof fn lemma_escape_last(c: Seq<u8>)
    requires
        c.len() > 0,
    ensures
        spec_escape(c).len() > 0,
        (spec_escape(c).last() == 10) == (c.last() == 10),
    decreases c.len(),
{
    if c.len() == 1 {
        let e0 = spec_esc_byte(c[0]);
        assert(spec_escape(c.skip(1)) =~= Seq::<u8>::empty());
        assert(spec_escape(c) =~= e0);
        assert(e0.last() == 10 <==> c[0] == 10);
    } else {
        lemma_escape_last(c.skip(1));
        let e0 = spec_esc_byte(c[0]);
        let er = spec_escape(c.skip(1));
        assert(spec_escape(c) == e0 + er);
        assert(er.len() > 0);
        assert((e0 + er).last() == er.last());
        assert(c.skip(1).last() == c.last());
    }
}

/// Unescaping the rendered body recovers the content with one trailing
/// newline restored.
pub proof fn lemma_unescape_body(c: Seq<u8>)
    ensures
        spec_unescape(spec_escaped_body(c)) == spec_norm_nl(c),
{
    let e = spec_escape(c);
    if e.len() > 0 && e.last() == 10 {
        if c.len() == 0 {
            assert(e =~= Seq::<u8>::empty());
            assert(false);
        }
        lemma_escape_last(c);
        assert(c.last() == 10);
        lemma_unescape_escape(c);
        assert(spec_escaped_body(c) == e);
        assert(spec_norm_nl(c) == c);
    } else {
        assert(spec_escaped_body(c) == e + seq![10u8]);
        lemma_unescape_escape_suffix(c, seq![10u8]);
        assert(spec_unescape(seq![10u8]) =~= seq![10u8]) by {
            assert(seq![10u8].skip(1) =~= Seq::<u8>::empty());
            assert(spec_unescape(Seq::<u8>::empty()) == Seq::<u8>::empty());
            assert(seq![10u8][0] == 10u8);
            assert(spec_unescape(seq![10u8]) == seq![10u8] + spec_unescape(
                seq![10u8].skip(1),
            ));
        }
        assert(spec_unescape(e + seq![10u8]) == c + seq![10u8]);
        if c.len() > 0 && c.last() == 10 {
            lemma_escape_last(c);
            assert(false);
        }
        assert(spec_norm_nl(c) == c + seq![10u8]);
    }
}

/// Position of the first occurrence of `c` in `s`, or -1 if `c` is absent.
pub open spec fn spec_first_pos(s: Seq<u8>, c: u8) -> int
    decreases s.len(),
{
    if s.len() == 0 {
        -1
    } else if s[0] == c {
        0
    } else {
        let r = spec_first_pos(s.skip(1), c);
        if r < 0 {
            -1
        } else {
            r + 1
        }
    }
}

/// The first occurrence of `c` is where the first witness stands.
pub(crate) proof fn lemma_first_pos_at(s: Seq<u8>, c: u8, k: int)
    requires
        0 <= k < s.len(),
        s[k] == c,
        forall|j: int| 0 <= j < k ==> s[j] != c,
    ensures
        spec_first_pos(s, c) == k,
    decreases k,
{
    if k > 0 {
        assert(s[0] != c);
        assert(s.skip(1)[k - 1] == c);
        assert(forall|j: int| 0 <= j < k - 1 ==> #[trigger] s.skip(1)[j] == s[j + 1]);
        lemma_first_pos_at(s.skip(1), c, k - 1);
    }
}

/// Parse the remainder of a document after the root open tag (and after any
/// metadata element): a sequence of file elements closed by the root close
/// tag; anything else fails.
pub open spec fn spec_parse_files(s: Seq<u8>) -> Option<Seq<(Seq<u8>, Seq<u8>)>>
    decreases s.len(),
{
    if s == lit_ctx_close() {
        Some(Seq::empty())
    } else if s.len() >= 14 && s.take(14) == lit_file_open() {
        let r = s.skip(14);
        let q = spec_first_pos(r, 34);
        if 0 <= q < r.len() {
            let path = r.take(q);
            let r2 = r.skip(q);
            if r2.len() >= 3 && r2.take(3) == lit_attr_close() {
                let r3 = r2.skip(3);
                let m = spec_first_pos(r3, 60);
                if 2 <= m < r3.len() {
                    let body = r3.take(m - 2);
                    let r4 = r3.skip(m - 2);
                    if r4.len() >= 10 && r4.take(10) == lit_file_close() {
                        match spec_parse_files(r4.skip(10)) {
                            Some(l) => Some(seq![(path, spec_unescape(body))] + l),
                            None => None,
                        }
                    } else {
                        None
                    }
                } else {
                    None
                }
            } else {
                None
            }
        } else {
            None
        }
    } else {
        None
    }
}

/// Extract the (path, content) pairs back out of a rendered tagged-markup
/// document: strip the root open tag, skip the metadata line when one is
/// present, then parse the file elements.
pub open spec fn spec_extract_xml(doc: Seq<u8>) -> Option<Seq<(Seq<u8>, Seq<u8>)>> {
    if doc.len() >= 10 && doc.take(10) == lit_ctx_open() {
        let r1 = doc.skip(10);
        if r1.len() >= 15 && r1.take(15) == lit_meta_open() {
            let k = spec_first_pos(r1, 10);
            if 0 <= k < r1.len() {
                spec_parse_files(r1.skip(k + 1))
            } else {
                None
            }
        } else {
            spec_parse_files(r1)
        }
    } else {
        None
    }
}

/// The pairs with each content normalized to one trailing newline.
pub open spec fn spec_normalized(files: Seq<(Seq<u8>, Seq<u8>)>) -> Seq<(Seq<u8>, Seq<u8>)> {
    files.map_values(|f: (Seq<u8>, Seq<u8>)| (f.0, spec_norm_nl(f.1)))
}

/// Every path is free of the quote byte, which the path attribute cannot
/// carry.
pub open spec fn spec_paths_ok(files: Seq<(Seq<u8>, Seq<u8>)>) -> bool {
    forall|k: int, i: int|
        0 <= k < files.len() && 0 <= i < files[k].0.len() ==> files[k].0[i] != 34
}

/// Decimal renderings hold digit bytes only.
pub(crate) proof fn lemma_dec_digits(n: nat)
    ensures
        forall|i: int|
            0 <= i < crate::bytes::spec_dec(n).len() ==> 48 <= #[trigger] crate::bytes::spec_dec(
                n,
            )[i] <= 57,
    decreases n,
{
    let d = crate::bytes::spec_dec(n);
    if n < 10 {
        assert(d =~= seq![(48 + n) as u8]);
    } else {
        lemma_dec_digits(n / 10);
        let dp = crate::bytes::spec_dec(n / 10);
        assert forall|i: int| 0 <= i < d.len() implies 48 <= #[trigger] d[i] <= 57 by {
            if i < dp.len() {
                assert(d[i] == dp[i]);
            } else {
                assert(d[i] == (48 + n % 10) as u8);
            }
        }
    }
}

/// The body concatenation taken from the front.
proof fn lemma_body_cons(files: Seq<(Seq<u8>, Seq<u8>)>)
    requires
        files.len() > 0,
    ensures
        spec_xml_body(files) == spec_xml_file(files[0]) + spec_xml_body(files.skip(1)),
    decreases files.len(),
{
    if files.len() == 1 {
        assert(files.last() == files[0]);
        assert(files.drop_last().len() == 0);
        assert(files.skip(1).len() == 0);
        assert(spec_xml_body(files.drop_last()) =~= Seq::<u8>::empty());
        assert(spec_xml_body(files.skip(1)) =~= Seq::<u8>::empty());
        assert(spec_xml_body(files) == spec_xml_body(files.drop_last()) + spec_xml_file(
            files.last(),
        ));
        assert(spec_xml_body(files) =~= spec_xml_file(files[0]) + spec_xml_body(files.skip(1)));
    } else {
        lemma_body_cons(files.drop_last());
        assert(files.drop_last()[0] == files[0]);
        assert(files.drop_last().skip(1) =~= files.skip(1).drop_last());
        assert(files.skip(1).len() > 0);
        assert(files.skip(1).last() == files.last());
        assert(spec_xml_body(files.skip(1)) == spec_xml_body(files.skip(1).drop_last())
            + spec_xml_file(files.last()));
        assert(spec_xml_body(files) == (spec_xml_file(files[0]) + spec_xml_body(
            files.skip(1).drop_last(),
        )) + spec_xml_file(files.last()));
        assert((spec_xml_file(files[0]) + spec_xml_body(files.skip(1).drop_last()))
            + spec_xml_file(files.last()) =~= spec_xml_file(files[0]) + spec_xml_body(
            files.skip(1),
        ));
    }
}

/// Parsing one rendered file element hands back its pair and leaves the
/// rest to parse.
#[verifier::rlimit(100)]
proof fn lemma_parse_one(p: Seq<u8>, c: Seq<u8>, tail: Seq<u8>)
    requires
        forall|i: int| 0 <= i < p.len() ==> p[i] != 34,
        tail.len() >= 11,
        spec_parse_files(tail) is Some,
    ensures
        spec_parse_files(spec_xml_file((p, c)) + tail) == Some(
            seq![(p, spec_norm_nl(c))] + spec_parse_files(tail)->Some_0,
        ),
{
    let cc = lit_ctx_close();
    let eb = spec_escaped_body(c);
    let fo = lit_file_open();
    let ac = lit_attr_close();
    let fc = lit_file_close();
    let s = spec_xml_file((p, c)) + tail;
    assert(eb.len() >= 1);
    assert(s =~= fo + p + ac + eb + fc + tail);
    assert(s.len() == 27 + p.len() + eb.len() + tail.len());
    assert(s.len() != cc.len());
    assert(s != cc);
    assert(s.take(14) =~= fo);
    let r = s.skip(14);
    assert(r =~= p + ac + eb + fc + tail);
    let q: int = p.len() as int;
    assert(r[q] == 34);
    assert forall|j: int| 0 <= j < q implies r[j] != 34 by {
        assert(r[j] == p[j]);
    }
    lemma_first_pos_at(r, 34, q);
    assert(0 <= q < r.len());
    assert(r.take(q) =~= p);
    let r2 = r.skip(q);
    assert(r2 =~= ac + eb + fc + tail);
    assert(r2.len() >= 3);
    assert(r2.take(3) =~= ac);
    let r3 = r2.skip(3);
    assert(r3 =~= eb + fc + tail);
    lemma_escape_no_lt(c);
    assert forall|i: int| 0 <= i < eb.len() implies eb[i] != 60 by {
        let e = spec_escape(c);
        if e.len() > 0 && e.last() == 10 {
            assert(eb == e);
        } else {
            assert(eb == e + seq![10u8]);
            if i < e.len() {
                assert(eb[i] == e[i]);
            } else {
                assert(eb[i] == 10);
            }
        }
    }
    let m: int = eb.len() as int + 2;
    assert(r3[m] == 60);
    assert forall|j: int| 0 <= j < m implies r3[j] != 60 by {
        if j < eb.len() {
            assert(r3[j] == eb[j]);
        } else {
            assert(r3[j] == fc[j - eb.len()]);
        }
    }
    lemma_first_pos_at(r3, 60, m);
    assert(2 <= m < r3.len());
    assert(r3.take(m - 2) =~= eb);
    let r4 = r3.skip(m - 2);
    assert(r4 =~= fc + tail);
    assert(r4.len() >= 10);
    assert(r4.take(10) =~= fc);
    assert(r4.skip(10) =~= tail);
    lemma_unescape_body(c);
}

/// Parsing the rendered file elements recovers the normalized pairs.
#[verifier::rlimit(100)]
proof fn lemma_parse_body(files: Seq<(Seq<u8>, Seq<u8>)>)
    requires
        spec_paths_ok(files),
    ensures
        spec_parse_files(spec_xml_body(files) + lit_ctx_close()) == Some(spec_normalized(files)),
    decreases files.len(),
{
    let cc = lit_ctx_close();
    if files.len() == 0 {
        assert(spec_xml_body(files) + cc =~= cc);
        assert(spec_normalized(files) =~= Seq::<(Seq<u8>, Seq<u8>)>::empty());
    } else {
        let f0 = files[0];
        let rest = files.skip(1);
        assert forall|k: int, i: int|
            0 <= k < rest.len() && 0 <= i < rest[k].0.len() implies rest[k].0[i] != 34 by {
            assert(rest[k] == files[k + 1]);
        }
        lemma_parse_body(rest);
        lemma_body_cons(files);
        let tail = spec_xml_body(rest) + cc;
        assert(tail.len() >= 11);
        assert(f0 == (f0.0, f0.1));
        lemma_parse_one(f0.0, f0.1, tail);
        assert(spec_xml_body(files) + cc =~= spec_xml_file(f0) + tail);
        assert(seq![(f0.0, spec_norm_nl(f0.1))] + spec_normalized(rest) =~= spec_normalized(
            files,
        ));
    }
}

/// The metadata line holds no newline before the one that ends it.
proof fn lemma_meta_line(files: Seq<(Seq<u8>, Seq<u8>)>)
    ensures
        spec_xml_meta(files).len() >= 17,
        spec_xml_meta(files).last() == 10,
        forall|j: int|
            0 <= j < spec_xml_meta(files).len() - 1 ==> #[trigger] spec_xml_meta(files)[j] != 10,
        spec_xml_meta(files).take(15) == lit_meta_open(),
{
    let meta = spec_xml_meta(files);
    let mo = lit_meta_open();
    let mm = crate::markup::lit_meta_mid();
    let mc = crate::markup::lit_meta_close();
    let dn = crate::bytes::spec_dec(files.len());
    let dt = crate::bytes::spec_dec(crate::render::spec_total_tokens(files));
    lemma_dec_digits(files.len());
    lemma_dec_digits(crate::render::spec_total_tokens(files));
    assert(dn.len() >= 1);
    assert(dt.len() >= 1);
    assert(meta =~= mo + dn + mm + dt + mc);
    assert(meta.len() == 30 + dn.len() + dt.len());
    assert(meta.last() == mc[3]);
    assert forall|j: int| 0 <= j < meta.len() - 1 implies #[trigger] meta[j] != 10 by {
        if j < 15 {
            assert(meta[j] == mo[j]);
        } else if j < 15 + dn.len() {
            assert(meta[j] == dn[j - 15]);
        } else if j < 26 + dn.len() {
            assert(meta[j] == mm[j - 15 - dn.len()]);
        } else if j < 26 + dn.len() + dt.len() {
            assert(meta[j] == dt[j - 26 - dn.len()]);
        } else {
            assert(meta[j] == mc[j - 26 - dn.len() - dt.len()]);
        }
    }
    assert(meta.take(15) =~= mo);
}

/// The round trip with the metadata element present.
#[verifier::rlimit(100)]
#[verifier::spinoff_prover]
proof fn lemma_xml_round_trip_show(files: Seq<(Seq<u8>, Seq<u8>)>)
    requires
        spec_paths_ok(files),
    ensures
        spec_extract_xml(spec_format_xml(files, true)) == Some(spec_normalized(files)),
{
    let doc = spec_format_xml(files, true);
    let co = lit_ctx_open();
    let cc = lit_ctx_close();
    let body = spec_xml_body(files);
    lemma_parse_body(files);
    let meta = spec_xml_meta(files);
    lemma_meta_line(files);
    assert(doc =~= co + meta + body + cc);
    assert(doc.len() >= 10);
    assert(doc.take(10) =~= co);
    let r1 = doc.skip(10);
    assert(r1 =~= meta + body + cc);
    assert(r1.len() >= 15);
    assert(r1.take(15) =~= meta.take(15));
    let k: int = meta.len() - 1;
    assert(r1[k] == meta.last());
    assert forall|j: int| 0 <= j < k implies r1[j] != 10 by {
        assert(r1[j] == meta[j]);
    }
    lemma_first_pos_at(r1, 10, k);
    assert(0 <= k < r1.len());
    assert(r1.skip(k + 1) =~= body + cc);
    assert(spec_extract_xml(doc) == spec_parse_files(r1.skip(k + 1)));
}

/// The round trip without the metadata element.
#[verifier::rlimit(100)]
#[verifier::spinoff_prover]
proof fn lemma_xml_round_trip_plain(files: Seq<(Seq<u8>, Seq<u8>)>)
    requires
        spec_paths_ok(files),
    ensures
        spec_extract_xml(spec_format_xml(files, false)) == Some(spec_normalized(files)),
{
    let doc = spec_format_xml(files, false);
    let co = lit_ctx_open();
    let cc = lit_ctx_close();
    let mo = lit_meta_open();
    let body = spec_xml_body(files);
    lemma_parse_body(files);
    assert(doc =~= co + body + cc);
    assert(doc.take(10) =~= co);
    let r1 = doc.skip(10);
    assert(r1 =~= body + cc);
    if r1.len() >= 15 && r1.take(15) == mo {
        if files.len() == 0 {
            assert(r1 =~= cc);
            assert(r1.len() == 11);
            assert(false);
        } else {
            lemma_body_cons(files);
            assert(body =~= spec_xml_file(files[0]) + spec_xml_body(files.skip(1)));
            assert(body.take(14) =~= lit_file_open());
            assert(r1[3] == body[3]);
            assert(body[3] == body.take(14)[3]);
            assert(lit_file_open()[3] == 102);
            assert(r1.take(15)[3] == mo[3]);
            assert(mo[3] == 109);
            assert(false);
        }
    }
    assert(spec_extract_xml(doc) == spec_parse_files(r1));
}

/// Rendering a selected set as tagged markup and extracting it back
/// recovers the (path, content) pairs exactly, each content up to one
/// trailing-newline normalization, with or without the metadata element.
pub proof fn lemma_xml_round_trip(files: Seq<(Seq<u8>, Seq<u8>)>, show_tokens: bool)
    requires
        spec_paths_ok(files),
    ensures
        spec_extract_xml(spec_format_xml(files, show_tokens)) == Some(spec_normalized(files)),
{
    if show_tokens {
        lemma_xml_round_trip_show(files);
    } else {
        lemma_xml_round_trip_plain(files);
    }
}

} // verus!
