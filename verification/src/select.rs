//! The filter stage of the traversal pipeline: given the candidate entries a
//! directory walk produced, apply the size gate, the two glob gates, the
//! binary-content gate and the text-decode gate, and hand back the surviving
//! files sorted by match key.

use vstd::prelude::*;

use crate::bytes::bytes_le;
use crate::bytes::lemma_lex_le_total;
use crate::bytes::lemma_lex_le_transitive;
use crate::bytes::lex_le;
use crate::globs::glob_set_is_match;
use crate::globs::glob_set_patterns;
use crate::globs::globs_match;
use crate::lang::vec_lit;

verus! {

/// One selected file: its slash-separated path relative to the traversal
/// root, and its full content bytes.
pub struct CollectedFile {
    pub relative_path: Vec<u8>,
    pub content: Vec<u8>,
}

impl View for CollectedFile {
    type V = (Seq<u8>, Seq<u8>);

    open spec fn view(&self) -> (Seq<u8>, Seq<u8>) {
        (self.relative_path@, self.content@)
    }
}

/// One candidate entry handed in by the directory walk: its match key, its
/// byte size as metadata reports it, and its content bytes, absent when the
/// file could not be read.
pub struct FileEntry {
    pub rel_path: Vec<u8>,
    pub size: u64,
    pub content: Option<Vec<u8>>,
}

/// Bytes form well-formed UTF-8.
pub uninterp spec fn is_utf8(bytes: Seq<u8>) -> bool;

/// Relies on core::str::from_utf8: returns Ok exactly when the bytes are
/// well-formed UTF-8; validity is a function of the bytes alone.
#[verifier::external_body]
pub(crate) fn is_valid_utf8(bytes: &Vec<u8>) -> (r: bool)
    ensures
        r == is_utf8(bytes@),
{
    core::str::from_utf8(bytes.as_slice()).is_ok()
}

/// A NUL byte occurs within the first 8192 bytes: the binary heuristic.
pub open spec fn spec_has_nul_prefix(b: Seq<u8>) -> bool {
    exists|i: int| 0 <= i < b.len() && i < 8192 && b[i] == 0
}

/// Scan at most the first 8192 bytes for a NUL byte.
pub fn is_binary_sample(bytes: &Vec<u8>) -> (r: bool)
    ensures
        r == spec_has_nul_prefix(bytes@),
{
    let n = bytes.len();
    let lim = if n < 8192 {
        n
    } else {
        8192
    };
    let mut i: usize = 0;
    while i < lim
        invariant
            i <= lim,
            bytes@.len() < 8192 ==> lim == bytes@.len(),
            bytes@.len() >= 8192 ==> lim == 8192,
            forall|j: int| 0 <= j < i ==> bytes@[j] != 0,
        decreases lim - i,
    {
        if bytes[i] == 0 {
            assert(spec_has_nul_prefix(bytes@));
            return true;
        }
        i = i + 1;
    }
    false
}

/// The optional keep-filter passes `key`; without a filter everything passes.
pub open spec fn spec_globs_pass(globs: Option<globset::GlobSet>, key: Seq<u8>) -> bool {
    match globs {
        None => true,
        Some(s) => globs_match(glob_set_patterns(s), key),
    }
}

/// The optional drop-filter passes `key`: a match drops the entry; without a
/// filter everything passes.
pub open spec fn spec_excludes_pass(excludes: Option<globset::GlobSet>, key: Seq<u8>) -> bool {
    match excludes {
        None => true,
        Some(s) => !globs_match(glob_set_patterns(s), key),
    }
}

/// All gates in traversal order: size, keep-globs, drop-globs, binary
/// heuristic, text decode. An unreadable file fails as a binary one does.
pub open spec fn spec_entry_kept(
    e: FileEntry,
    globs: Option<globset::GlobSet>,
    excludes: Option<globset::GlobSet>,
    max_size: u64,
) -> bool {
    &&& e.size <= max_size
    &&& spec_globs_pass(globs, e.rel_path@)
    &&& spec_excludes_pass(excludes, e.rel_path@)
    &&& e.content matches Some(c) && !spec_has_nul_prefix(c@) && is_utf8(c@)
}

/// The (path, content) view a kept entry contributes.
pub open spec fn spec_collected(e: FileEntry) -> (Seq<u8>, Seq<u8>) {
    (e.rel_path@, e.content->Some_0@)
}

/// The selected files of an entry sequence, in traversal order: the kept
/// entries' (path, content) views.
pub open spec fn spec_selected(
    entries: Seq<FileEntry>,
    globs: Option<globset::GlobSet>,
    excludes: Option<globset::GlobSet>,
    max_size: u64,
) -> Seq<(Seq<u8>, Seq<u8>)>
    decreases entries.len(),
{
    if entries.len() == 0 {
        Seq::empty()
    } else {
        let prefix = spec_selected(entries.drop_last(), globs, excludes, max_size);
        if spec_entry_kept(entries.last(), globs, excludes, max_size) {
            prefix.push(spec_collected(entries.last()))
        } else {
            prefix
        }
    }
}

/// The (path, content) views of a file list.
pub open spec fn views_of(files: Seq<CollectedFile>) -> Seq<(Seq<u8>, Seq<u8>)> {
    files.map_values(|f: CollectedFile| f@)
}

/// The files stand in ascending byte-wise path order.
pub open spec fn spec_sorted_by_path(files: Seq<CollectedFile>) -> bool {
    forall|i: int, j: int|
        0 <= i < j < files.len() ==> lex_le(
            files[i].relative_path@,
            files[j].relative_path@,
        )
}

/// No two files share a relative path.
pub open spec fn spec_no_dup_paths(files: Seq<CollectedFile>) -> bool {
    forall|i: int, j: int|
        0 <= i < j < files.len() ==> files[i].relative_path@ != files[j].relative_path@
}

/// No two candidate entries share a match key, as holds of one filesystem
/// walk, where every relative path occurs once.
pub open spec fn spec_distinct_keys(entries: Seq<FileEntry>) -> bool {
    forall|i: int, j: int|
        0 <= i < j < entries.len() ==> entries[i].rel_path@ != entries[j].rel_path@
}

/// A file whose content holds a NUL byte within its first 8192 bytes is
/// never selected, whatever glob filters and size limit are in force.
pub proof fn lemma_nul_always_excluded(
    entries: Seq<FileEntry>,
    globs: Option<globset::GlobSet>,
    excludes: Option<globset::GlobSet>,
    max_size: u64,
)
    ensures
        forall|j: int|
            0 <= j < spec_selected(entries, globs, excludes, max_size).len()
                ==> !spec_has_nul_prefix(
                #[trigger] spec_selected(entries, globs, excludes, max_size)[j].1,
            ),
    decreases entries.len(),
{
    if entries.len() > 0 {
        lemma_nul_always_excluded(entries.drop_last(), globs, excludes, max_size);
        let prefix = spec_selected(entries.drop_last(), globs, excludes, max_size);
        let sel = spec_selected(entries, globs, excludes, max_size);
        if spec_entry_kept(entries.last(), globs, excludes, max_size) {
            assert(sel == prefix.push(spec_collected(entries.last())));
            assert forall|j: int| 0 <= j < sel.len() implies !spec_has_nul_prefix(sel[j].1) by {
                if j < prefix.len() {
                    assert(sel[j] == prefix[j]);
                } else {
                    assert(sel[j] == spec_collected(entries.last()));
                    assert(!spec_has_nul_prefix(entries.last().content->Some_0@));
                }
            }
        } else {
            assert(sel == prefix);
        }
    }
}

/// No file of a selection result holds a NUL byte among its first 8192
/// content bytes, whatever glob filters and size limit are in force.
pub proof fn lemma_selection_free_of_nul(
    r: Seq<CollectedFile>,
    entries: Seq<FileEntry>,
    globs: Option<globset::GlobSet>,
    excludes: Option<globset::GlobSet>,
    max_size: u64,
)
    requires
        views_of(r).to_multiset() == spec_selected(entries, globs, excludes, max_size).to_multiset(),
    ensures
        forall|j: int| 0 <= j < r.len() ==> !spec_has_nul_prefix(r[j].content@),
{
    broadcast use vstd::seq_lib::group_to_multiset_ensures;

    lemma_nul_always_excluded(entries, globs, excludes, max_size);
    let sel = spec_selected(entries, globs, excludes, max_size);
    assert forall|j: int| 0 <= j < r.len() implies !spec_has_nul_prefix(r[j].content@) by {
        let v = views_of(r)[j];
        assert(v == r[j]@);
        assert(views_of(r).contains(v));
        assert(views_of(r).to_multiset().count(v) > 0);
        assert(sel.to_multiset().count(v) > 0);
        assert(sel.contains(v));
        let k = choose|k: int| 0 <= k < sel.len() && sel[k] == v;
        assert(!spec_has_nul_prefix(sel[k].1));
    }
}

/// Decide all gates for one entry.
fn entry_kept(
    e: &FileEntry,
    globs: &Option<globset::GlobSet>,
    excludes: &Option<globset::GlobSet>,
    max_size: u64,
) -> (r: bool)
    ensures
        r == spec_entry_kept(*e, *globs, *excludes, max_size),
{
    if e.size > max_size {
        return false;
    }
    let gp = match globs {
        None => true,
        Some(s) => glob_set_is_match(s, &e.rel_path),
    };
    if !gp {
        return false;
    }
    let ep = match excludes {
        None => false,
        Some(s) => glob_set_is_match(s, &e.rel_path),
    };
    if ep {
        return false;
    }
    match &e.content {
        None => false,
        Some(c) => !is_binary_sample(c) && is_valid_utf8(c),
    }
}

/// Inserting anywhere adds the element to the sequence's multiset.
proof fn lemma_insert_to_multiset<T>(s: Seq<T>, i: int, x: T)
    requires
        0 <= i <= s.len(),
    ensures
        s.insert(i, x).to_multiset() == s.to_multiset().insert(x),
{
    broadcast use vstd::seq_lib::group_to_multiset_ensures;

    let s2 = s.insert(i, x);
    assert(s2.remove(i) =~= s);
    assert(s2[i] == x);
    assert(s2.remove(i).to_multiset() =~= s2.to_multiset().remove(x));
    assert(s2.to_multiset().count(x) > 0);
    assert(s2.to_multiset() =~= s.to_multiset().insert(x));
}

/// The position before the first element whose path exceeds `key`.
fn find_insert_pos(out: &Vec<CollectedFile>, key: &Vec<u8>) -> (i: usize)
    requires
        spec_sorted_by_path(out@),
    ensures
        i <= out@.len(),
        forall|j: int| 0 <= j < i ==> lex_le(out@[j].relative_path@, key@),
        i < out@.len() ==> !lex_le(out@[i as int].relative_path@, key@),
{
    let mut i: usize = 0;
    loop
        invariant
            i <= out@.len(),
            forall|j: int| 0 <= j < i ==> lex_le(out@[j].relative_path@, key@),
        decreases out@.len() - i,
    {
        if i == out.len() {
            return i;
        }
        if !bytes_le(&out[i].relative_path, key) {
            return i;
        }
        i = i + 1;
    }
}

/// Insert a file into a path-sorted list, keeping it sorted.
fn insert_sorted(out: &mut Vec<CollectedFile>, f: CollectedFile)
    requires
        spec_sorted_by_path(old(out)@),
    ensures
        spec_sorted_by_path(final(out)@),
        views_of(final(out)@).to_multiset() == views_of(old(out)@).to_multiset().insert(f@),
        exists|p: int|
            0 <= p <= old(out)@.len() && final(out)@ == old(out)@.insert(p, f),
{
    let i = find_insert_pos(out, &f.relative_path);
    let ghost before = out@;
    let ghost fv = f@;
    let ghost key = f.relative_path@;
    out.insert(i, f);
    proof {
        let after = out@;
        assert(after == before.insert(i as int, f));
        if i < before.len() {
            lemma_lex_le_total(before[i as int].relative_path@, key);
        }
        assert forall|a: int, b: int| 0 <= a < b < after.len() implies lex_le(
            after[a].relative_path@,
            after[b].relative_path@,
        ) by {
            if b < i {
                assert(after[a] == before[a] && after[b] == before[b]);
            } else if a > i {
                assert(after[a] == before[a - 1] && after[b] == before[b - 1]);
            } else if a < i && b == i {
                assert(after[a] == before[a]);
            } else if a < i && b > i {
                assert(after[a] == before[a] && after[b] == before[b - 1]);
            } else if a == i && b > i {
                assert(after[b] == before[b - 1]);
                assert(lex_le(key, before[i as int].relative_path@));
                if b - 1 > i {
                    assert(lex_le(
                        before[i as int].relative_path@,
                        before[b - 1].relative_path@,
                    ));
                    lemma_lex_le_transitive(
                        key,
                        before[i as int].relative_path@,
                        before[b - 1].relative_path@,
                    );
                }
            }
        }
        lemma_insert_to_multiset(before, i as int, f);
        assert(views_of(before.insert(i as int, f)) =~= views_of(before).insert(i as int, fv));
        lemma_insert_to_multiset(views_of(before), i as int, fv);
    }
}

/// Apply every gate to every candidate entry and return the surviving files,
/// sorted ascending by relative path: the selected set is exactly the kept
/// entries' (path, content) pairs, reordered into byte-wise path order.
pub fn select_entries(
    entries: &Vec<FileEntry>,
    globs: &Option<globset::GlobSet>,
    excludes: &Option<globset::GlobSet>,
    max_size: u64,
) -> (r: Vec<CollectedFile>)
    ensures
        spec_sorted_by_path(r@),
        views_of(r@).to_multiset() == spec_selected(
            entries@,
            *globs,
            *excludes,
            max_size,
        ).to_multiset(),
        spec_distinct_keys(entries@) ==> spec_no_dup_paths(r@),
{
    let mut out: Vec<CollectedFile> = Vec::new();
    let n = entries.len();
    let mut i: usize = 0;
    proof {
        assert(entries@.take(0) =~= Seq::<FileEntry>::empty());
        assert(views_of(out@) =~= Seq::<(Seq<u8>, Seq<u8>)>::empty());
    }
    while i < n
        invariant
            i <= n,
            n == entries@.len(),
            spec_sorted_by_path(out@),
            views_of(out@).to_multiset() == spec_selected(
                entries@.take(i as int),
                *globs,
                *excludes,
                max_size,
            ).to_multiset(),
            forall|t: int|
                0 <= t < out@.len() ==> exists|k: int|
                    0 <= k < i && (#[trigger] out@[t])@ == spec_collected(entries@[k]),
            spec_distinct_keys(entries@) ==> spec_no_dup_paths(out@),
        decreases n - i,
    {
        let ghost prev = entries@.take(i as int);
        proof {
            let cur = entries@.take(i + 1);
            assert(cur.drop_last() =~= prev);
            assert(cur.last() == entries@[i as int]);
        }
        let e = &entries[i];
        if entry_kept(e, globs, excludes, max_size) {
            match &e.content {
                Some(c) => {
                    let f = CollectedFile {
                        relative_path: vec_lit(e.rel_path.as_slice()),
                        content: vec_lit(c.as_slice()),
                    };
                    let ghost fv = f@;
                    let ghost out_before = out@;
                    proof {
                        assert(fv == spec_collected(entries@[i as int]));
                    }
                    insert_sorted(&mut out, f);
                    proof {
                        broadcast use vstd::seq_lib::group_to_multiset_ensures;

                        let cur = entries@.take(i + 1);
                        let sel_prev = spec_selected(prev, *globs, *excludes, max_size);
                        assert(cur.drop_last() =~= prev);
                        assert(cur.last() == entries@[i as int]);
                        assert(spec_entry_kept(cur.last(), *globs, *excludes, max_size));
                        assert(views_of(out@).to_multiset() == views_of(
                            out_before,
                        ).to_multiset().insert(fv));
                        assert(spec_selected(cur, *globs, *excludes, max_size) == sel_prev.push(
                            fv,
                        ));
                        assert(sel_prev.push(fv).to_multiset() =~= sel_prev.to_multiset().insert(
                            fv,
                        ));
                        let p = choose|p: int|
                            0 <= p <= out_before.len() && out@ == out_before.insert(p, f);
                        assert forall|t: int| 0 <= t < out@.len() implies exists|k: int|
                            0 <= k < i + 1 && (#[trigger] out@[t])@ == spec_collected(
                                entries@[k],
                            ) by {
                            if t < p {
                                assert(out@[t] == out_before[t]);
                                let k = choose|k: int|
                                    0 <= k < i && (#[trigger] out_before[t])@ == spec_collected(
                                        entries@[k],
                                    );
                                assert(0 <= k < i + 1 && out@[t]@ == spec_collected(entries@[k]));
                            } else if t == p {
                                assert(out@[t] == f);
                                assert(0 <= i < i + 1 && out@[t]@ == spec_collected(
                                    entries@[i as int],
                                ));
                            } else {
                                assert(out@[t] == out_before[t - 1]);
                                let k = choose|k: int|
                                    0 <= k < i && (#[trigger] out_before[t - 1])@ == spec_collected(
                                        entries@[k],
                                    );
                                assert(0 <= k < i + 1 && out@[t]@ == spec_collected(entries@[k]));
                            }
                        }
                        if spec_distinct_keys(entries@) {
                            assert forall|t1: int, t2: int|
                                0 <= t1 < t2 < out@.len() implies out@[t1].relative_path@
                                != out@[t2].relative_path@ by {
                                if t1 == p || t2 == p {
                                    let to = if t1 == p {
                                        t2
                                    } else {
                                        t1
                                    };
                                    let u = if to < p {
                                        to
                                    } else {
                                        to - 1
                                    };
                                    assert(out@[to] == out_before[u]);
                                    let k = choose|k: int|
                                        0 <= k < i && (#[trigger] out_before[u])@
                                            == spec_collected(entries@[k]);
                                    assert(out_before[u].relative_path@ == entries@[k].rel_path@);
                                    assert(entries@[k].rel_path@ != entries@[i as int].rel_path@);
                                    assert(f.relative_path@ == entries@[i as int].rel_path@);
                                } else {
                                    let u1 = if t1 < p {
                                        t1
                                    } else {
                                        t1 - 1
                                    };
                                    let u2 = if t2 < p {
                                        t2
                                    } else {
                                        t2 - 1
                                    };
                                    assert(out@[t1] == out_before[u1]);
                                    assert(out@[t2] == out_before[u2]);
                                    assert(0 <= u1 < u2 < out_before.len());
                                }
                            }
                        }
                    }
                },
                None => {
                    proof {
                        assert(false);
                    }
                },
            }
        } else {
            proof {
                let cur = entries@.take(i + 1);
                assert(spec_selected(cur, *globs, *excludes, max_size) == spec_selected(
                    prev,
                    *globs,
                    *excludes,
                    max_size,
                ));
            }
        }
        i = i + 1;
    }
    proof {
        assert(entries@.take(n as int) =~= entries@);
    }
    out
}

} // verus!
