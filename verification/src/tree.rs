//! The tree mode: filter match keys by the two glob gates only (no size or
//! binary gate, since nothing is read), sort them, and render an indented
//! listing with a file count.

use vstd::prelude::*;

use crate::bytes::bytes_le;
use crate::bytes::dec_bytes;
use crate::bytes::lemma_lex_le_total;
use crate::bytes::lemma_lex_le_transitive;
use crate::bytes::lex_le;
use crate::bytes::push_bytes;
use crate::bytes::spec_dec;
use crate::lang::last_pos;
use crate::lang::spec_file_name;
use crate::lang::subrange_vec;
use crate::lang::vec_lit;
use crate::select::spec_excludes_pass;
use crate::select::spec_globs_pass;

verus! {

/// The path views of a key list.
pub open spec fn path_views(paths: Seq<Vec<u8>>) -> Seq<Seq<u8>> {
    paths.map_values(|p: Vec<u8>| p@)
}

/// A key passes both glob gates.
pub open spec fn spec_path_kept(
    p: Seq<u8>,
    globs: Option<globset::GlobSet>,
    excludes: Option<globset::GlobSet>,
) -> bool {
    spec_globs_pass(globs, p) && spec_excludes_pass(excludes, p)
}

/// The keys that pass both glob gates, in walk order.
pub open spec fn spec_paths_selected(
    paths: Seq<Seq<u8>>,
    globs: Option<globset::GlobSet>,
    excludes: Option<globset::GlobSet>,
) -> Seq<Seq<u8>>
    decreases paths.len(),
{
    if paths.len() == 0 {
        Seq::empty()
    } else {
        let prefix = spec_paths_selected(paths.drop_last(), globs, excludes);
        if spec_path_kept(paths.last(), globs, excludes) {
            prefix.push(paths.last())
        } else {
            prefix
        }
    }
}

/// The keys stand in ascending byte-wise order.
pub open spec fn spec_sorted_keys(paths: Seq<Vec<u8>>) -> bool {
    forall|i: int, j: int| 0 <= i < j < paths.len() ==> lex_le(paths[i]@, paths[j]@)
}

/// Decide both glob gates for one key.
fn path_kept(
    p: &Vec<u8>,
    globs: &Option<globset::GlobSet>,
    excludes: &Option<globset::GlobSet>,
) -> (r: bool)
    ensures
        r == spec_path_kept(p@, *globs, *excludes),
{
    let gp = match globs {
        None => true,
        Some(s) => crate::globs::glob_set_is_match(s, p),
    };
    if !gp {
        return false;
    }
    match excludes {
        None => true,
        Some(s) => !crate::globs::glob_set_is_match(s, p),
    }
}

/// The position before the first key that exceeds `key`.
fn find_key_pos(out: &Vec<Vec<u8>>, key: &Vec<u8>) -> (i: usize)
    requires
        spec_sorted_keys(out@),
    ensures
        i <= out@.len(),
        forall|j: int| 0 <= j < i ==> lex_le(out@[j]@, key@),
        i < out@.len() ==> !lex_le(out@[i as int]@, key@),
{
    let mut i: usize = 0;
    loop
        invariant
            i <= out@.len(),
            forall|j: int| 0 <= j < i ==> lex_le(out@[j]@, key@),
        decreases out@.len() - i,
    {
        if i == out.len() {
            return i;
        }
        if !bytes_le(&out[i], key) {
            return i;
        }
        i = i + 1;
    }
}

/// Insert a key into a sorted key list, keeping it sorted.
fn insert_key_sorted(out: &mut Vec<Vec<u8>>, key: Vec<u8>)
    requires
        spec_sorted_keys(old(out)@),
    ensures
        spec_sorted_keys(final(out)@),
        path_views(final(out)@).to_multiset() == path_views(old(out)@).to_multiset().insert(key@),
{
    broadcast use vstd::seq_lib::group_to_multiset_ensures;

    let i = find_key_pos(out, &key);
    let ghost before = out@;
    let ghost kv = key@;
    out.insert(i, key);
    proof {
        let after = out@;
        assert(after == before.insert(i as int, key));
        if i < before.len() {
            lemma_lex_le_total(before[i as int]@, kv);
        }
        assert forall|a: int, b: int| 0 <= a < b < after.len() implies lex_le(
            after[a]@,
            after[b]@,
        ) by {
            if b < i {
            } else if a > i {
                assert(after[a] == before[a - 1] && after[b] == before[b - 1]);
            } else if a < i && b == i {
                assert(after[a] == before[a]);
            } else if a < i && b > i {
                assert(after[a] == before[a] && after[b] == before[b - 1]);
            } else if a == i && b > i {
                assert(after[b] == before[b - 1]);
                assert(lex_le(kv, before[i as int]@));
                if b - 1 > i {
                    assert(lex_le(before[i as int]@, before[b - 1]@));
                    lemma_lex_le_transitive(kv, before[i as int]@, before[b - 1]@);
                }
            }
        }
        let s2 = before.insert(i as int, key);
        assert(s2.remove(i as int) =~= before);
        assert(s2.remove(i as int).to_multiset() =~= s2.to_multiset().remove(key));
        assert(s2.to_multiset().count(key) > 0);
        assert(s2.to_multiset() =~= before.to_multiset().insert(key));
        assert(path_views(s2) =~= path_views(before).insert(i as int, kv));
        let v2 = path_views(before).insert(i as int, kv);
        assert(v2.remove(i as int) =~= path_views(before));
        assert(v2.remove(i as int).to_multiset() =~= v2.to_multiset().remove(kv));
        assert(v2.to_multiset().count(kv) > 0);
        assert(v2.to_multiset() =~= path_views(before).to_multiset().insert(kv));
    }
}

/// Filter the match keys by the two glob gates and return the survivors in
/// ascending byte-wise order: exactly the keys that pass both gates.
pub fn select_paths(
    paths: &Vec<Vec<u8>>,
    globs: &Option<globset::GlobSet>,
    excludes: &Option<globset::GlobSet>,
) -> (r: Vec<Vec<u8>>)
    ensures
        spec_sorted_keys(r@),
        path_views(r@).to_multiset() == spec_paths_selected(
            path_views(paths@),
            *globs,
            *excludes,
        ).to_multiset(),
{
    let mut out: Vec<Vec<u8>> = Vec::new();
    let n = paths.len();
    let mut i: usize = 0;
    proof {
        assert(path_views(paths@.take(0)) =~= Seq::<Seq<u8>>::empty());
        assert(path_views(out@) =~= Seq::<Seq<u8>>::empty());
    }
    while i < n
        invariant
            i <= n,
            n == paths@.len(),
            spec_sorted_keys(out@),
            path_views(out@).to_multiset() == spec_paths_selected(
                path_views(paths@.take(i as int)),
                *globs,
                *excludes,
            ).to_multiset(),
        decreases n - i,
    {
        let ghost prev = path_views(paths@.take(i as int));
        if path_kept(&paths[i], globs, excludes) {
            let key = vec_lit(paths[i].as_slice());
            let ghost out_before = out@;
            insert_key_sorted(&mut out, key);
            proof {
                broadcast use vstd::seq_lib::group_to_multiset_ensures;

                let cur = path_views(paths@.take(i + 1));
                assert(cur.drop_last() =~= prev);
                assert(cur.last() == paths@[i as int]@);
                let sel_prev = spec_paths_selected(prev, *globs, *excludes);
                assert(spec_paths_selected(cur, *globs, *excludes) == sel_prev.push(
                    paths@[i as int]@,
                ));
                assert(sel_prev.push(paths@[i as int]@).to_multiset()
                    =~= sel_prev.to_multiset().insert(paths@[i as int]@));
            }
        } else {
            proof {
                let cur = path_views(paths@.take(i + 1));
                assert(cur.drop_last() =~= prev);
                assert(cur.last() == paths@[i as int]@);
                assert(spec_paths_selected(cur, *globs, *excludes) == spec_paths_selected(
                    prev,
                    *globs,
                    *excludes,
                ));
            }
        }
        i = i + 1;
    }
    proof {
        assert(paths@.take(n as int) =~= paths@);
    }
    out
}

/// The count of separator bytes in a key: its depth below the root.
pub open spec fn spec_depth(p: Seq<u8>) -> nat
    decreases p.len(),
{
    if p.len() == 0 {
        0
    } else {
        spec_depth(p.drop_last()) + (if p.last() == 47 {
            1nat
        } else {
            0nat
        })
    }
}

/// Two indent spaces for each level of depth.
pub open spec fn spec_indent(d: nat) -> Seq<u8> {
    Seq::new(2 * d, |i: int| 32u8)
}

/// One listing line: the indent, the key's final segment, a newline.
pub open spec fn spec_tree_line(p: Seq<u8>) -> Seq<u8> {
    spec_indent(spec_depth(p)) + spec_file_name(p) + seq![10u8]
}

/// All listing lines, in list order.
pub open spec fn spec_tree_lines(paths: Seq<Seq<u8>>) -> Seq<u8>
    decreases paths.len(),
{
    if paths.len() == 0 {
        Seq::empty()
    } else {
        spec_tree_lines(paths.drop_last()) + spec_tree_line(paths.last())
    }
}

/// The whole tree listing: the root name with a trailing separator, one
/// indented line per key, a blank line, and the file count.
pub open spec fn spec_format_tree(root_name: Seq<u8>, paths: Seq<Seq<u8>>) -> Seq<u8> {
    root_name + seq![47u8, 10u8] + spec_tree_lines(paths) + seq![10u8] + spec_dec(paths.len())
        + seq![32u8, 102u8, 105u8, 108u8, 101u8, 115u8, 10u8]
}

/// Count the separator bytes of a key.
fn depth_of(p: &Vec<u8>) -> (d: usize)
    ensures
        d == spec_depth(p@),
{
    let n = p.len();
    let mut d: usize = 0;
    let mut i: usize = 0;
    proof {
        assert(p@.take(0) =~= Seq::<u8>::empty());
    }
    while i < n
        invariant
            i <= n,
            n == p@.len(),
            d <= i,
            d == spec_depth(p@.take(i as int)),
        decreases n - i,
    {
        proof {
            let cur = p@.take(i + 1);
            assert(cur.drop_last() =~= p@.take(i as int));
            assert(cur.last() == p@[i as int]);
        }
        if p[i] == 47 {
            d = d + 1;
        }
        i = i + 1;
    }
    proof {
        assert(p@.take(n as int) =~= p@);
    }
    d
}

/// Render the tree listing for a root name and a sorted key list.
pub fn format_tree(root_name: &Vec<u8>, paths: &Vec<Vec<u8>>) -> (r: Vec<u8>)
    ensures
        r@ == spec_format_tree(root_name@, path_views(paths@)),
{
    let mut out: Vec<u8> = Vec::new();
    push_bytes(&mut out, root_name.as_slice());
    let a_slash: [u8; 2] = [47, 10];
    push_bytes(&mut out, a_slash.as_slice());
    let ghost head = out@;
    proof {
        assert(head =~= root_name@ + seq![47u8, 10u8]);
        assert(path_views(paths@.take(0)) =~= Seq::<Seq<u8>>::empty());
    }
    let n = paths.len();
    let mut i: usize = 0;
    while i < n
        invariant
            i <= n,
            n == paths@.len(),
            out@ == head + spec_tree_lines(path_views(paths@.take(i as int))),
        decreases n - i,
    {
        let ghost start = out@;
        let ghost pv = paths@[i as int]@;
        let d = depth_of(&paths[i]);
        let mut k: usize = 0;
        while k < d
            invariant
                k <= d,
                out@ == start + Seq::new(2 * k as nat, |t: int| 32u8),
            decreases d - k,
        {
            let a_sp: [u8; 2] = [32, 32];
            push_bytes(&mut out, a_sp.as_slice());
            proof {
                assert(out@ =~= start + Seq::new(2 * (k + 1) as nat, |t: int| 32u8));
            }
            k = k + 1;
        }
        let m = paths[i].len();
        let start_pos: usize = match last_pos(&paths[i], 47) {
            Some(s) => s + 1,
            None => 0,
        };
        let name = subrange_vec(&paths[i], start_pos, m);
        proof {
            assert(name@ =~= spec_file_name(pv));
        }
        push_bytes(&mut out, name.as_slice());
        out.push(10);
        proof {
            assert(out@ =~= start + spec_tree_line(pv));
            let pre = path_views(paths@.take(i as int));
            let cur = path_views(paths@.take(i + 1));
            assert(cur.drop_last() =~= pre);
            assert(cur.last() == pv);
            assert(out@ == head + spec_tree_lines(cur));
        }
        i = i + 1;
    }
    out.push(10);
    let count = dec_bytes(paths.len() as u128);
    push_bytes(&mut out, count.as_slice());
    let a_files: [u8; 7] = [32, 102, 105, 108, 101, 115, 10];
    push_bytes(&mut out, a_files.as_slice());
    proof {
        assert(paths@.take(n as int) =~= paths@);
        assert(path_views(paths@).len() == paths@.len());
        assert(out@ =~= spec_format_tree(root_name@, path_views(paths@)));
    }
    out
}

} // verus!
