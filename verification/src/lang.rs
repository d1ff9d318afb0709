//! Inference of a Markdown language tag from a file name's extension, via a
//! fixed extension-to-tag table.

use vstd::prelude::*;

use crate::bytes::push_bytes;

verus! {

/// Position of the last occurrence of `c` in `s`, or -1 if `c` is absent.
pub open spec fn spec_last_pos(s: Seq<u8>, c: u8) -> int
    decreases s.len(),
{
    if s.len() == 0 {
        -1
    } else if s[s.len() - 1] == c {
        s.len() - 1
    } else {
        spec_last_pos(s.take(s.len() - 1), c)
    }
}

/// The final path component of a slash-separated path.
pub open spec fn spec_file_name(p: Seq<u8>) -> Seq<u8> {
    p.skip(spec_last_pos(p, 47) + 1)
}

/// The extension of a path's file name: the part after the last dot, provided
/// that dot is neither absent nor the name's first byte (a leading dot marks a
/// hidden file, not an extension).
pub open spec fn spec_extension(p: Seq<u8>) -> Option<Seq<u8>> {
    let name = spec_file_name(p);
    let k = spec_last_pos(name, 46);
    if k >= 1 {
        Some(name.skip(k + 1))
    } else {
        None
    }
}

/// The language tag for an extension, per the fixed table; unmapped
/// extensions yield the empty tag.
pub open spec fn spec_tag_of(e: Seq<u8>) -> Seq<u8> {
    // "rs" -> "rust"
    if e == seq![114u8, 115u8] {
        seq![114u8, 117u8, 115u8, 116u8]
    } else
    // "py" -> "python"
    if e == seq![112u8, 121u8] {
        seq![112u8, 121u8, 116u8, 104u8, 111u8, 110u8]
    } else
    // "js" -> "javascript"
    if e == seq![106u8, 115u8] {
        seq![106u8, 97u8, 118u8, 97u8, 115u8, 99u8, 114u8, 105u8, 112u8, 116u8]
    } else
    // "ts" -> "typescript"
    if e == seq![116u8, 115u8] {
        seq![116u8, 121u8, 112u8, 101u8, 115u8, 99u8, 114u8, 105u8, 112u8, 116u8]
    } else
    // "tsx" -> "tsx"
    if e == seq![116u8, 115u8, 120u8] {
        seq![116u8, 115u8, 120u8]
    } else
    // "jsx" -> "jsx"
    if e == seq![106u8, 115u8, 120u8] {
        seq![106u8, 115u8, 120u8]
    } else
    // "go" -> "go"
    if e == seq![103u8, 111u8] {
        seq![103u8, 111u8]
    } else
    // "rb" -> "ruby"
    if e == seq![114u8, 98u8] {
        seq![114u8, 117u8, 98u8, 121u8]
    } else
    // "java" -> "java"
    if e == seq![106u8, 97u8, 118u8, 97u8] {
        seq![106u8, 97u8, 118u8, 97u8]
    } else
    // "c" -> "c"
    if e == seq![99u8] {
        seq![99u8]
    } else
    // "cpp" -> "cpp"
    if e == seq![99u8, 112u8, 112u8] {
        seq![99u8, 112u8, 112u8]
    } else
    // "cc" -> "cpp"
    if e == seq![99u8, 99u8] {
        seq![99u8, 112u8, 112u8]
    } else
    // "cxx" -> "cpp"
    if e == seq![99u8, 120u8, 120u8] {
        seq![99u8, 112u8, 112u8]
    } else
    // "h" -> "cpp"
    if e == seq![104u8] {
        seq![99u8, 112u8, 112u8]
    } else
    // "hpp" -> "cpp"
    if e == seq![104u8, 112u8, 112u8] {
        seq![99u8, 112u8, 112u8]
    } else
    // "sh" -> "bash"
    if e == seq![115u8, 104u8] {
        seq![98u8, 97u8, 115u8, 104u8]
    } else
    // "bash" -> "bash"
    if e == seq![98u8, 97u8, 115u8, 104u8] {
        seq![98u8, 97u8, 115u8, 104u8]
    } else
    // "zsh" -> "zsh"
    if e == seq![122u8, 115u8, 104u8] {
        seq![122u8, 115u8, 104u8]
    } else
    // "fish" -> "fish"
    if e == seq![102u8, 105u8, 115u8, 104u8] {
        seq![102u8, 105u8, 115u8, 104u8]
    } else
    // "json" -> "json"
    if e == seq![106u8, 115u8, 111u8, 110u8] {
        seq![106u8, 115u8, 111u8, 110u8]
    } else
    // "yaml" -> "yaml"
    if e == seq![121u8, 97u8, 109u8, 108u8] {
        seq![121u8, 97u8, 109u8, 108u8]
    } else
    // "yml" -> "yaml"
    if e == seq![121u8, 109u8, 108u8] {
        seq![121u8, 97u8, 109u8, 108u8]
    } else
    // "toml" -> "toml"
    if e == seq![116u8, 111u8, 109u8, 108u8] {
        seq![116u8, 111u8, 109u8, 108u8]
    } else
    // "xml" -> "xml"
    if e == seq![120u8, 109u8, 108u8] {
        seq![120u8, 109u8, 108u8]
    } else
    // "html" -> "html"
    if e == seq![104u8, 116u8, 109u8, 108u8] {
        seq![104u8, 116u8, 109u8, 108u8]
    } else
    // "htm" -> "html"
    if e == seq![104u8, 116u8, 109u8] {
        seq![104u8, 116u8, 109u8, 108u8]
    } else
    // "css" -> "css"
    if e == seq![99u8, 115u8, 115u8] {
        seq![99u8, 115u8, 115u8]
    } else
    // "scss" -> "scss"
    if e == seq![115u8, 99u8, 115u8, 115u8] {
        seq![115u8, 99u8, 115u8, 115u8]
    } else
    // "sql" -> "sql"
    if e == seq![115u8, 113u8, 108u8] {
        seq![115u8, 113u8, 108u8]
    } else
    // "md" -> "markdown"
    if e == seq![109u8, 100u8] {
        seq![109u8, 97u8, 114u8, 107u8, 100u8, 111u8, 119u8, 110u8]
    } else
    // "dockerfile" -> "dockerfile"
    if e == seq![100u8, 111u8, 99u8, 107u8, 101u8, 114u8, 102u8, 105u8, 108u8, 101u8] {
        seq![100u8, 111u8, 99u8, 107u8, 101u8, 114u8, 102u8, 105u8, 108u8, 101u8]
    } else
    // "tf" -> "hcl"
    if e == seq![116u8, 102u8] {
        seq![104u8, 99u8, 108u8]
    } else
    // "swift" -> "swift"
    if e == seq![115u8, 119u8, 105u8, 102u8, 116u8] {
        seq![115u8, 119u8, 105u8, 102u8, 116u8]
    } else
    // "kt" -> "kotlin"
    if e == seq![107u8, 116u8] {
        seq![107u8, 111u8, 116u8, 108u8, 105u8, 110u8]
    } else
    // "kts" -> "kotlin"
    if e == seq![107u8, 116u8, 115u8] {
        seq![107u8, 111u8, 116u8, 108u8, 105u8, 110u8]
    } else
    // "r" -> "r"
    if e == seq![114u8] {
        seq![114u8]
    } else
    // "lua" -> "lua"
    if e == seq![108u8, 117u8, 97u8] {
        seq![108u8, 117u8, 97u8]
    } else
    // "zig" -> "zig"
    if e == seq![122u8, 105u8, 103u8] {
        seq![122u8, 105u8, 103u8]
    } else
    // "nix" -> "nix"
    if e == seq![110u8, 105u8, 120u8] {
        seq![110u8, 105u8, 120u8]
    } else {
        Seq::empty()
    }
}

/// The language tag inferred from a path: the table applied to its extension.
pub open spec fn spec_lang_tag(p: Seq<u8>) -> Seq<u8> {
    match spec_extension(p) {
        Some(e) => spec_tag_of(e),
        None => Seq::empty(),
    }
}

/// Position of the last occurrence of `c` in `v`, if any.
pub fn last_pos(v: &Vec<u8>, c: u8) -> (r: Option<usize>)
    ensures
        r is None ==> spec_last_pos(v@, c) == -1,
        r matches Some(k) ==> spec_last_pos(v@, c) == k && k < v@.len(),
{
    let mut i: usize = v.len();
    proof {
        assert(v@.take(v@.len() as int) =~= v@);
    }
    loop
        invariant
            i <= v@.len(),
            spec_last_pos(v@, c) == spec_last_pos(v@.take(i as int), c),
        decreases i,
    {
        if i == 0 {
            return None;
        }
        i = i - 1;
        if v[i] == c {
            assert(spec_last_pos(v@.take(i + 1), c) == i);
            return Some(i);
        }
        proof {
            assert(v@.take(i + 1).take(i as int) =~= v@.take(i as int));
        }
    }
}

/// Copy `v[from..to]` into a fresh vector.
pub fn subrange_vec(v: &Vec<u8>, from: usize, to: usize) -> (r: Vec<u8>)
    requires
        from <= to <= v@.len(),
    ensures
        r@ == v@.subrange(from as int, to as int),
{
    let mut r: Vec<u8> = Vec::new();
    let mut i: usize = from;
    while i < to
        invariant
            from <= i <= to <= v@.len(),
            r@ =~= v@.subrange(from as int, i as int),
        decreases to - i,
    {
        r.push(v[i]);
        proof {
            assert(r@ =~= v@.subrange(from as int, i + 1));
        }
        i = i + 1;
    }
    proof {
        assert(r@ =~= v@.subrange(from as int, to as int));
    }
    r
}

/// Whether a vector's bytes equal a slice's bytes.
pub fn eq_bytes(a: &Vec<u8>, b: &[u8]) -> (r: bool)
    ensures
        r == (a@ == b@),
{
    if a.len() != b.len() {
        proof {
            assert(a@ != b@);
        }
        return false;
    }
    let mut i: usize = 0;
    while i < a.len()
        invariant
            i <= a@.len(),
            a@.len() == b@.len(),
            forall|j: int| 0 <= j < i ==> a@[j] == b@[j],
        decreases a@.len() - i,
    {
        if a[i] != b[i] {
            proof {
                assert(a@ != b@);
            }
            return false;
        }
        i = i + 1;
    }
    proof {
        assert(a@ =~= b@);
    }
    true
}

/// A fresh vector holding the bytes of `s`.
pub fn vec_lit(s: &[u8]) -> (r: Vec<u8>)
    ensures
        r@ == s@,
{
    let mut r: Vec<u8> = Vec::new();
    push_bytes(&mut r, s);
    proof {
        assert(r@ =~= s@);
    }
    r
}

/// The extension of a path's file name, as `spec_extension` describes it.
pub fn extension_of(path: &Vec<u8>) -> (r: Option<Vec<u8>>)
    ensures
        r is None ==> spec_extension(path@) is None,
        r matches Some(e) ==> spec_extension(path@) matches Some(se) && e@ == se,
{
    let n = path.len();
    let start: usize = match last_pos(path, 47) {
        Some(k) => k + 1,
        None => 0,
    };
    let name = subrange_vec(path, start, n);
    proof {
        assert(name@ =~= spec_file_name(path@));
    }
    match last_pos(&name, 46) {
        None => None,
        Some(k) => {
            if k == 0 {
                None
            } else {
                let e = subrange_vec(&name, k + 1, name.len());
                proof {
                    assert(e@ =~= spec_file_name(path@).skip(k + 1));
                }
                Some(e)
            }
        },
    }
}

/// Infer a Markdown language tag from a path's extension, per the fixed
/// table; paths without a mapped extension yield the empty tag.
pub fn lang_tag(path: &Vec<u8>) -> (r: Vec<u8>)
    ensures
        r@ == spec_lang_tag(path@),
{
    let ext = match extension_of(path) {
        None => {
            let r: Vec<u8> = Vec::new();
            proof {
                assert(r@ =~= Seq::<u8>::empty());
            }
            return r;
        },
        Some(e) => e,
    };
    tag_of(&ext)
}

/// Look an extension up in the fixed extension-to-tag table.
pub fn tag_of(ext: &Vec<u8>) -> (r: Vec<u8>)
    ensures
        r@ == spec_tag_of(ext@),
{
    let p_rs: [u8; 2] = [114, 115];
    proof {
        assert(p_rs@ =~= seq![114u8, 115u8]);
    }
    if eq_bytes(ext, p_rs.as_slice()) {
        let t: [u8; 4] = [114, 117, 115, 116];
        proof {
            assert(t@ =~= seq![114u8, 117u8, 115u8, 116u8]);
        }
        return vec_lit(t.as_slice());
    }
    let p_py: [u8; 2] = [112, 121];
    proof {
        assert(p_py@ =~= seq![112u8, 121u8]);
    }
    if eq_bytes(ext, p_py.as_slice()) {
        let t: [u8; 6] = [112, 121, 116, 104, 111, 110];
        proof {
            assert(t@ =~= seq![112u8, 121u8, 116u8, 104u8, 111u8, 110u8]);
        }
        return vec_lit(t.as_slice());
    }
    let p_js: [u8; 2] = [106, 115];
    proof {
        assert(p_js@ =~= seq![106u8, 115u8]);
    }
    if eq_bytes(ext, p_js.as_slice()) {
        let t: [u8; 10] = [106, 97, 118, 97, 115, 99, 114, 105, 112, 116];
        proof {
            assert(t@ =~= seq![106u8, 97u8, 118u8, 97u8, 115u8, 99u8, 114u8, 105u8, 112u8, 116u8]);
        }
        return vec_lit(t.as_slice());
    }
    let p_ts: [u8; 2] = [116, 115];
    proof {
        assert(p_ts@ =~= seq![116u8, 115u8]);
    }
    if eq_bytes(ext, p_ts.as_slice()) {
        let t: [u8; 10] = [116, 121, 112, 101, 115, 99, 114, 105, 112, 116];
        proof {
            assert(t@ =~= seq![116u8, 121u8, 112u8, 101u8, 115u8, 99u8, 114u8, 105u8, 112u8, 116u8]);
        }
        return vec_lit(t.as_slice());
    }
    let p_tsx: [u8; 3] = [116, 115, 120];
    proof {
        assert(p_tsx@ =~= seq![116u8, 115u8, 120u8]);
    }
    if eq_bytes(ext, p_tsx.as_slice()) {
        let t: [u8; 3] = [116, 115, 120];
        proof {
            assert(t@ =~= seq![116u8, 115u8, 120u8]);
        }
        return vec_lit(t.as_slice());
    }
    let p_jsx: [u8; 3] = [106, 115, 120];
    proof {
        assert(p_jsx@ =~= seq![106u8, 115u8, 120u8]);
    }
    if eq_bytes(ext, p_jsx.as_slice()) {
        let t: [u8; 3] = [106, 115, 120];
        proof {
            assert(t@ =~= seq![106u8, 115u8, 120u8]);
        }
        return vec_lit(t.as_slice());
    }
    let p_go: [u8; 2] = [103, 111];
    proof {
        assert(p_go@ =~= seq![103u8, 111u8]);
    }
    if eq_bytes(ext, p_go.as_slice()) {
        let t: [u8; 2] = [103, 111];
        proof {
            assert(t@ =~= seq![103u8, 111u8]);
        }
        return vec_lit(t.as_slice());
    }
    let p_rb: [u8; 2] = [114, 98];
    proof {
        assert(p_rb@ =~= seq![114u8, 98u8]);
    }
    if eq_bytes(ext, p_rb.as_slice()) {
        let t: [u8; 4] = [114, 117, 98, 121];
        proof {
            assert(t@ =~= seq![114u8, 117u8, 98u8, 121u8]);
        }
        return vec_lit(t.as_slice());
    }
    let p_java: [u8; 4] = [106, 97, 118, 97];
    proof {
        assert(p_java@ =~= seq![106u8, 97u8, 118u8, 97u8]);
    }
    if eq_bytes(ext, p_java.as_slice()) {
        let t: [u8; 4] = [106, 97, 118, 97];
        proof {
            assert(t@ =~= seq![106u8, 97u8, 118u8, 97u8]);
        }
        return vec_lit(t.as_slice());
    }
    let p_c: [u8; 1] = [99];
    proof {
        assert(p_c@ =~= seq![99u8]);
    }
    if eq_bytes(ext, p_c.as_slice()) {
        let t: [u8; 1] = [99];
        proof {
            assert(t@ =~= seq![99u8]);
        }
        return vec_lit(t.as_slice());
    }
    let p_cpp: [u8; 3] = [99, 112, 112];
    proof {
        assert(p_cpp@ =~= seq![99u8, 112u8, 112u8]);
    }
    if eq_bytes(ext, p_cpp.as_slice()) {
        let t: [u8; 3] = [99, 112, 112];
        proof {
            assert(t@ =~= seq![99u8, 112u8, 112u8]);
        }
        return vec_lit(t.as_slice());
    }
    let p_cc: [u8; 2] = [99, 99];
    proof {
        assert(p_cc@ =~= seq![99u8, 99u8]);
    }
    if eq_bytes(ext, p_cc.as_slice()) {
        let t: [u8; 3] = [99, 112, 112];
        proof {
            assert(t@ =~= seq![99u8, 112u8, 112u8]);
        }
        return vec_lit(t.as_slice());
    }
    let p_cxx: [u8; 3] = [99, 120, 120];
    proof {
        assert(p_cxx@ =~= seq![99u8, 120u8, 120u8]);
    }
    if eq_bytes(ext, p_cxx.as_slice()) {
        let t: [u8; 3] = [99, 112, 112];
        proof {
            assert(t@ =~= seq![99u8, 112u8, 112u8]);
        }
        return vec_lit(t.as_slice());
    }
    let p_h: [u8; 1] = [104];
    proof {
        assert(p_h@ =~= seq![104u8]);
    }
    if eq_bytes(ext, p_h.as_slice()) {
        let t: [u8; 3] = [99, 112, 112];
        proof {
            assert(t@ =~= seq![99u8, 112u8, 112u8]);
        }
        return vec_lit(t.as_slice());
    }
    let p_hpp: [u8; 3] = [104, 112, 112];
    proof {
        assert(p_hpp@ =~= seq![104u8, 112u8, 112u8]);
    }
    if eq_bytes(ext, p_hpp.as_slice()) {
        let t: [u8; 3] = [99, 112, 112];
        proof {
            assert(t@ =~= seq![99u8, 112u8, 112u8]);
        }
        return vec_lit(t.as_slice());
    }
    let p_sh: [u8; 2] = [115, 104];
    proof {
        assert(p_sh@ =~= seq![115u8, 104u8]);
    }
    if eq_bytes(ext, p_sh.as_slice()) {
        let t: [u8; 4] = [98, 97, 115, 104];
        proof {
            assert(t@ =~= seq![98u8, 97u8, 115u8, 104u8]);
        }
        return vec_lit(t.as_slice());
    }
    let p_bash: [u8; 4] = [98, 97, 115, 104];
    proof {
        assert(p_bash@ =~= seq![98u8, 97u8, 115u8, 104u8]);
    }
    if eq_bytes(ext, p_bash.as_slice()) {
        let t: [u8; 4] = [98, 97, 115, 104];
        proof {
            assert(t@ =~= seq![98u8, 97u8, 115u8, 104u8]);
        }
        return vec_lit(t.as_slice());
    }
    let p_zsh: [u8; 3] = [122, 115, 104];
    proof {
        assert(p_zsh@ =~= seq![122u8, 115u8, 104u8]);
    }
    if eq_bytes(ext, p_zsh.as_slice()) {
        let t: [u8; 3] = [122, 115, 104];
        proof {
            assert(t@ =~= seq![122u8, 115u8, 104u8]);
        }
        return vec_lit(t.as_slice());
    }
    let p_fish: [u8; 4] = [102, 105, 115, 104];
    proof {
        assert(p_fish@ =~= seq![102u8, 105u8, 115u8, 104u8]);
    }
    if eq_bytes(ext, p_fish.as_slice()) {
        let t: [u8; 4] = [102, 105, 115, 104];
        proof {
            assert(t@ =~= seq![102u8, 105u8, 115u8, 104u8]);
        }
        return vec_lit(t.as_slice());
    }
    let p_json: [u8; 4] = [106, 115, 111, 110];
    proof {
        assert(p_json@ =~= seq![106u8, 115u8, 111u8, 110u8]);
    }
    if eq_bytes(ext, p_json.as_slice()) {
        let t: [u8; 4] = [106, 115, 111, 110];
        proof {
            assert(t@ =~= seq![106u8, 115u8, 111u8, 110u8]);
        }
        return vec_lit(t.as_slice());
    }
    let p_yaml: [u8; 4] = [121, 97, 109, 108];
    proof {
        assert(p_yaml@ =~= seq![121u8, 97u8, 109u8, 108u8]);
    }
    if eq_bytes(ext, p_yaml.as_slice()) {
        let t: [u8; 4] = [121, 97, 109, 108];
        proof {
            assert(t@ =~= seq![121u8, 97u8, 109u8, 108u8]);
        }
        return vec_lit(t.as_slice());
    }
    let p_yml: [u8; 3] = [121, 109, 108];
    proof {
        assert(p_yml@ =~= seq![121u8, 109u8, 108u8]);
    }
    if eq_bytes(ext, p_yml.as_slice()) {
        let t: [u8; 4] = [121, 97, 109, 108];
        proof {
            assert(t@ =~= seq![121u8, 97u8, 109u8, 108u8]);
        }
        return vec_lit(t.as_slice());
    }
    let p_toml: [u8; 4] = [116, 111, 109, 108];
    proof {
        assert(p_toml@ =~= seq![116u8, 111u8, 109u8, 108u8]);
    }
    if eq_bytes(ext, p_toml.as_slice()) {
        let t: [u8; 4] = [116, 111, 109, 108];
        proof {
            assert(t@ =~= seq![116u8, 111u8, 109u8, 108u8]);
        }
        return vec_lit(t.as_slice());
    }
    let p_xml: [u8; 3] = [120, 109, 108];
    proof {
        assert(p_xml@ =~= seq![120u8, 109u8, 108u8]);
    }
    if eq_bytes(ext, p_xml.as_slice()) {
        let t: [u8; 3] = [120, 109, 108];
        proof {
            assert(t@ =~= seq![120u8, 109u8, 108u8]);
        }
        return vec_lit(t.as_slice());
    }
    let p_html: [u8; 4] = [104, 116, 109, 108];
    proof {
        assert(p_html@ =~= seq![104u8, 116u8, 109u8, 108u8]);
    }
    if eq_bytes(ext, p_html.as_slice()) {
        let t: [u8; 4] = [104, 116, 109, 108];
        proof {
            assert(t@ =~= seq![104u8, 116u8, 109u8, 108u8]);
        }
        return vec_lit(t.as_slice());
    }
    let p_htm: [u8; 3] = [104, 116, 109];
    proof {
        assert(p_htm@ =~= seq![104u8, 116u8, 109u8]);
    }
    if eq_bytes(ext, p_htm.as_slice()) {
        let t: [u8; 4] = [104, 116, 109, 108];
        proof {
            assert(t@ =~= seq![104u8, 116u8, 109u8, 108u8]);
        }
        return vec_lit(t.as_slice());
    }
    let p_css: [u8; 3] = [99, 115, 115];
    proof {
        assert(p_css@ =~= seq![99u8, 115u8, 115u8]);
    }
    if eq_bytes(ext, p_css.as_slice()) {
        let t: [u8; 3] = [99, 115, 115];
        proof {
            assert(t@ =~= seq![99u8, 115u8, 115u8]);
        }
        return vec_lit(t.as_slice());
    }
    let p_scss: [u8; 4] = [115, 99, 115, 115];
    proof {
        assert(p_scss@ =~= seq![115u8, 99u8, 115u8, 115u8]);
    }
    if eq_bytes(ext, p_scss.as_slice()) {
        let t: [u8; 4] = [115, 99, 115, 115];
        proof {
            assert(t@ =~= seq![115u8, 99u8, 115u8, 115u8]);
        }
        return vec_lit(t.as_slice());
    }
    let p_sql: [u8; 3] = [115, 113, 108];
    proof {
        assert(p_sql@ =~= seq![115u8, 113u8, 108u8]);
    }
    if eq_bytes(ext, p_sql.as_slice()) {
        let t: [u8; 3] = [115, 113, 108];
        proof {
            assert(t@ =~= seq![115u8, 113u8, 108u8]);
        }
        return vec_lit(t.as_slice());
    }
    let p_md: [u8; 2] = [109, 100];
    proof {
        assert(p_md@ =~= seq![109u8, 100u8]);
    }
    if eq_bytes(ext, p_md.as_slice()) {
        let t: [u8; 8] = [109, 97, 114, 107, 100, 111, 119, 110];
        proof {
            assert(t@ =~= seq![109u8, 97u8, 114u8, 107u8, 100u8, 111u8, 119u8, 110u8]);
        }
        return vec_lit(t.as_slice());
    }
    let p_dockerfile: [u8; 10] = [100, 111, 99, 107, 101, 114, 102, 105, 108, 101];
    proof {
        assert(p_dockerfile@ =~= seq![100u8, 111u8, 99u8, 107u8, 101u8, 114u8, 102u8, 105u8, 108u8, 101u8]);
    }
    if eq_bytes(ext, p_dockerfile.as_slice()) {
        let t: [u8; 10] = [100, 111, 99, 107, 101, 114, 102, 105, 108, 101];
        proof {
            assert(t@ =~= seq![100u8, 111u8, 99u8, 107u8, 101u8, 114u8, 102u8, 105u8, 108u8, 101u8]);
        }
        return vec_lit(t.as_slice());
    }
    let p_tf: [u8; 2] = [116, 102];
    proof {
        assert(p_tf@ =~= seq![116u8, 102u8]);
    }
    if eq_bytes(ext, p_tf.as_slice()) {
        let t: [u8; 3] = [104, 99, 108];
        proof {
            assert(t@ =~= seq![104u8, 99u8, 108u8]);
        }
        return vec_lit(t.as_slice());
    }
    let p_swift: [u8; 5] = [115, 119, 105, 102, 116];
    proof {
        assert(p_swift@ =~= seq![115u8, 119u8, 105u8, 102u8, 116u8]);
    }
    if eq_bytes(ext, p_swift.as_slice()) {
        let t: [u8; 5] = [115, 119, 105, 102, 116];
        proof {
            assert(t@ =~= seq![115u8, 119u8, 105u8, 102u8, 116u8]);
        }
        return vec_lit(t.as_slice());
    }
    let p_kt: [u8; 2] = [107, 116];
    proof {
        assert(p_kt@ =~= seq![107u8, 116u8]);
    }
    if eq_bytes(ext, p_kt.as_slice()) {
        let t: [u8; 6] = [107, 111, 116, 108, 105, 110];
        proof {
            assert(t@ =~= seq![107u8, 111u8, 116u8, 108u8, 105u8, 110u8]);
        }
        return vec_lit(t.as_slice());
    }
    let p_kts: [u8; 3] = [107, 116, 115];
    proof {
        assert(p_kts@ =~= seq![107u8, 116u8, 115u8]);
    }
    if eq_bytes(ext, p_kts.as_slice()) {
        let t: [u8; 6] = [107, 111, 116, 108, 105, 110];
        proof {
            assert(t@ =~= seq![107u8, 111u8, 116u8, 108u8, 105u8, 110u8]);
        }
        return vec_lit(t.as_slice());
    }
    let p_r: [u8; 1] = [114];
    proof {
        assert(p_r@ =~= seq![114u8]);
    }
    if eq_bytes(ext, p_r.as_slice()) {
        let t: [u8; 1] = [114];
        proof {
            assert(t@ =~= seq![114u8]);
        }
        return vec_lit(t.as_slice());
    }
    let p_lua: [u8; 3] = [108, 117, 97];
    proof {
        assert(p_lua@ =~= seq![108u8, 117u8, 97u8]);
    }
    if eq_bytes(ext, p_lua.as_slice()) {
        let t: [u8; 3] = [108, 117, 97];
        proof {
            assert(t@ =~= seq![108u8, 117u8, 97u8]);
        }
        return vec_lit(t.as_slice());
    }
    let p_zig: [u8; 3] = [122, 105, 103];
    proof {
        assert(p_zig@ =~= seq![122u8, 105u8, 103u8]);
    }
    if eq_bytes(ext, p_zig.as_slice()) {
        let t: [u8; 3] = [122, 105, 103];
        proof {
            assert(t@ =~= seq![122u8, 105u8, 103u8]);
        }
        return vec_lit(t.as_slice());
    }
    let p_nix: [u8; 3] = [110, 105, 120];
    proof {
        assert(p_nix@ =~= seq![110u8, 105u8, 120u8]);
    }
    if eq_bytes(ext, p_nix.as_slice()) {
        let t: [u8; 3] = [110, 105, 120];
        proof {
            assert(t@ =~= seq![110u8, 105u8, 120u8]);
        }
        return vec_lit(t.as_slice());
    }
    let r: Vec<u8> = Vec::new();
    proof {
        assert(r@ =~= Seq::<u8>::empty());
    }
    r
}

} // verus!
