//! Glob matching through the `globset` crate. The matcher type is declared
//! opaque; what a matcher was built from and what it matches are named by
//! uninterpreted spec functions, so every caller's contract is a function of
//! the pattern texts and the match key alone.

use vstd::prelude::*;

verus! {

#[verifier::external_type_specification]
#[verifier::external_body]
pub struct ExGlobSet(globset::GlobSet);

/// The pattern texts a matcher was built from, in order. Patterns that do not
/// parse as globs are retained here but match nothing.
pub uninterp spec fn glob_set_patterns(s: globset::GlobSet) -> Seq<Seq<u8>>;

/// Whether any pattern of `patterns` that parses as a glob matches `key`,
/// under globset's matching semantics. A function of the pattern texts and
/// the key alone within one build of this crate: globset picks its defaults
/// (backslash escaping, separator handling) per target OS at compile time,
/// so the function named here is the one this build links against.
pub uninterp spec fn globs_match(patterns: Seq<Seq<u8>>, key: Seq<u8>) -> bool;

/// Whether globset can compile a matcher over `patterns`: `build` fails only
/// on a regex-compilation error, which depends on the pattern texts alone.
pub uninterp spec fn glob_build_ok(patterns: Seq<Seq<u8>>) -> bool;

/// Relies on globset::GlobSetBuilder: `add` collects each pattern that
/// `Glob::new` accepts, and `build` produces a matcher over exactly those;
/// `build` fails only on an internal regex-compilation error, a deterministic
/// function of the pattern texts, and then no matcher exists.
#[verifier::external_body]
fn build_glob_set_raw(patterns: &Vec<Vec<u8>>) -> (r: Option<globset::GlobSet>)
    ensures
        r is Some <==> glob_build_ok(patterns.deep_view()),
        r matches Some(s) ==> glob_set_patterns(s) == patterns.deep_view(),
{
    let mut builder = globset::GlobSetBuilder::new();
    for p in patterns.iter() {
        match globset::Glob::new(String::from_utf8_lossy(p).into_owned().as_str()) {
            Ok(g) => {
                builder.add(g);
            },
            Err(_) => {},
        }
    }
    builder.build().ok()
}

/// Relies on globset::GlobSet::is_match: true exactly when some glob in the
/// set matches the path; the answer depends only on the set's patterns and
/// the path text.
#[verifier::external_body]
pub(crate) fn glob_set_is_match(set: &globset::GlobSet, key: &Vec<u8>) -> (r: bool)
    ensures
        r == globs_match(glob_set_patterns(*set), key@),
{
    let s: String = String::from_utf8_lossy(key).into_owned();
    set.is_match(s.as_str())
}

/// Build the optional glob filter for a pattern list: no patterns means no
/// filter. A failed build also yields no filter, as the traversal treats the
/// two alike.
pub fn build_filter(patterns: &Vec<Vec<u8>>) -> (r: Option<globset::GlobSet>)
    ensures
        r is Some <==> patterns@.len() > 0 && glob_build_ok(patterns.deep_view()),
        r matches Some(s) ==> glob_set_patterns(s) == patterns.deep_view(),
{
    if patterns.len() == 0 {
        None
    } else {
        build_glob_set_raw(patterns)
    }
}

} // verus!
