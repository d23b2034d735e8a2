//! The path boundary of the loaders.
//!
//! Every path a script hands to a loading operation is relative to the
//! session's base directory.  Before any file is touched, the path passes
//! this lexical gate: absolute paths, parent-directory components, null
//! bytes and backslashes are rejected, with an exact characterization of
//! what passes.  The embedding host additionally resolves the path against
//! the base directory on the real filesystem (symlinks included) through
//! its own validator before reading; that resolution needs the filesystem
//! and lives outside this crate.

use vstd::prelude::*;

verus! {

/// Position `i` starts a `..` component: two dots that stand between
/// separators or the ends of the path.
pub open spec fn dotdot_at(s: Seq<char>, i: int) -> bool {
    &&& 0 <= i
    &&& i + 2 <= s.len()
    &&& s[i] == '.'
    &&& s[i + 1] == '.'
    &&& (i == 0 || s[i - 1] == '/')
    &&& (i + 2 == s.len() || s[i + 2] == '/')
}

/// A load path is acceptable to the lexical gate: non-empty, relative,
/// free of null bytes and backslashes, and without any `..` component.
pub open spec fn rel_path_ok(s: Seq<char>) -> bool {
    &&& s.len() > 0
    &&& s[0] != '/'
    &&& forall|i: int| 0 <= i < s.len() ==> s[i] != '\u{0}' && s[i] != '\\'
    &&& forall|i: int| !dotdot_at(s, i)
}

/// Decide the lexical gate exactly.
pub fn check_rel_path(path: &str) -> (r: bool)
    ensures
        r == rel_path_ok(path@),
{
    let cs = crate::strutil::str_chars(path);
    if cs.len() == 0 {
        return false;
    }
    if cs[0] == '/' {
        return false;
    }
    let mut i: usize = 0;
    while i < cs.len()
        invariant
            cs@ == path@,
            i <= cs.len(),
            cs.len() > 0,
            forall|j: int| 0 <= j < i ==> cs@[j] != '\u{0}' && cs@[j] != '\\',
            forall|j: int| j < i ==> !dotdot_at(cs@, j),
        decreases cs.len() - i,
    {
        let c = cs[i];
        if c == '\u{0}' || c == '\\' {
            return false;
        }
        if c == '.' && i + 1 < cs.len() && cs[i + 1] == '.' && (i == 0 || cs[i - 1] == '/') && (i
            + 2 == cs.len() || cs[i + 2] == '/') {
            assert(dotdot_at(cs@, i as int));
            return false;
        }
        assert(!dotdot_at(cs@, i as int));
        i += 1;
    }
    assert(forall|j: int| !dotdot_at(cs@, j)) by {
        assert(forall|j: int| j >= cs@.len() - 1 ==> !dotdot_at(cs@, j));
    }
    true
}

/// The verdict of `path_security::validate_filename` on a name: that
/// validator reads nothing but its argument, so the verdict is a function
/// of the characters alone.
pub uninterp spec fn filename_valid(s: Seq<char>) -> bool;

/// Relies on `path_security::validate_filename`: a pure check of the
/// name, deciding [`filename_valid`]; a name passes only if it is
/// non-empty and free of path separators, among that validator's other
/// checks; on failure the validator's message is handed back.
#[verifier::external_body]
pub fn filename_ok(name: &str) -> (r: Result<(), String>)
    ensures
        r is Ok <==> filename_valid(name@),
        r is Ok ==> name@.len() > 0 && (forall|i: int|
            0 <= i < name@.len() ==> name@[i] != '/' && name@[i] != '\\'),
{
    match path_security::validate_filename(name) {
        Ok(_) => Ok(()),
        Err(e) => Err(e.to_string()),
    }
}

} // verus!
