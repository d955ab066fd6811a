//! Scope-key derivation. A source unit's logical identity is a
//! `/`-separated path given as plain text. The scope key is that path with
//! the final extension stripped and every separator turned into an
//! underscore, so that it can stand as one identifier-like token in scoped
//! class names.

use vstd::prelude::*;
use vstd::string::*;

verus! {

/// Index of the last `/` in `p`, or `-1` when there is none.
pub open spec fn last_sep(p: Seq<char>) -> int
    decreases p.len(),
{
    if p.len() == 0 {
        -1
    } else if p.last() == '/' {
        p.len() - 1
    } else {
        last_sep(p.drop_last())
    }
}

/// Index of the last `.` in `p`, or `-1` when there is none.
pub open spec fn last_dot(p: Seq<char>) -> int
    decreases p.len(),
{
    if p.len() == 0 {
        -1
    } else if p.last() == '.' {
        p.len() - 1
    } else {
        last_dot(p.drop_last())
    }
}

/// Where the final path component begins: just after the last separator.
pub open spec fn name_start(p: Seq<char>) -> int {
    last_sep(p) + 1
}

/// Where the stem of the final component ends: at the last `.`, unless that
/// dot is absent, lies in an earlier component, or is the component's first
/// character (a leading dot marks a hidden name, not an extension).
pub open spec fn stem_end(p: Seq<char>) -> int {
    if last_dot(p) > name_start(p) {
        last_dot(p)
    } else {
        p.len() as int
    }
}

/// The extension of the final component, without its dot, or `None` when
/// the component has no extension.
pub open spec fn extension_of(p: Seq<char>) -> Option<Seq<char>> {
    if stem_end(p) < p.len() {
        Some(p.subrange(stem_end(p) + 1, p.len() as int))
    } else {
        None
    }
}

/// Every separator replaced by an underscore.
pub open spec fn replace_sep(s: Seq<char>) -> Seq<char> {
    s.map_values(|c: char| if c == '/' { '_' } else { c })
}

/// The base name of a path: with `full` the whole path up to the stem's
/// end, separators normalized to underscores (this is the scope key);
/// without `full` just the stem of the final component. `None` when the
/// final component is empty.
pub open spec fn spec_base_name(p: Seq<char>, full: bool) -> Option<Seq<char>> {
    if name_start(p) >= p.len() {
        None
    } else if full {
        Some(replace_sep(p.take(stem_end(p))))
    } else {
        Some(p.subrange(name_start(p), stem_end(p)))
    }
}

/// Whether the path names an extended-dialect source: its extension is
/// exactly `scss`. `None`-extension paths are rejected by the caller.
pub open spec fn spec_is_extended(p: Seq<char>) -> bool {
    extension_of(p) == Some(seq!['s', 'c', 's', 's'])
}

/// Failure to read a path: no usable final component or no extension.
#[derive(Clone, Debug)]
pub struct ResolutionError {
    pub message: String,
}

/// `last_sep` and `last_dot` stay within the sequence.
proof fn lemma_marks_in_range(p: Seq<char>)
    ensures
        -1 <= last_sep(p) < p.len(),
        -1 <= last_dot(p) < p.len(),
    decreases p.len(),
{
    if p.len() > 0 {
        lemma_marks_in_range(p.drop_last());
    }
}

/// Scan the whole path once, reporting the last separator and the last dot
/// in the forms the spec functions use.
fn scan_marks(path: &str) -> (r: (usize, bool, usize))
    ensures
        r.0 == name_start(path@),
        r.1 == (last_dot(path@) >= 0),
        r.1 ==> r.2 == last_dot(path@),
{
    let n = path.unicode_len();
    let mut sep_plus: usize = 0;
    let mut has_dot = false;
    let mut dot_idx: usize = 0;
    let mut i: usize = 0;
    proof {
        assert(path@.take(0) =~= Seq::<char>::empty());
    }
    while i < n
        invariant
            n == path@.len(),
            i <= n,
            sep_plus == last_sep(path@.take(i as int)) + 1,
            has_dot == (last_dot(path@.take(i as int)) >= 0),
            has_dot ==> dot_idx == last_dot(path@.take(i as int)),
        decreases n - i,
    {
        let c = path.get_char(i);
        proof {
            assert(path@.take(i + 1).drop_last() =~= path@.take(i as int));
            assert(path@.take(i + 1).last() == c);
            lemma_marks_in_range(path@.take(i as int));
        }
        if c == '/' {
            sep_plus = i + 1;
        } else if c == '.' {
            has_dot = true;
            dot_idx = i;
        }
        i = i + 1;
    }
    proof {
        assert(path@.take(n as int) =~= path@);
    }
    (sep_plus, has_dot, dot_idx)
}

/// The base name of `filename` (see `spec_base_name`): with `full_path` the
/// scope key, otherwise the stem of the final component. Fails exactly when
/// the final component is empty.
pub fn get_base_name(filename: &str, full_path: bool) -> (r: Result<String, ResolutionError>)
    ensures
        match r {
            Ok(name) => spec_base_name(filename@, full_path) == Some(name@),
            Err(_) => spec_base_name(filename@, full_path) is None,
        },
{
    let n = filename.unicode_len();
    let (ns, has_dot, dot_idx) = scan_marks(filename);
    proof {
        lemma_marks_in_range(filename@);
    }
    if ns >= n {
        return Err(
            ResolutionError { message: String::from_str("path has no final component") },
        );
    }
    let se: usize = if has_dot && dot_idx > ns {
        dot_idx
    } else {
        n
    };
    assert(se == stem_end(filename@));
    if full_path {
        let mut out = String::new();
        let mut i: usize = 0;
        proof {
            assert(replace_sep(filename@.take(0)) =~= Seq::<char>::empty());
        }
        while i < se
            invariant
                se <= filename@.len(),
                i <= se,
                out@ == replace_sep(filename@.take(i as int)),
            decreases se - i,
        {
            let c = filename.get_char(i);
            if c == '/' {
                out.append("_");
                proof {
                    reveal_strlit("_");
                }
            } else {
                out.append(filename.substring_char(i, i + 1));
            }
            proof {
                assert(out@ =~= replace_sep(filename@.take(i + 1)));
            }
            i = i + 1;
        }
        Ok(out)
    } else {
        let stem = filename.substring_char(ns, se);
        Ok(stem.to_owned())
    }
}

/// The scope key of a path: its base name over the full path, separators
/// normalized to underscores.
pub fn derive_scope_key(path: &str) -> (r: Result<String, ResolutionError>)
    ensures
        match r {
            Ok(key) => spec_base_name(path@, true) == Some(key@),
            Err(_) => spec_base_name(path@, true) is None,
        },
{
    get_base_name(path, true)
}

/// Whether `path` names an extended-dialect source, decided by its
/// extension: `Ok(true)` for `scss`, `Ok(false)` for any other extension,
/// and an error when the path has no extension at all.
pub fn is_extended(path: &str) -> (r: Result<bool, ResolutionError>)
    ensures
        match r {
            Ok(b) => extension_of(path@) is Some && b == spec_is_extended(path@),
            Err(_) => extension_of(path@) is None,
        },
{
    let n = path.unicode_len();
    let (ns, has_dot, dot_idx) = scan_marks(path);
    proof {
        lemma_marks_in_range(path@);
    }
    let se: usize = if has_dot && dot_idx > ns {
        dot_idx
    } else {
        n
    };
    assert(se == stem_end(path@));
    if se >= n {
        return Err(ResolutionError { message: String::from_str("path has no extension") });
    }
    let ext_len = n - (se + 1);
    let is_scss = ext_len == 4 && path.get_char(se + 1) == 's' && path.get_char(se + 2) == 'c'
        && path.get_char(se + 3) == 's' && path.get_char(se + 4) == 's';
    proof {
        let ext = path@.subrange(stem_end(path@) + 1, path@.len() as int);
        if is_scss {
            assert(ext =~= seq!['s', 'c', 's', 's']);
        } else {
            if ext =~= seq!['s', 'c', 's', 's'] {
                assert(ext.len() == 4);
                assert(path@[stem_end(path@) + 1] == 's');
                assert(path@[stem_end(path@) + 2] == 'c');
                assert(path@[stem_end(path@) + 3] == 's');
                assert(path@[stem_end(path@) + 4] == 's');
            }
        }
    }
    Ok(is_scss)
}

/// Law: scope-key derivation is deterministic — two source units with the
/// same logical identity always derive the same scope key.
pub proof fn lemma_scope_key_idempotent(p1: Seq<char>, p2: Seq<char>)
    requires
        p1 == p2,
    ensures
        spec_base_name(p1, true) == spec_base_name(p2, true),
{
}

} // verus!
