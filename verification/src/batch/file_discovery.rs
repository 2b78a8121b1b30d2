//! File discovery rules: which file names a discovery configuration
//! accepts.  The directory walk itself is I/O and lives in the surrounding
//! application, which consults these rules for every file it meets.

use vstd::prelude::*;

use crate::text::{file_name_part, fold_code, spec_file_name, spec_fold_code};
use vstd::string::StrSliceExecFns;

verus! {

/// The character codes of a string.
pub open spec fn spec_codes_of(s: Seq<char>) -> Seq<u32> {
    Seq::new(s.len(), |i: int| s[i] as u32)
}

/// The character codes of a string, with ASCII upper case folded to lower.
pub open spec fn spec_folded_codes_of(s: Seq<char>) -> Seq<u32> {
    Seq::new(s.len(), |i: int| spec_fold_code(s[i]) as u32)
}

/// Glob matching over character codes from positions `ti` and `pi` on: a
/// star matches any run of characters (it either matches nothing here, or
/// consumes one character and stays), a question mark exactly one
/// character, and any other code only itself.
pub open spec fn spec_glob_at(t: Seq<u32>, ti: int, p: Seq<u32>, pi: int) -> bool
    decreases p.len() - pi, t.len() - ti,
    when 0 <= ti <= t.len() && 0 <= pi <= p.len()
{
    if ti == t.len() && pi == p.len() {
        true
    } else if pi == p.len() {
        false
    } else if p[pi] == 42 {
        spec_glob_at(t, ti, p, pi + 1) || (ti < t.len() && spec_glob_at(t, ti + 1, p, pi))
    } else {
        ti < t.len() && (p[pi] == 63 || p[pi] == t[ti]) && spec_glob_at(t, ti + 1, p, pi + 1)
    }
}

/// Whole-string glob matching over character codes.
pub open spec fn spec_glob(t: Seq<u32>, p: Seq<u32>) -> bool {
    spec_glob_at(t, 0, p, 0)
}

/// Glob matching over code vectors, from positions `ti` and `pi` on.
pub fn glob_match_recursive(text: &Vec<u32>, ti: usize, pattern: &Vec<u32>, pi: usize) -> (r:
    bool)
    requires
        ti <= text@.len(),
        pi <= pattern@.len(),
    ensures
        r == spec_glob_at(text@, ti as int, pattern@, pi as int),
    decreases pattern@.len() - pi, text@.len() - ti,
{
    let tn = text.len();
    let pn = pattern.len();
    if ti == tn && pi == pn {
        true
    } else if pi == pn {
        false
    } else if pattern[pi] == 42 {
        if glob_match_recursive(text, ti, pattern, pi + 1) {
            true
        } else if ti < tn {
            glob_match_recursive(text, ti + 1, pattern, pi)
        } else {
            false
        }
    } else if ti < tn {
        let pc = pattern[pi];
        if pc == 63 || pc == text[ti] {
            glob_match_recursive(text, ti + 1, pattern, pi + 1)
        } else {
            false
        }
    } else {
        false
    }
}

/// The character codes of a string, optionally case-folded.
fn codes_of(s: &str, fold: bool) -> (r: Vec<u32>)
    ensures
        fold ==> r@ == spec_folded_codes_of(s@),
        !fold ==> r@ == spec_codes_of(s@),
{
    let n = s.unicode_len();
    let mut out: Vec<u32> = Vec::new();
    let mut i: usize = 0;
    while i < n
        invariant
            0 <= i <= n,
            n == s@.len(),
            out@.len() == i,
            fold ==> out@ =~= spec_folded_codes_of(s@).subrange(0, i as int),
            !fold ==> out@ =~= spec_codes_of(s@).subrange(0, i as int),
        decreases n - i,
    {
        let c = s.get_char(i);
        if fold {
            out.push(fold_code(c));
            proof {
                assert(out@ =~= spec_folded_codes_of(s@).subrange(0, i as int + 1));
            }
        } else {
            out.push(c as u32);
            proof {
                assert(out@ =~= spec_codes_of(s@).subrange(0, i as int + 1));
            }
        }
        i = i + 1;
    }
    proof {
        if fold {
            assert(spec_folded_codes_of(s@).subrange(0, n as int) =~= spec_folded_codes_of(s@));
        } else {
            assert(spec_codes_of(s@).subrange(0, n as int) =~= spec_codes_of(s@));
        }
    }
    out
}

/// File discovery rules for finding image files by name.
pub struct FileDiscovery {
    /// Whether to scan recursively.
    pub recursive: bool,
    /// File patterns to match.
    pub patterns: Vec<String>,
    /// Maximum depth for recursive scanning (`None` = unlimited).
    pub max_depth: Option<usize>,
    /// Whether to follow symbolic links.
    pub follow_symlinks: bool,
}

impl FileDiscovery {
    /// Create a new file discovery with default settings: non-recursive,
    /// matching the conventional image file extensions in both cases.
    pub fn new() -> (r: Self)
        ensures
            !r.recursive,
            r.patterns@.len() == 2,
            r.patterns@[0]@ == "*.dcm"@,
            r.patterns@[1]@ == "*.DCM"@,
            r.max_depth is None,
            !r.follow_symlinks,
    {
        let mut patterns: Vec<String> = Vec::new();
        patterns.push("*.dcm".to_owned());
        patterns.push("*.DCM".to_owned());
        Self { recursive: false, patterns, max_depth: None, follow_symlinks: false }
    }

    /// Enable recursive scanning.
    pub fn recursive(self, recursive: bool) -> (r: Self)
        ensures
            r == (Self { recursive, ..self }),
    {
        Self { recursive, ..self }
    }

    /// Set maximum depth for recursive scanning.
    pub fn max_depth(self, depth: usize) -> (r: Self)
        ensures
            r == (Self { max_depth: Some(depth), ..self }),
    {
        Self { max_depth: Some(depth), ..self }
    }

    /// Set the file patterns to match.
    pub fn patterns(self, patterns: Vec<String>) -> (r: Self)
        ensures
            r == (Self { patterns, ..self }),
    {
        Self { patterns, ..self }
    }

    /// Add a pattern to match.
    pub fn pattern(self, pattern: &str) -> (r: Self)
        ensures
            r.recursive == self.recursive,
            r.max_depth == self.max_depth,
            r.follow_symlinks == self.follow_symlinks,
            r.patterns@.len() == self.patterns@.len() + 1,
            forall|i: int|
                0 <= i < self.patterns@.len() ==> r.patterns@[i] == self.patterns@[i],
            r.patterns@[self.patterns@.len() as int]@ == pattern@,
    {
        let mut patterns = self.patterns;
        patterns.push(pattern.to_owned());
        Self { patterns, ..self }
    }

    /// Enable following symbolic links.
    pub fn follow_symlinks(self, follow: bool) -> (r: Self)
        ensures
            r == (Self { follow_symlinks: follow, ..self }),
    {
        Self { follow_symlinks: follow, ..self }
    }

    /// Whole-string glob matching (star and question mark wildcards).
    pub fn glob_match(&self, text: &str, pattern: &str) -> (r: bool)
        ensures
            r == spec_glob(spec_codes_of(text@), spec_codes_of(pattern@)),
    {
        let t = codes_of(text, false);
        let p = codes_of(pattern, false);
        glob_match_recursive(&t, 0, &p, 0)
    }

    /// Whether the file name of a path matches any configured pattern,
    /// ignoring ASCII case.
    pub fn matches_pattern(&self, path: &str) -> (r: bool)
        ensures
            r == exists|k: int|
                0 <= k < self.patterns@.len() && spec_glob(
                    spec_folded_codes_of(spec_file_name(path@)),
                    spec_folded_codes_of(#[trigger] self.patterns@[k]@),
                ),
    {
        let name = file_name_part(path);
        let t = codes_of(name, true);
        let mut k: usize = 0;
        let n = self.patterns.len();
        while k < n
            invariant
                0 <= k <= n,
                n == self.patterns@.len(),
                t@ == spec_folded_codes_of(spec_file_name(path@)),
                forall|j: int|
                    0 <= j < k ==> !spec_glob(
                        t@,
                        spec_folded_codes_of(#[trigger] self.patterns@[j]@),
                    ),
            decreases n - k,
        {
            let p = codes_of(self.patterns[k].as_str(), true);
            if glob_match_recursive(&t, 0, &p, 0) {
                return true;
            }
            k = k + 1;
        }
        false
    }
}

} // verus!
