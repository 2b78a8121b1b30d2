//! Small text helpers: string equality, ASCII case folding over character
//! codes, and file-name extraction from a path string.

use vstd::prelude::*;
use vstd::string::{StrSliceExecFns, StringExecFns};

verus! {

/// Whether two strings hold the same characters.
pub fn str_eq(a: &str, b: &str) -> (r: bool)
    ensures
        r == (a@ == b@),
{
    let na = a.unicode_len();
    let nb = b.unicode_len();
    if na != nb {
        proof {
            assert(a@ != b@);
        }
        return false;
    }
    let mut i: usize = 0;
    while i < na
        invariant
            0 <= i <= na,
            na == a@.len() == b@.len(),
            forall|j: int| 0 <= j < i ==> a@[j] == b@[j],
        decreases na - i,
    {
        if a.get_char(i) != b.get_char(i) {
            return false;
        }
        i = i + 1;
    }
    proof {
        assert(a@ =~= b@);
    }
    true
}

/// The decimal digit character for a value below ten.
pub open spec fn spec_digit(n: int) -> Seq<char> {
    if n == 0 {
        "0"@
    } else if n == 1 {
        "1"@
    } else if n == 2 {
        "2"@
    } else if n == 3 {
        "3"@
    } else if n == 4 {
        "4"@
    } else if n == 5 {
        "5"@
    } else if n == 6 {
        "6"@
    } else if n == 7 {
        "7"@
    } else if n == 8 {
        "8"@
    } else {
        "9"@
    }
}

/// The decimal rendering of a number.
pub open spec fn spec_decimal(n: int) -> Seq<char>
    decreases n,
{
    if n < 10 {
        spec_digit(n)
    } else {
        spec_decimal(n / 10) + spec_digit(n % 10)
    }
}

/// The digit character for a value below ten.
fn digit_str(n: u128) -> (r: &'static str)
    requires
        n < 10,
    ensures
        r@ == spec_digit(n as int),
{
    if n == 0 {
        "0"
    } else if n == 1 {
        "1"
    } else if n == 2 {
        "2"
    } else if n == 3 {
        "3"
    } else if n == 4 {
        "4"
    } else if n == 5 {
        "5"
    } else if n == 6 {
        "6"
    } else if n == 7 {
        "7"
    } else if n == 8 {
        "8"
    } else {
        "9"
    }
}

/// Append the decimal rendering of a number.
pub fn append_decimal(s: &mut String, n: u128)
    ensures
        final(s)@ == old(s)@ + spec_decimal(n as int),
    decreases n,
{
    if n >= 10 {
        append_decimal(s, n / 10);
    }
    s.append(digit_str(n % 10));
}

/// A character code with ASCII upper-case letters folded to lower case.
pub open spec fn spec_fold_code(c: char) -> int {
    if 65 <= c as int <= 90 {
        c as int + 32
    } else {
        c as int
    }
}

/// Fold an ASCII upper-case letter to lower case, as a character code.
pub fn fold_code(c: char) -> (r: u32)
    ensures
        r == spec_fold_code(c),
{
    let v = c as u32;
    if 65 <= v && v <= 90 {
        v + 32
    } else {
        v
    }
}

/// The position right after the last slash in a path, or zero.
pub open spec fn spec_after_last_slash(s: Seq<char>) -> int
    decreases s.len(),
{
    if s.len() == 0 {
        0
    } else if s[s.len() - 1] == '/' {
        s.len() as int
    } else {
        spec_after_last_slash(s.drop_last())
    }
}

/// A path with its trailing slashes removed.
pub open spec fn spec_trim_trailing_slashes(s: Seq<char>) -> Seq<char>
    decreases s.len(),
{
    if s.len() > 0 && s[s.len() - 1] == '/' {
        spec_trim_trailing_slashes(s.drop_last())
    } else {
        s
    }
}

/// The file-name component of a path string: everything after the last
/// slash, ignoring trailing slashes; empty when the path holds no
/// file-name component.
pub open spec fn spec_file_name(s: Seq<char>) -> Seq<char> {
    let t = spec_trim_trailing_slashes(s);
    t.subrange(spec_after_last_slash(t), t.len() as int)
}

/// The file-name component of a path string.
pub fn file_name_part(path: &str) -> (r: &str)
    ensures
        r@ == spec_file_name(path@),
{
    let n = path.unicode_len();
    let mut m: usize = n;
    proof {
        assert(path@.subrange(0, n as int) =~= path@);
    }
    while m > 0 && path.get_char(m - 1) == '/'
        invariant
            0 <= m <= n,
            n == path@.len(),
            spec_trim_trailing_slashes(path@) == spec_trim_trailing_slashes(
                path@.subrange(0, m as int),
            ),
        decreases m,
    {
        proof {
            assert(path@.subrange(0, m as int).drop_last() =~= path@.subrange(
                0,
                m as int - 1,
            ));
        }
        m = m - 1;
    }
    let ghost t = spec_trim_trailing_slashes(path@);
    proof {
        if m > 0 {
            assert(path@.subrange(0, m as int)[m - 1] == path@[m - 1]);
        } else {
            assert(path@.subrange(0, 0) =~= Seq::<char>::empty());
        }
        assert(t == path@.subrange(0, m as int));
    }
    let mut end: usize = m;
    while end > 0 && path.get_char(end - 1) != '/'
        invariant
            0 <= end <= m <= n,
            n == path@.len(),
            t == path@.subrange(0, m as int),
            spec_after_last_slash(t) == spec_after_last_slash(path@.subrange(0, end as int)),
            forall|j: int| end <= j < m ==> path@[j] != '/',
        decreases end,
    {
        proof {
            assert(path@.subrange(0, end as int).drop_last() =~= path@.subrange(
                0,
                end as int - 1,
            ));
        }
        end = end - 1;
    }
    proof {
        if end > 0 {
            assert(path@.subrange(0, end as int)[end - 1] == path@[end - 1]);
            assert(spec_after_last_slash(path@.subrange(0, end as int)) == end);
        } else {
            assert(path@.subrange(0, 0) =~= Seq::<char>::empty());
        }
        assert(spec_file_name(path@) =~= path@.subrange(end as int, m as int));
    }
    path.substring_char(end, m)
}

} // verus!
