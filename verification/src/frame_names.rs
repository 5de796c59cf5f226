//! Frame-name handling: leading slashes are stripped before a name is
//! compared or stored, and names compare by exact character equality.

use vstd::prelude::*;

verus! {

/// How many leading `'/'` characters `s` starts with.
pub open spec fn leading_slashes(s: Seq<char>) -> int
    decreases s.len(),
{
    if s.len() == 0 {
        0
    } else if s[0] == '/' {
        1 + leading_slashes(s.drop_first())
    } else {
        0
    }
}

/// `s` with every leading `'/'` removed.
pub open spec fn stripped(s: Seq<char>) -> Seq<char> {
    s.skip(leading_slashes(s))
}

/// True when `s` does not start with `'/'`; stripping such a name changes
/// nothing.
pub open spec fn is_stripped(s: Seq<char>) -> bool {
    s.len() == 0 || s[0] != '/'
}

/// The slash count never exceeds the length, everything before it is a
/// slash, and the character after it (if any) is not.
pub proof fn lemma_leading_slashes_boundary(s: Seq<char>)
    ensures
        0 <= leading_slashes(s) <= s.len(),
        forall|k: int| 0 <= k < leading_slashes(s) ==> s[k] == '/',
        leading_slashes(s) < s.len() ==> s[leading_slashes(s)] != '/',
    decreases s.len(),
{
    if s.len() > 0 && s[0] == '/' {
        lemma_leading_slashes_boundary(s.drop_first());
        let rest = s.drop_first();
        assert forall|k: int| 0 <= k < leading_slashes(s) implies s[k] == '/' by {
            if k > 0 {
                assert(rest[k - 1] == '/');
            }
        }
    }
}

/// A stripped name has no leading slash.
pub proof fn lemma_stripped_is_stripped(s: Seq<char>)
    ensures
        is_stripped(stripped(s)),
        stripped(s).len() == s.len() - leading_slashes(s),
        is_stripped(s) ==> stripped(s) == s,
{
    lemma_leading_slashes_boundary(s);
    if is_stripped(s) {
        assert(leading_slashes(s) == 0);
        assert(stripped(s) =~= s);
    }
}

/// Removes every leading `'/'` from `name`.
pub fn strip_leading_slashes(name: &str) -> (r: String)
    ensures
        r@ == stripped(name@),
{
    let n = name.unicode_len();
    let mut i: usize = 0;
    while i < n && name.get_char(i) == '/'
        invariant
            0 <= i <= n,
            n == name@.len(),
            forall|k: int| 0 <= k < i ==> name@[k] == '/',
        decreases n - i,
    {
        i += 1;
    }
    proof {
        lemma_leading_slashes_boundary(name@);
        // `i` sits exactly at the boundary the spec names.
        if leading_slashes(name@) < i {
            assert(name@[leading_slashes(name@)] == '/');
            assert(false);
        }
        if leading_slashes(name@) > i {
            assert(name@[i as int] == '/');
            assert(false);
        }
    }
    let tail = name.substring_char(i, n);
    proof {
        assert(tail@ =~= stripped(name@));
    }
    tail.to_owned()
}

/// Character-by-character equality of two names.
pub fn str_eq(a: &str, b: &str) -> (r: bool)
    ensures
        r == (a@ == b@),
{
    let an = a.unicode_len();
    let bn = b.unicode_len();
    if an != bn {
        proof {
            assert(a@.len() != b@.len());
        }
        return false;
    }
    let mut i: usize = 0;
    while i < an
        invariant
            0 <= i <= an,
            an == a@.len(),
            an == b@.len(),
            forall|k: int| 0 <= k < i ==> a@[k] == b@[k],
        decreases an - i,
    {
        if a.get_char(i) != b.get_char(i) {
            return false;
        }
        i += 1;
    }
    proof {
        assert(a@ =~= b@);
    }
    true
}

} // verus!
