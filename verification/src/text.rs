//! Small verified helpers on strings: character-wise equality and the
//! parent directory of a canonical path.
use vstd::prelude::*;
use vstd::string::StrSliceExecFns;

verus! {

/// True exactly when the two strings hold the same characters.
pub fn str_eq(a: &str, b: &str) -> (r: bool)
    ensures
        r == (a@ == b@),
{
    let alen = a.unicode_len();
    let blen = b.unicode_len();
    if alen != blen {
        return false;
    }
    let mut i: usize = 0;
    while i < alen
        invariant
            alen == a@.len(),
            alen == b@.len(),
            0 <= i <= alen,
            forall|j: int| 0 <= j < i ==> a@[j] == b@[j],
        decreases alen - i,
    {
        if a.get_char(i) != b.get_char(i) {
            return false;
        }
        i += 1;
    }
    proof {
        assert(a@ =~= b@);
    }
    true
}

/// The index of the last `/` in `s`, or `-1` if there is none.
pub open spec fn last_slash_index(s: Seq<char>) -> int
    decreases s.len(),
{
    if s.len() == 0 {
        -1
    } else if s.last() == '/' {
        s.len() - 1
    } else {
        last_slash_index(s.drop_last())
    }
}

/// The parent directory of a path, as a character sequence: everything up
/// to the last `/`, with a file directly under the root keeping `/` as its
/// parent and a path without any `/` keeping itself.
pub open spec fn parent_dir_spec(s: Seq<char>) -> Seq<char> {
    let i = last_slash_index(s);
    if i < 0 {
        s
    } else if i == 0 {
        seq!['/']
    } else {
        s.take(i)
    }
}

proof fn lemma_last_slash_index_bounds(s: Seq<char>)
    ensures
        -1 <= last_slash_index(s) < s.len(),
        last_slash_index(s) >= 0 ==> s[last_slash_index(s)] == '/',
        forall|j: int| last_slash_index(s) < j < s.len() ==> s[j] != '/',
    decreases s.len(),
{
    if s.len() > 0 && s.last() != '/' {
        lemma_last_slash_index_bounds(s.drop_last());
        assert(forall|j: int| 0 <= j < s.len() - 1 ==> s[j] == s.drop_last()[j]);
    }
}

/// The parent directory of a canonical path.
pub fn parent_dir(path: &str) -> (r: String)
    ensures
        r@ == parent_dir_spec(path@),
{
    proof {
        lemma_last_slash_index_bounds(path@);
    }
    let n = path.unicode_len();
    let mut i: usize = n;
    while i > 0
        invariant
            n == path@.len(),
            0 <= i <= n,
            forall|j: int| i <= j < n ==> path@[j] != '/',
        decreases i,
    {
        i -= 1;
        if path.get_char(i) == '/' {
            proof {
                lemma_last_slash_index_bounds(path@);
                assert(last_slash_index(path@) == i);
            }
            if i == 0 {
                let r = "/".to_owned();
                proof {
                    reveal_strlit("/");
                    assert(r@ =~= parent_dir_spec(path@));
                }
                return r;
            }
            let r = path.substring_char(0, i).to_owned();
            return r;
        }
    }
    proof {
        lemma_last_slash_index_bounds(path@);
        assert(last_slash_index(path@) == -1);
    }
    path.to_owned()
}

} // verus!
