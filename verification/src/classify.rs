//! Deciding, per walked entry, whether it is a candidate configuration file:
//! whether the entry's file name carries the target extension, case-sensitive
//! and without its leading dot.
use vstd::prelude::*;

verus! {

/// The dot byte.
pub const DOT: u8 = 46;

/// Index of the last dot in `name`, or `-1` if there is none.
pub open spec fn last_dot(name: Seq<u8>) -> int
    decreases name.len(),
{
    if name.len() == 0 {
        -1
    } else if name.last() == DOT {
        name.len() - 1
    } else {
        last_dot(name.drop_last())
    }
}

/// Whether a file named `name` has the extension `ext`: the part after the
/// last dot equals `ext`, and that dot is neither absent nor the leading
/// character (a name that starts with its only dot is a hidden file and has
/// no extension).
pub open spec fn has_extension(name: Seq<u8>, ext: Seq<u8>) -> bool {
    last_dot(name) > 0 && name.skip(last_dot(name) + 1) == ext
}

proof fn lemma_last_dot_spec(name: Seq<u8>)
    ensures
        last_dot(name) >= -1,
        last_dot(name) == -1 ==> forall|m: int| 0 <= m < name.len() ==> name[m] != DOT,
        last_dot(name) >= 0 ==> last_dot(name) < name.len() && name[last_dot(name)] == DOT
            && forall|m: int| last_dot(name) < m < name.len() ==> name[m] != DOT,
    decreases name.len(),
{
    if name.len() == 0 {
    } else if name.last() == DOT {
    } else {
        lemma_last_dot_spec(name.drop_last());
        assert forall|m: int| 0 <= m < name.len() - 1 implies name[m] == name.drop_last()[m] by {}
    }
}

/// Decides [`has_extension`]: whether the entry named `name` should be
/// treated as a candidate configuration file for the target extension `ext`.
pub fn matches_extension(name: &Vec<u8>, ext: &Vec<u8>) -> (r: bool)
    ensures
        r == has_extension(name@, ext@),
{
    proof {
        lemma_last_dot_spec(name@);
    }
    // find the last dot
    let mut i: usize = name.len();
    while i > 0 && name[i - 1] != DOT
        invariant
            i <= name@.len(),
            forall|m: int| i <= m < name@.len() ==> name@[m] != DOT,
        decreases i,
    {
        i = i - 1;
    }
    if i <= 1 {
        // no dot at all, or only a leading one
        proof {
            let ld = last_dot(name@);
            if i == 0 {
                if ld >= 0 {
                    assert(name@[ld] == DOT);
                    assert(name@[ld] != DOT);
                }
            } else {
                assert(name@[0] == DOT);
                if ld == -1 {
                    assert(name@[0] != DOT);
                }
                if ld >= 1 {
                    assert(name@[ld] == DOT);
                    assert(name@[ld] != DOT);
                }
                assert(ld == 0);
            }
        }
        return false;
    }
    proof {
        let ld = last_dot(name@);
        assert(name@[i - 1] == DOT);
        if ld == -1 {
            assert(name@[i - 1] != DOT);
        }
        if ld > i - 1 {
            assert(name@[ld] == DOT);
            assert(name@[ld] != DOT);
        }
        if 0 <= ld < i - 1 {
            assert(name@[i - 1] != DOT);
        }
        assert(ld == i - 1);
    }
    // compare the suffix after the dot with ext
    if name.len() - i != ext.len() {
        proof {
            assert(name@.skip(i as int).len() != ext@.len());
        }
        return false;
    }
    let mut k: usize = 0;
    while k < ext.len()
        invariant
            k <= ext@.len(),
            i + ext@.len() == name@.len(),
            1 <= i <= name@.len(),
            name@.len() <= usize::MAX,
            last_dot(name@) == i - 1,
            forall|m: int| 0 <= m < k ==> name@[i + m] == ext@[m],
        decreases ext@.len() - k,
    {
        if name[i + k] != ext[k] {
            proof {
                assert(name@.skip(i as int)[k as int] == name@[i + k]);
                assert(name@.skip(i as int)[k as int] != ext@[k as int]);
                assert(name@.skip(last_dot(name@) + 1) != ext@);
            }
            return false;
        }
        k = k + 1;
    }
    proof {
        assert(name@.skip(i as int) =~= ext@);
    }
    true
}

} // verus!
