//! Detection of repeated values in a list of integers.
use std::collections::HashMap;
use std::collections::HashSet;
use vstd::prelude::*;

verus! {

broadcast use vstd::std_specs::hash::group_hash_axioms;

/// Some value occurs at two different positions of `s`.
pub open spec fn has_duplicate(s: Seq<i32>) -> bool {
    exists|i: int, j: int| 0 <= i < j < s.len() && s[i] == s[j]
}

/// Whether some value occurs twice in `nums`, remembering the values seen
/// so far as the keys of a map.
pub fn contains_duplicate(nums: Vec<i32>) -> (r: bool)
    ensures
        r == has_duplicate(nums@),
{
    let mut map: HashMap<i32, bool> = HashMap::new();
    let mut k: usize = 0;
    while k < nums.len()
        invariant
            k <= nums.len(),
            forall|v: i32| map@.contains_key(v) <==> nums@.subrange(0, k as int).contains(v),
            !has_duplicate(nums@.subrange(0, k as int)),
        decreases nums.len() - k,
    {
        let num = nums[k];
        if map.contains_key(&num) {
            proof {
                let i = choose|i: int| 0 <= i < k && nums@.subrange(0, k as int)[i] == num;
                assert(nums@[i] == nums@[k as int]);
            }
            return true;
        }
        map.insert(num, true);
        proof {
            let s = nums@.subrange(0, k + 1);
            assert(s.drop_last() == nums@.subrange(0, k as int));
            assert forall|v: i32| map@.contains_key(v) <==> s.contains(v) by {
                if v == num {
                    assert(s[k as int] == v);
                } else if s.contains(v) {
                    let i = choose|i: int| 0 <= i < s.len() && s[i] == v;
                    assert(nums@.subrange(0, k as int)[i] == v);
                }
            }
            assert forall|i: int, j: int| 0 <= i < j < s.len() implies s[i] != s[j] by {
                if j == k {
                    assert(nums@.subrange(0, k as int)[i] == s[i]);
                } else {
                    assert(nums@.subrange(0, k as int)[i] == s[i]);
                    assert(nums@.subrange(0, k as int)[j] == s[j]);
                }
            }
        }
        k = k + 1;
    }
    assert(nums@.subrange(0, k as int) == nums@);
    false
}

/// Whether some value occurs twice in `nums`, remembering the values seen
/// so far in a set.
pub fn contains_duplicate_1(nums: Vec<i32>) -> (r: bool)
    ensures
        r == has_duplicate(nums@),
{
    let mut set: HashSet<i32> = HashSet::new();
    let mut k: usize = 0;
    while k < nums.len()
        invariant
            k <= nums.len(),
            forall|v: i32| set@.contains(v) <==> nums@.subrange(0, k as int).contains(v),
            !has_duplicate(nums@.subrange(0, k as int)),
        decreases nums.len() - k,
    {
        let num = nums[k];
        if set.contains(&num) {
            proof {
                let i = choose|i: int| 0 <= i < k && nums@.subrange(0, k as int)[i] == num;
                assert(nums@[i] == nums@[k as int]);
            }
            return true;
        }
        set.insert(num);
        proof {
            let s = nums@.subrange(0, k + 1);
            assert forall|v: i32| set@.contains(v) <==> s.contains(v) by {
                if v == num {
                    assert(s[k as int] == v);
                } else if s.contains(v) {
                    let i = choose|i: int| 0 <= i < s.len() && s[i] == v;
                    assert(nums@.subrange(0, k as int)[i] == v);
                } else if nums@.subrange(0, k as int).contains(v) {
                    let i = choose|i: int| 0 <= i < k && nums@.subrange(0, k as int)[i] == v;
                    assert(s[i] == v);
                }
            }
            assert forall|i: int, j: int| 0 <= i < j < s.len() implies s[i] != s[j] by {
                if j == k {
                    assert(nums@.subrange(0, k as int)[i] == s[i]);
                } else {
                    assert(nums@.subrange(0, k as int)[i] == s[i]);
                    assert(nums@.subrange(0, k as int)[j] == s[j]);
                }
            }
        }
        k = k + 1;
    }
    assert(nums@.subrange(0, k as int) == nums@);
    false
}

} // verus!
