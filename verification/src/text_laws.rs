//! Laws of the comparison of texts.

use crate::text::{is_less, same_text, text_less};
use vstd::prelude::*;

verus! {

proof fn lemma_first_difference(a: Seq<char>, b: Seq<char>, k: int)
    requires
        0 <= k <= a.len(),
        k <= b.len(),
        forall|i: int| 0 <= i < k ==> a[i] == b[i],
    ensures
        k == b.len() ==> !text_less(a, b),
        k == a.len() && k < b.len() ==> text_less(a, b),
        k < a.len() && k < b.len() && a[k] != b[k] ==> text_less(a, b) == (a[k] < b[k]),
    decreases k,
{
    if k > 0 {
        assert(a[0] == b[0]);
        let (x, y) = (a.drop_first(), b.drop_first());
        assert forall|i: int| 0 <= i < k - 1 implies x[i] == y[i] by {
            assert(a[i + 1] == b[i + 1]);
        }
        lemma_first_difference(x, y, k - 1);
    }
}

/// The first difference decides the order of two texts: the lesser character comes first, and a
/// text comes before every longer one that begins with it.
pub proof fn the_first_difference_decides(a: &str, b: &str, less: bool, k: int)
    requires
        call_ensures(is_less, (a, b), less),
        0 <= k <= a@.len(),
        k <= b@.len(),
        forall|i: int| 0 <= i < k ==> a@[i] == b@[i],
    ensures
        k == b@.len() ==> !less,
        k == a@.len() && k < b@.len() ==> less,
        k < a@.len() && k < b@.len() && a@[k] != b@[k] ==> less == (a@[k] < b@[k]),
{
    lemma_first_difference(a@, b@, k);
}

/// Two texts are the same exactly where they are as long as one another and have the same
/// character at each place.
pub proof fn texts_are_the_same_character_by_character(a: &str, b: &str, same: bool)
    requires
        call_ensures(same_text, (a, b), same),
    ensures
        same <==> a@.len() == b@.len() && forall|i: int| 0 <= i < a@.len() ==> a@[i] == b@[i],
{
    if a@.len() == b@.len() && forall|i: int| 0 <= i < a@.len() ==> a@[i] == b@[i] {
        assert(a@ =~= b@);
    }
}

} // verus!
