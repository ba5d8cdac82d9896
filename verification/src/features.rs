use vstd::prelude::*;

verus! {

/// Whether `merchant_id` is one of the customer's known merchants (the same text).
pub fn is_known_merchant(known_merchants: &Vec<String>, merchant_id: &String) -> (r: bool)
    ensures
        r == exists|i: int|
            0 <= i < known_merchants@.len() && #[trigger] known_merchants@[i]@ == merchant_id@,
{
    let mut i: usize = 0;
    while i < known_merchants.len()
        invariant
            i <= known_merchants@.len(),
            forall|j: int| 0 <= j < i ==> #[trigger] known_merchants@[j]@ != merchant_id@,
        decreases known_merchants@.len() - i,
    {
        if known_merchants[i] == *merchant_id {
            return true;
        }
        i += 1;
    }
    false
}

} // verus!
