//! Keeping the numbers of a list that are above zero, once through shared
//! references and once by value.

use vstd::prelude::*;

verus! {

/// The references of `lst` to a number above zero, in order.
pub open spec fn positive_refs(lst: Seq<&u8>) -> Seq<&u8> {
    lst.filter(|num: &u8| *num > 0)
}

/// The numbers of `lst` above zero, in order.
pub open spec fn positive(lst: Seq<u8>) -> Seq<u8> {
    lst.filter(|num: u8| num > 0)
}

/// Keeps the references that point to a number above zero, in their order.
/// The numbers themselves stay where they are: what comes back borrows from
/// where `lst` borrowed.
pub fn capture_by_borrow1<'a>(lst: Vec<&'a u8>) -> (new_lst: Vec<&'a u8>)
    ensures
        new_lst@ == positive_refs(lst@),
{
    let mut new_lst: Vec<&'a u8> = Vec::new();
    let mut i: usize = 0;
    while i < lst.len()
        invariant
            i <= lst@.len(),
            new_lst@ == positive_refs(lst@.take(i as int)),
        decreases lst@.len() - i,
    {
        let num: &'a u8 = lst[i];
        proof {
            assert(lst@.take(i + 1) =~= lst@.take(i as int).push(num));
            lst@.take(i as int).lemma_filter_push(num, |num: &u8| *num > 0);
        }
        if *num > 0 {
            new_lst.push(num);
        }
        i += 1;
    }
    assert(lst@.take(i as int) =~= lst@);
    new_lst
}

/// Keeps the numbers above zero, in their order, as copies.
pub fn capture_by_borrow2(lst: Vec<u8>) -> (new_lst: Vec<u8>)
    ensures
        new_lst@ == positive(lst@),
{
    let mut new_lst: Vec<u8> = Vec::new();
    let mut i: usize = 0;
    while i < lst.len()
        invariant
            i <= lst@.len(),
            new_lst@ == positive(lst@.take(i as int)),
        decreases lst@.len() - i,
    {
        let num: u8 = lst[i];
        proof {
            assert(lst@.take(i + 1) =~= lst@.take(i as int).push(num));
            lst@.take(i as int).lemma_filter_push(num, |num: u8| num > 0);
        }
        if num > 0u8 {
            new_lst.push(num);
        }
        i += 1;
    }
    assert(lst@.take(i as int) =~= lst@);
    new_lst
}

} // verus!
