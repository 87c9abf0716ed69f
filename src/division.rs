use vstd::prelude::*;

verus! {

/// Joins the divisions of two neighbouring intervals, whose shared boundary
/// ends `left` and starts `right`: the boundary appears once, from `right`.
pub fn join_at_seam<T>(left: Vec<T>, right: Vec<T>) -> (r: Vec<T>)
    requires
        left@.len() > 0,
    ensures
        r@ == left@.drop_last() + right@,
        r@.len() == left@.len() + right@.len() - 1,
        right@.len() > 0 ==> r@.last() == right@.last(),
        left@.len() > 1 ==> r@[0] == left@[0],
{
    let mut left = left;
    let mut right = right;
    let _ = left.pop();
    let ghost l = left@;
    let ghost rr = right@;
    left.append(&mut right);
    assert(left@ =~= l + rr);
    left
}

} // verus!
