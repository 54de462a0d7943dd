//! The work queue that the type walk uses: a `crossbeam_queue::SegQueue` of borrowed types.
use crate::model::TypeModel;
use crossbeam_queue::SegQueue;
use vstd::prelude::*;

verus! {

#[verifier::external_type_specification]
#[verifier::external_body]
#[verifier::reject_recursive_types(T)]
pub struct ExSegQueue<T>(SegQueue<T>);

/// The types held by a queue of borrowed types, from head to tail.
pub uninterp spec fn queued_types(queue: SegQueue<&TypeModel>) -> Seq<TypeModel>;

/// `SegQueue::new`: a new queue holds nothing.
#[verifier::external_body]
pub(crate) fn new_type_queue<'a>() -> (queue: SegQueue<&'a TypeModel>)
    ensures
        queued_types(queue) == Seq::<TypeModel>::empty(),
{
    SegQueue::new()
}

/// `SegQueue::push`: the type is added at the tail.
#[verifier::external_body]
pub(crate) fn push_type<'a>(queue: &mut SegQueue<&'a TypeModel>, ty: &'a TypeModel)
    ensures
        queued_types(*final(queue)) == queued_types(*old(queue)).push(*ty),
{
    queue.push(ty)
}

/// `SegQueue::pop`: the head is removed and returned, or `None` when the queue is empty.
#[verifier::external_body]
pub(crate) fn pop_type<'a>(queue: &mut SegQueue<&'a TypeModel>) -> (head: Option<&'a TypeModel>)
    ensures
        match head {
            None => queued_types(*old(queue)).len() == 0 && queued_types(*final(queue))
                == queued_types(*old(queue)),
            Some(ty) => queued_types(*old(queue)).len() > 0 && *ty == queued_types(
                *old(queue),
            )[0] && queued_types(*final(queue)) == queued_types(*old(queue)).drop_first(),
        },
{
    queue.pop()
}

} // verus!
