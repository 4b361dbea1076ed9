//! The priority queue of the path search, from the `priority_queue` crate.
use priority_queue::PriorityQueue;
use vstd::prelude::*;

verus! {

#[verifier::external_type_specification]
#[verifier::external_body]
#[verifier::reject_recursive_types(I)]
#[verifier::reject_recursive_types(P)]
#[verifier::reject_recursive_types(H)]
pub struct ExPriorityQueue<I, P, H>(PriorityQueue<I, P, H>);

/// An item of the search frontier: the cube coordinates `(q, r, s)` of a hexagon.
pub type FrontierItem = (i32, i32, i32);

/// The search frontier: hexagons with their priority, a greater priority first.
pub type Frontier = PriorityQueue<FrontierItem, i128>;

/// The items of a frontier with their priorities.
pub uninterp spec fn frontier_contents(queue: Frontier) -> Map<FrontierItem, i128>;

/// `PriorityQueue::new`: the queue it makes holds nothing.
#[verifier::external_body]
pub(crate) fn frontier_new() -> (queue: Frontier)
    ensures
        frontier_contents(queue).dom().is_empty(),
{
    PriorityQueue::new()
}

/// `PriorityQueue::push`: afterwards `item` has `priority`; the previous
/// priority of `item` is returned when it was in the queue.
#[verifier::external_body]
pub(crate) fn frontier_push(queue: &mut Frontier, item: FrontierItem, priority: i128) -> (previous:
    Option<i128>)
    ensures
        frontier_contents(*final(queue)) == frontier_contents(*old(queue)).insert(item, priority),
        previous == (if frontier_contents(*old(queue)).contains_key(item) {
            Some(frontier_contents(*old(queue))[item])
        } else {
            None::<i128>
        }),
{
    queue.push(item, priority)
}

/// `PriorityQueue::pop`: removes and returns an item of greatest priority, or
/// `None` when the queue is empty. Which of several items of equal priority
/// comes out is left unsaid.
#[verifier::external_body]
pub(crate) fn frontier_pop(queue: &mut Frontier) -> (popped: Option<(FrontierItem, i128)>)
    ensures
        match popped {
            None => {
                &&& frontier_contents(*old(queue)).dom().is_empty()
                &&& frontier_contents(*final(queue)) == frontier_contents(*old(queue))
            },
            Some((item, priority)) => {
                &&& frontier_contents(*old(queue)).contains_key(item)
                &&& frontier_contents(*old(queue))[item] == priority
                &&& forall|other: FrontierItem| #[trigger]
                    frontier_contents(*old(queue)).contains_key(other)
                        ==> frontier_contents(*old(queue))[other] <= priority
                &&& frontier_contents(*final(queue)) == frontier_contents(*old(queue)).remove(item)
            },
        },
{
    queue.pop()
}

/// `PriorityQueue::is_empty`: whether the queue holds no item.
#[verifier::external_body]
pub(crate) fn frontier_is_empty(queue: &Frontier) -> (empty: bool)
    ensures
        empty == frontier_contents(*queue).dom().is_empty(),
{
    queue.is_empty()
}

} // verus!
