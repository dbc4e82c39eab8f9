use vstd::prelude::*;

use crate::position::point;

verus! {

/// The creature: a head and its trailing segments, oldest first.
#[derive(Debug, Default)]
pub struct Snake {
    head: point,
    tail: Vec<point>,
}

impl Snake {
    /// The head position.
    pub closed spec fn head_view(&self) -> point {
        self.head
    }

    /// The trailing segments, oldest (the tail tip) first.
    pub closed spec fn tail_view(&self) -> Seq<point> {
        self.tail@
    }

    /// Whether the head lies on one of the trailing segments.
    pub open spec fn self_colliding(&self) -> bool {
        self.tail_view().contains(self.head_view())
    }

    /// Whether moving by `direction` keeps the head representable.
    pub open spec fn can_move(&self, direction: point) -> bool {
        self.head_view().can_add(direction)
    }

    /// The body after one move: the oldest segment dropped and the
    /// previous head appended; unchanged when there are no segments.
    pub open spec fn slid_tail(tail: Seq<point>, old_head: point) -> Seq<point> {
        if tail.len() == 0 {
            tail
        } else {
            tail.drop_first().push(old_head)
        }
    }

    /// A snake at `head` whose body holds that position once.
    pub fn new(head: (i32, i32)) -> (r: Snake)
        ensures
            r.head_view() == point(head.0, head.1),
            r.tail_view() == seq![point(head.0, head.1)],
    {
        let mut tail: Vec<point> = Vec::new();
        tail.push(point(head.0, head.1));
        Snake { head: point(head.0, head.1), tail }
    }

    /// Number of trailing segments.
    pub fn get_tail_len(&self) -> (r: usize)
        ensures
            r == self.tail_view().len(),
    {
        self.tail.len()
    }

    /// The head position.
    pub fn get_head(&self) -> (r: point)
        ensures
            r == self.head_view(),
    {
        self.head
    }

    /// The trailing segments, oldest first.
    pub fn get_tail(&self) -> (r: &Vec<point>)
        ensures
            r@ == self.tail_view(),
    {
        &self.tail
    }

    /// Appends the current head position to the back of the body,
    /// lengthening it by one.
    pub fn grow_at_head(&mut self)
        ensures
            final(self).head_view() == old(self).head_view(),
            final(self).tail_view() == old(self).tail_view().push(old(self).head_view()),
    {
        self.tail.push(self.head);
    }

    /// Moves the head by `direction` and slides the body behind it.
    /// Returns `false` exactly when the new head lands on the body.
    pub fn move_snake(&mut self, direction: point) -> (r: bool)
        requires
            old(self).can_move(direction),
        ensures
            final(self).head_view().0 == old(self).head_view().0 + direction.0,
            final(self).head_view().1 == old(self).head_view().1 + direction.1,
            final(self).tail_view() == Self::slid_tail(old(self).tail_view(), old(self).head_view()),
            r == !final(self).self_colliding(),
            old(self).tail_view().len() == 0 ==> r,
    {
        let old_head = self.head;
        self.head.add_assign(direction);
        if self.tail.len() == 0 {
            return true;
        }
        self.tail.remove(0);
        self.tail.push(old_head);
        proof {
            assert(self.tail@ =~= old(self).tail@.drop_first().push(old_head));
        }
        !self.is_self_eating()
    }

    /// Whether the head lies on one of the trailing segments.
    pub fn is_self_eating(&self) -> (r: bool)
        ensures
            r == self.self_colliding(),
    {
        let mut i: usize = 0;
        while i < self.tail.len()
            invariant
                0 <= i <= self.tail@.len(),
                forall|j: int| 0 <= j < i ==> self.tail@[j] != self.head,
            decreases self.tail@.len() - i,
        {
            if self.tail[i] == self.head {
                return true;
            }
            i = i + 1;
        }
        false
    }
}

} // verus!
