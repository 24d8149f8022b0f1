//! The snake's body: a ring of cells with a moving head index.

use vstd::prelude::*;

use crate::pos::{Dir, Pos};

verus! {

/// The colour the snake is drawn in.
#[derive(Debug, Clone, Copy, PartialEq, Eq, Structural)]
pub enum Color {
    White,
    Blue,
    Green,
    Red,
}

/// The snake: its body cells, kept in a ring whose logical start is
/// `head_idx`, and its current heading. The cells from `head_idx` to the
/// end of `body`, then those before `head_idx`, run from head to tail.
#[derive(Debug)]
pub struct Snake {
    pub body: Vec<Pos>,
    pub head_idx: usize,
    pub dir: Dir,
    pub color: Color,
}

/// Whether the head of a body may move onto `p` without growing: `p` is no
/// cell of the body but the tail, which is about to be vacated.
pub open spec fn steppable(cells: Seq<Pos>, p: Pos) -> bool {
    !cells.drop_last().contains(p)
}

/// Growing onto `p` makes `p` the head and adds one cell; stepping onto `p`
/// makes `p` the head and keeps the length.
pub proof fn lemma_grow_and_step_move_head(cells: Seq<Pos>, p: Pos)
    requires
        cells.len() >= 1,
    ensures
        (seq![p] + cells)[0] == p,
        (seq![p] + cells).len() == cells.len() + 1,
        (seq![p] + cells.drop_last())[0] == p,
        (seq![p] + cells.drop_last()).len() == cells.len(),
{
}

/// A body of distinct cells may always move its head onto its own tail.
pub proof fn lemma_tail_steppable(cells: Seq<Pos>)
    requires
        cells.len() >= 1,
        cells.no_duplicates(),
    ensures
        steppable(cells, cells.last()),
{
    if cells.drop_last().contains(cells.last()) {
        let j = choose|j: int| 0 <= j < cells.len() - 1 && cells.drop_last()[j] == cells.last();
        assert(cells[j] == cells[cells.len() - 1]);
    }
}

impl View for Snake {
    type V = Seq<Pos>;

    /// The body cells, head first and tail last.
    open spec fn view(&self) -> Seq<Pos> {
        self.body@.subrange(self.head_idx as int, self.body@.len() as int) + self.body@.subrange(
            0,
            self.head_idx as int,
        )
    }
}

impl Snake {
    /// The ring holds at least one cell and the head index lies inside it.
    pub open spec fn wf(&self) -> bool {
        0 < self.body@.len() && self.head_idx < self.body@.len()
    }

    /// A one-cell snake at `head`, heading right. `size` is the number of
    /// cells to reserve room for.
    pub fn with_capacity(size: usize, head: Pos) -> (s: Snake)
        ensures
            s.wf(),
            s@ == seq![head],
            s.dir == Dir::Right,
            s.color == Color::Green,
    {
        let mut s = Snake { body: Vec::with_capacity(size), head_idx: 0, dir: Dir::Right, color: Color::Green };
        s.body.push(head);
        assert(s@ =~= seq![head]);
        s
    }

    /// The number of cells of the body.
    pub fn len(&self) -> (r: usize)
        requires
            self.wf(),
        ensures
            r == self@.len(),
    {
        self.body.len()
    }

    /// Where in the ring the `i`-th cell from the head is kept.
    fn slot(&self, i: usize) -> (r: usize)
        requires
            self.wf(),
            i < self@.len(),
        ensures
            r < self.body@.len(),
            self.body@[r as int] == self@[i as int],
    {
        let n = self.body.len();
        if i < n - self.head_idx {
            self.head_idx + i
        } else {
            i - (n - self.head_idx)
        }
    }

    /// Where in the ring the tail is kept.
    fn tail_idx(&self) -> (r: usize)
        requires
            self.wf(),
        ensures
            r < self.body@.len(),
            r == (if self.head_idx == 0 { self.body@.len() - 1 } else { self.head_idx - 1 }),
            r == (self.body@.len() + self.head_idx - 1) % (self.body@.len() as int),
            self.body@[r as int] == self@.last(),
    {
        let n = self.body.len();
        let r = if self.head_idx == 0 {
            n - 1
        } else {
            self.head_idx - 1
        };
        assert(r == (n + self.head_idx - 1) % (n as int)) by {
            if self.head_idx == 0 {
                vstd::arithmetic::div_mod::lemma_small_mod((n - 1) as nat, n as nat);
            } else {
                vstd::arithmetic::div_mod::lemma_mod_add_multiples_vanish(
                    self.head_idx - 1,
                    n as int,
                );
                vstd::arithmetic::div_mod::lemma_small_mod((self.head_idx - 1) as nat, n as nat);
            }
        }
        r
    }

    /// The head cell.
    pub fn head(&self) -> (r: Pos)
        requires
            self.wf(),
        ensures
            r == self@[0],
    {
        self.body[self.head_idx]
    }

    /// The tail cell.
    pub fn tail(&self) -> (r: Pos)
        requires
            self.wf(),
        ensures
            r == self@.last(),
    {
        let t = self.tail_idx();
        self.body[t]
    }

    /// Whether the head may move onto `pos` without growing.
    pub fn can_step(&self, pos: Pos) -> (r: bool)
        requires
            self.wf(),
        ensures
            r == steppable(self@, pos),
    {
        let n = self.body.len();
        let mut i: usize = 0;
        while i + 1 < n
            invariant
                self.wf(),
                n == self@.len(),
                i < n,
                forall|j: int| 0 <= j < i ==> self@[j] != pos,
            decreases n - i,
        {
            let k = self.slot(i);
            if self.body[k] == pos {
                assert(self@.drop_last()[i as int] == pos);
                return false;
            }
            i = i + 1;
        }
        assert(!self@.drop_last().contains(pos)) by {
            if self@.drop_last().contains(pos) {
                let j = choose|j: int| 0 <= j < self@.drop_last().len() && self@.drop_last()[j] == pos;
                assert(self@[j] == pos);
            }
        }
        true
    }

    /// Moves the head onto `pos` without growing: the tail cell is reused
    /// as the new head.
    pub fn step(&mut self, pos: Pos)
        requires
            old(self).wf(),
        ensures
            final(self).wf(),
            final(self)@ == seq![pos] + old(self)@.drop_last(),
            final(self).dir == old(self).dir,
            final(self).color == old(self).color,
    {
        let t = self.tail_idx();
        self.body.set(t, pos);
        self.head_idx = t;
        proof {
            let b = old(self).body@;
            let n = b.len() as int;
            let h = old(self).head_idx as int;
            if h == 0 {
                assert(old(self)@ =~= b);
                assert(self.body@.subrange(t as int, n) =~= seq![pos]);
                assert(self.body@.subrange(0, t as int) =~= b.subrange(0, n - 1));
            } else {
                assert(self.body@.subrange(t as int, n) =~= seq![pos] + b.subrange(h, n));
                assert(self.body@.subrange(0, t as int) =~= b.subrange(0, h - 1));
                assert(old(self)@.drop_last() =~= b.subrange(h, n) + b.subrange(0, h - 1));
            }
        }
        assert(self@ =~= seq![pos] + old(self)@.drop_last());
    }

    /// Moves the head onto `new_head` and grows by one cell.
    pub fn grow(&mut self, new_head: Pos)
        requires
            old(self).wf(),
        ensures
            final(self).wf(),
            final(self)@ == seq![new_head] + old(self)@,
            final(self).dir == old(self).dir,
            final(self).color == old(self).color,
    {
        self.body.insert(self.head_idx, new_head);
        assert(self@ =~= seq![new_head] + old(self)@);
    }

    /// Whether `pos` is a cell of the body.
    pub fn contains(&self, pos: Pos) -> (r: bool)
        requires
            self.wf(),
        ensures
            r == self@.contains(pos),
    {
        let n = self.body.len();
        let mut i: usize = 0;
        while i < n
            invariant
                self.wf(),
                n == self@.len(),
                i <= n,
                forall|j: int| 0 <= j < i ==> self@[j] != pos,
            decreases n - i,
        {
            let k = self.slot(i);
            if self.body[k] == pos {
                return true;
            }
            i = i + 1;
        }
        assert(!self@.contains(pos)) by {
            if self@.contains(pos) {
                let j = choose|j: int| 0 <= j < self@.len() && self@[j] == pos;
                assert(self@[j] == pos);
            }
        }
        false
    }

    /// A traversal of the body cells, head first.
    pub fn iter(&self) -> (r: SnakeIterator<'_>)
        requires
            self.wf(),
        ensures
            r.valid(),
            r.remaining() == self@,
    {
        let r = SnakeIterator { snake: self, index: 0 };
        assert(r.remaining() =~= self@);
        r
    }
}

/// A traversal of a snake's body cells from head to tail.
pub struct SnakeIterator<'a> {
    snake: &'a Snake,
    index: usize,
}

impl<'a> SnakeIterator<'a> {
    /// The snake is well formed and the traversal has not run past its tail.
    pub closed spec fn valid(&self) -> bool {
        self.snake.wf() && self.index <= self.snake@.len()
    }

    /// The cells not yet handed out, in order.
    pub closed spec fn remaining(&self) -> Seq<Pos> {
        self.snake@.subrange(self.index as int, self.snake@.len() as int)
    }

    /// Hands out the next cell, or `None` once the tail has been passed.
    pub fn next(&mut self) -> (r: Option<Pos>)
        requires
            old(self).valid(),
        ensures
            final(self).valid(),
            old(self).remaining().len() == 0 ==> r.is_none() && final(self).remaining() == old(
                self,
            ).remaining(),
            old(self).remaining().len() > 0 ==> r == Some(old(self).remaining()[0])
                && final(self).remaining() == old(self).remaining().drop_first(),
    {
        if self.index == self.snake.body.len() {
            return None;
        }
        let k = self.snake.slot(self.index);
        let p = self.snake.body[k];
        self.index = self.index + 1;
        assert(self.remaining() =~= old(self).remaining().drop_first());
        Some(p)
    }
}

} // verus!
