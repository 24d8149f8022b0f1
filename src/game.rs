//! The game: board, snake and food, and the per-tick transition.

use vstd::prelude::*;

use crate::pos::{in_board, opposite, unit, valid_board, Board, Dir, Pos};
use crate::random::random_in;
use crate::snake::{steppable, Snake};

verus! {

/// What the player asks for on one tick.
#[derive(Debug, Clone, Copy, PartialEq, Eq, Structural)]
pub enum Command {
    Move(Dir),
    Nop,
    Exit,
}

/// The cell the snake is after.
#[derive(Debug, Clone, Copy, PartialEq, Eq, Structural)]
pub struct Food {
    pub pos: Pos,
}

/// A running game.
pub struct Game {
    pub board: Board,
    pub snake: Snake,
    pub food: Food,
    pub periodic_world: bool,
}

/// What changed on one tick: the cell the head left (now a body cell), the
/// cell the tail left (now empty; `None` when the snake grew), and whether
/// the food moved.
#[derive(Debug, Clone, Copy, PartialEq, Eq)]
pub struct GameUpdate {
    pub head_prev_pos: Option<Pos>,
    pub tail_prev_pos: Option<Pos>,
    pub food_renew: bool,
}

/// A coordinate one step past either end of `0..dim`, brought back onto
/// the other end.
pub open spec fn wrap(c: int, dim: int) -> int {
    if c < 0 {
        c + dim
    } else if c >= dim {
        c - dim
    } else {
        c
    }
}

/// Every cell of `cells` lies on the board.
pub open spec fn all_in_board(cells: Seq<Pos>, board: Board) -> bool {
    forall|i: int| 0 <= i < cells.len() ==> in_board(#[trigger] cells[i], board)
}

/// Every cell of the board is taken by `cells`.
pub open spec fn board_full(cells: Seq<Pos>, board: Board) -> bool {
    forall|p: Pos| in_board(p, board) ==> cells.contains(p)
}

/// The length of the snake a game starts with: the length asked for, at
/// least one cell and at most two cells less than the board's width.
pub open spec fn initial_len(board: Board, snake_len: u16) -> int {
    if snake_len <= 1 {
        1
    } else if snake_len > board.x - 2 {
        board.x - 2
    } else {
        snake_len as int
    }
}

/// A horizontal body of `n` cells with its tail at `start` and its head
/// `n - 1` cells to the right of it.
pub open spec fn initial_body(start: Pos, n: int) -> Seq<Pos> {
    Seq::new(n as nat, |i: int| Pos { x: (start.x + n - 1 - i) as i16, y: start.y })
}

/// Where the tail of the starting snake may be put: a row of the board, and
/// a column that leaves the whole body, and room before it, on the board.
pub open spec fn valid_start(board: Board, snake_len: u16, start: Pos) -> bool {
    let len = if snake_len > board.x - 2 { board.x - 2 } else { snake_len as int };
    0 <= start.x < (board.x - len) / 2 && 0 <= start.y < board.y
}

/// The snake a game starts with: `initial_len(board, snake_len)` cells in a
/// row from `start` rightwards, heading right, away from its body.
pub fn initial_snake(board: Board, snake_len: u16, start: Pos) -> (s: Snake)
    requires
        valid_board(board),
        snake_len < i16::MAX,
        valid_start(board, snake_len, start),
    ensures
        s.wf(),
        s@ == initial_body(start, initial_len(board, snake_len)),
        s.dir == Dir::Right,
        s.color == crate::snake::Color::Green,
{
    let len: i16 = if snake_len as i16 > board.x - 2 {
        board.x - 2
    } else {
        snake_len as i16
    };
    let width = board.x as usize;
    let height = board.y as usize;
    assert(width * height <= 32767 * 32767) by (nonlinear_arith)
        requires
            width <= 32767,
            height <= 32767,
    ;
    let capacity: usize = 2usize * (width * height);
    let mut snake = Snake::with_capacity(capacity, start);
    assert(snake@ =~= initial_body(start, 1));
    let mut l: i16 = 1;
    while l < len
        invariant
            valid_board(board),
            1 <= l <= (if len < 1 { 1 } else { len }),
            len < board.x,
            valid_start(board, snake_len, start),
            len == (if snake_len > board.x - 2 { board.x - 2 } else { snake_len as int }),
            snake.wf(),
            snake@ == initial_body(start, l as int),
            snake.dir == Dir::Right,
            snake.color == crate::snake::Color::Green,
        decreases len - l,
    {
        snake.grow(Pos { x: start.x + l, y: start.y });
        assert(snake@ =~= initial_body(start, l + 1));
        l = l + 1;
    }
    assert(l as int == initial_len(board, snake_len)) by {
        if snake_len <= 1 {
            assert(len <= 1);
        } else {
            assert(len >= 2);
        }
    }
    snake
}

impl Game {
    /// Starts a game on a board of size `board`: a snake of
    /// `initial_len(board, snake_len)` cells in a random row, heading right
    /// from a random column in the left part of the board, and food on a
    /// random free cell.
    pub fn new(board: Board, snake_len: u16, periodic_world: bool) -> (g: Game)
        requires
            valid_board(board),
            snake_len < i16::MAX,
        ensures
            g.wf(),
            g.board == board,
            g.periodic_world == periodic_world,
            g.snake.dir == Dir::Right,
            exists|start: Pos|
                valid_start(board, snake_len, start) && g.snake@ == initial_body(
                    start,
                    initial_len(board, snake_len),
                ),
    {
        let len: i16 = if snake_len as i16 > board.x - 2 {
            board.x - 2
        } else {
            snake_len as i16
        };
        let start = Pos { x: random_in(0, (board.x - len) / 2), y: random_in(0, board.y) };
        let snake = initial_snake(board, snake_len, start);
        let mut game = Game { board, snake, food: Food { pos: Pos { x: 0, y: 0 } }, periodic_world };
        proof {
            let free = Pos { x: 0, y: if start.y == 0 { 1 } else { 0 } };
            assert(in_board(free, board));
            assert(!game.snake@.contains(free));
        }
        game.generate_food();
        proof {
            let body = game.snake@;
            assert(body.no_duplicates());
            assert(all_in_board(body, board));
            assert(valid_start(board, snake_len, start) && body == initial_body(
                start,
                initial_len(board, snake_len),
            ));
        }
        game
    }

    /// The board is large enough, the snake is a well-formed body of distinct
    /// cells on the board, and the food lies on the board off the snake.
    pub open spec fn wf(&self) -> bool {
        &&& valid_board(self.board)
        &&& self.snake.wf()
        &&& self.snake@.no_duplicates()
        &&& all_in_board(self.snake@, self.board)
        &&& in_board(self.food.pos, self.board)
        &&& !self.snake@.contains(self.food.pos)
    }

    /// The heading the snake takes when asked for `d`: a reversal is
    /// refused and the current heading kept.
    pub open spec fn normalized(&self, d: Dir) -> Dir {
        if opposite(d, self.snake.dir) {
            self.snake.dir
        } else {
            d
        }
    }

    /// The heading the snake takes on a command.
    pub open spec fn heading_after(&self, cmd: Command) -> Dir {
        match cmd {
            Command::Move(d) => self.normalized(d),
            _ => self.snake.dir,
        }
    }

    /// The cell the head moves onto with heading `d`: wrapped around on a
    /// periodic board, `None` when it would leave a bounded one.
    pub open spec fn target(&self, d: Dir) -> Option<Pos> {
        let nx = self.snake@[0].x + unit(d).x;
        let ny = self.snake@[0].y + unit(d).y;
        if self.periodic_world {
            Some(Pos { x: wrap(nx, self.board.x as int) as i16, y: wrap(ny, self.board.y as int) as i16 })
        } else if 0 <= nx < self.board.x && 0 <= ny < self.board.y {
            Some(Pos { x: nx as i16, y: ny as i16 })
        } else {
            None
        }
    }

    /// The cell the head moves onto lies on the board.
    pub proof fn lemma_target_in_board(&self, d: Dir)
        requires
            self.wf(),
        ensures
            self.target(d) is Some ==> in_board(self.target(d)->0, self.board),
    {
        assert(in_board(self.snake@[0], self.board));
    }

    /// Places the food on a cell that the snake does not take; the food stays
    /// where it is when the snake takes every cell. Up to `FOOD_DRAWS` cells
    /// are drawn uniformly from the board and the first free one is taken; if
    /// all of them are taken, the board is searched row by row from the top
    /// left and the first free cell found is taken, so on a nearly full board
    /// the food is not uniformly placed.
    pub fn generate_food(&mut self)
        requires
            valid_board(old(self).board),
            old(self).snake.wf(),
        ensures
            final(self).board == old(self).board,
            final(self).snake == old(self).snake,
            final(self).periodic_world == old(self).periodic_world,
            !board_full(old(self).snake@, old(self).board) ==> in_board(final(self).food.pos, old(self).board)
                && !old(self).snake@.contains(final(self).food.pos),
            board_full(old(self).snake@, old(self).board) ==> final(self).food == old(self).food,
    {
        let mut draws: u32 = 0;
        while draws < FOOD_DRAWS
            invariant
                valid_board(self.board),
                self.snake.wf(),
                self.board == old(self).board,
                self.snake == old(self).snake,
                self.periodic_world == old(self).periodic_world,
                self.food == old(self).food,
            decreases FOOD_DRAWS - draws,
        {
            let pos = Pos { x: random_in(0, self.board.x), y: random_in(0, self.board.y) };
            if !self.snake.contains(pos) {
                self.food = Food { pos };
                return;
            }
            draws = draws + 1;
        }
        let mut y: i16 = 0;
        while y < self.board.y
            invariant
                valid_board(self.board),
                self.snake.wf(),
                self.board == old(self).board,
                self.snake == old(self).snake,
                self.periodic_world == old(self).periodic_world,
                self.food == old(self).food,
                0 <= y <= self.board.y,
                forall|p: Pos| in_board(p, self.board) && p.y < y ==> self.snake@.contains(p),
            decreases self.board.y - y,
        {
            let mut x: i16 = 0;
            while x < self.board.x
                invariant
                    valid_board(self.board),
                    self.snake.wf(),
                    self.board == old(self).board,
                    self.snake == old(self).snake,
                    self.periodic_world == old(self).periodic_world,
                    self.food == old(self).food,
                    0 <= y < self.board.y,
                    0 <= x <= self.board.x,
                    forall|p: Pos| in_board(p, self.board) && p.y < y ==> self.snake@.contains(p),
                    forall|p: Pos| in_board(p, self.board) && p.y == y && p.x < x ==> self.snake@.contains(p),
                decreases self.board.x - x,
            {
                let pos = Pos { x, y };
                if !self.snake.contains(pos) {
                    self.food = Food { pos };
                    return;
                }
                x = x + 1;
            }
            y = y + 1;
        }
    }

    /// Carries out one tick. `Exit` ends the game and changes nothing. A move
    /// (or `Nop`, which keeps the heading) turns the snake unless that would
    /// reverse it, then moves its head one cell: onto the food, where the
    /// snake grows and new food is placed; or onto a free cell or the cell the
    /// tail leaves. Leaving a bounded board, running into the body, or eating
    /// food when no other cell would be left for new food ends the game:
    /// `None`, with the body and the food as they were.
    pub fn exec(&mut self, cmd: Command) -> (r: Option<GameUpdate>)
        requires
            old(self).wf(),
        ensures
            final(self).board == old(self).board,
            final(self).periodic_world == old(self).periodic_world,
            final(self).snake.color == old(self).snake.color,
            cmd == Command::Exit ==> r is None && final(self).snake@ == old(self).snake@
                && final(self).snake.dir == old(self).snake.dir && final(self).food == old(self).food,
            cmd != Command::Exit ==> final(self).snake.dir == old(self).heading_after(cmd)
                && old(self).tick(cmd, *final(self), r),
            r is Some ==> final(self).wf(),
    {
        match cmd {
            Command::Move(dir) => self.step(dir),
            Command::Nop => {
                let dir = self.snake.dir;
                self.step(dir)
            },
            Command::Exit => None,
        }
    }

    /// How the snake, the food and the result of a tick that moves with
    /// heading `heading_after(cmd)` follow from the game before it.
    pub open spec fn tick(&self, cmd: Command, next: Game, r: Option<GameUpdate>) -> bool {
        let d = self.heading_after(cmd);
        let head = self.snake@[0];
        let tail = self.snake@.last();
        match self.target(d) {
            None => r is None && next.snake@ == self.snake@ && next.food == self.food,
            Some(p) => if p == self.food.pos {
                if board_full(seq![p] + self.snake@, self.board) {
                    r is None && next.snake@ == self.snake@ && next.food == self.food
                } else {
                    &&& next.snake@ == seq![p] + self.snake@
                    &&& r == Some(
                        GameUpdate { head_prev_pos: Some(head), tail_prev_pos: None, food_renew: true },
                    )
                }
            } else if !steppable(self.snake@, p) {
                r is None && next.snake@ == self.snake@ && next.food == self.food
            } else {
                &&& next.snake@ == seq![p] + self.snake@.drop_last()
                &&& next.food == self.food
                &&& r == Some(
                    GameUpdate {
                        head_prev_pos: Some(head),
                        tail_prev_pos: Some(tail),
                        food_renew: false,
                    },
                )
            },
        }
    }

    /// Whether some cell of the board is neither `p` nor taken by the snake:
    /// whether food can still be placed once the snake has grown onto `p`.
    fn has_free_cell_besides(&self, p: Pos) -> (r: bool)
        requires
            valid_board(self.board),
            self.snake.wf(),
        ensures
            r == !board_full(seq![p] + self.snake@, self.board),
    {
        let ghost grown = seq![p] + self.snake@;
        let mut y: i16 = 0;
        while y < self.board.y
            invariant
                valid_board(self.board),
                self.snake.wf(),
                grown == seq![p] + self.snake@,
                0 <= y <= self.board.y,
                forall|q: Pos| in_board(q, self.board) && q.y < y ==> grown.contains(q),
            decreases self.board.y - y,
        {
            let mut x: i16 = 0;
            while x < self.board.x
                invariant
                    valid_board(self.board),
                    self.snake.wf(),
                    grown == seq![p] + self.snake@,
                    0 <= y < self.board.y,
                    0 <= x <= self.board.x,
                    forall|q: Pos| in_board(q, self.board) && q.y < y ==> grown.contains(q),
                    forall|q: Pos| in_board(q, self.board) && q.y == y && q.x < x ==> grown.contains(q),
                decreases self.board.x - x,
            {
                let q = Pos { x, y };
                if q != p && !self.snake.contains(q) {
                    proof {
                        if grown.contains(q) {
                            let j = choose|j: int| 0 <= j < grown.len() && grown[j] == q;
                            assert(j > 0);
                            assert(self.snake@[j - 1] == q);
                        }
                    }
                    return true;
                }
                proof {
                    if q == p {
                        assert(grown[0] == q);
                    } else {
                        let j = choose|j: int| 0 <= j < self.snake@.len() && self.snake@[j] == q;
                        assert(grown[j + 1] == q);
                    }
                }
                x = x + 1;
            }
            y = y + 1;
        }
        false
    }

    /// The heading asked for, or the current one where that would reverse
    /// the snake.
    fn normalize_dir(&self, dir: Dir) -> (r: Dir)
        ensures
            r == self.normalized(dir),
    {
        let snake_dir_vec = self.snake.dir.into_pos();
        let vec = dir.into_pos();
        if vec.x + snake_dir_vec.x == 0 && vec.y + snake_dir_vec.y == 0 {
            self.snake.dir
        } else {
            dir
        }
    }

    /// One tick that moves with heading `dir`, turned by `normalize_dir`.
    fn step(&mut self, dir: Dir) -> (r: Option<GameUpdate>)
        requires
            old(self).wf(),
        ensures
            final(self).board == old(self).board,
            final(self).periodic_world == old(self).periodic_world,
            final(self).snake.color == old(self).snake.color,
            final(self).snake.dir == old(self).normalized(dir),
            old(self).tick(Command::Move(dir), *final(self), r),
            r is Some ==> final(self).wf(),
    {
        let dir = self.normalize_dir(dir);
        self.snake.dir = dir;
        let ghost d = dir;
        let head_cur_pos = self.snake.head();
        proof {
            assert(in_board(self.snake@[0], self.board));
        }
        let v = dir.into_pos();
        let mut nx: i16 = head_cur_pos.x + v.x;
        let mut ny: i16 = head_cur_pos.y + v.y;
        let periodic = self.periodic_world;
        if nx < 0 {
            if periodic {
                nx = nx + self.board.x;
            } else {
                return None;
            }
        }
        if ny < 0 {
            if periodic {
                ny = ny + self.board.y;
            } else {
                return None;
            }
        }
        if nx >= self.board.x {
            if periodic {
                nx = nx - self.board.x;
            } else {
                return None;
            }
        }
        if ny >= self.board.y {
            if periodic {
                ny = ny - self.board.y;
            } else {
                return None;
            }
        }
        let head_new_pos = Pos { x: nx, y: ny };
        assert(old(self).target(d) == Some(head_new_pos));
        proof {
            old(self).lemma_target_in_board(d);
        }
        if head_new_pos == self.food.pos {
            if !self.has_free_cell_besides(head_new_pos) {
                return None;
            }
            self.snake.grow(head_new_pos);
            self.generate_food();
            proof {
                assert(self.snake@ == seq![head_new_pos] + old(self).snake@);
                assert(self.snake@.no_duplicates());
                assert(all_in_board(self.snake@, self.board));
            }
            return Some(
                GameUpdate { head_prev_pos: Some(head_cur_pos), tail_prev_pos: None, food_renew: true },
            );
        }
        if !self.snake.can_step(head_new_pos) {
            return None;
        }
        let tail_cur_pos = self.snake.tail();
        self.snake.step(head_new_pos);
        proof {
            assert(self.snake@.no_duplicates());
            assert(all_in_board(self.snake@, self.board));
        }
        Some(
            GameUpdate {
                head_prev_pos: Some(head_cur_pos),
                tail_prev_pos: Some(tail_cur_pos),
                food_renew: false,
            },
        )
    }
}

/// How many random cells are tried for the food before the board is
/// searched in order.
const FOOD_DRAWS: u32 = 1024;

/// In a game, the head may always move onto the cell its tail is about to
/// leave.
pub proof fn lemma_can_follow_tail(g: Game)
    requires
        g.wf(),
    ensures
        steppable(g.snake@, g.snake@.last()),
{
    crate::snake::lemma_tail_steppable(g.snake@);
}

/// A reversal leaves the heading as it was; any other heading asked for,
/// straight on or a quarter turn, is taken.
pub proof fn lemma_turns(g: Game, d: Dir)
    ensures
        opposite(d, g.snake.dir) ==> g.heading_after(Command::Move(d)) == g.snake.dir,
        !opposite(d, g.snake.dir) ==> g.heading_after(Command::Move(d)) == d,
        g.heading_after(Command::Move(g.snake.dir)) == g.snake.dir,
        g.heading_after(Command::Nop) == g.snake.dir,
{
}

/// A coordinate at most one step off `0..m` wraps to its remainder modulo `m`.
proof fn lemma_wrap_is_mod(c: int, m: int)
    requires
        0 < m,
        -1 <= c <= m,
    ensures
        wrap(c, m) == c % m,
        0 <= wrap(c, m) < m,
{
    if c == -1 {
        vstd::arithmetic::div_mod::lemma_mod_add_multiples_vanish(-1, m);
        vstd::arithmetic::div_mod::lemma_small_mod((m - 1) as nat, m as nat);
    } else if c == m {
        vstd::arithmetic::div_mod::lemma_mod_self_0(m);
    } else {
        vstd::arithmetic::div_mod::lemma_small_mod(c as nat, m as nat);
    }
}

/// Moving off an edge of a periodic board lands on the opposite edge, `0` or
/// `dimension - 1`; on a bounded board the same move has no target.
pub proof fn lemma_edges(g: Game, d: Dir)
    requires
        g.wf(),
    ensures
        ({
            let nx = g.snake@[0].x + unit(d).x;
            let ny = g.snake@[0].y + unit(d).y;
            &&& g.periodic_world ==> {
                &&& g.target(d) is Some
                &&& in_board(g.target(d)->0, g.board)
                &&& nx < 0 ==> g.target(d)->0.x == g.board.x - 1
                &&& nx >= g.board.x ==> g.target(d)->0.x == 0
                &&& ny < 0 ==> g.target(d)->0.y == g.board.y - 1
                &&& ny >= g.board.y ==> g.target(d)->0.y == 0
            }
            &&& !g.periodic_world ==> (g.target(d) is None <==> !(0 <= nx < g.board.x && 0
                <= ny < g.board.y))
        }),
{
    g.lemma_target_in_board(d);
}

/// The cell `i` steps behind `head` along heading `d`, wrapped onto the
/// board.
pub open spec fn run_cell(head: Pos, d: Dir, i: int, board: Board) -> Pos {
    Pos {
        x: ((head.x - i * unit(d).x) % (board.x as int)) as i16,
        y: ((head.y - i * unit(d).y) % (board.y as int)) as i16,
    }
}

/// The body lies in a straight line behind its head, against heading `d`,
/// wrapped around the board.
pub open spec fn straight_run(cells: Seq<Pos>, d: Dir, board: Board) -> bool {
    forall|i: int| 0 <= i < cells.len() ==> #[trigger] cells[i] == run_cell(cells[0], d, i, board)
}

proof fn lemma_mod_shift(a: int, y: int, m: int)
    requires
        0 < m,
    ensures
        ((a % m) - y) % m == (a - y) % m,
{
    vstd::arithmetic::div_mod::lemma_sub_mod_noop(a, y, m);
    vstd::arithmetic::div_mod::lemma_sub_mod_noop_right(a % m, y, m);
}

/// One coordinate of a run: the cell `i` steps behind the new head is the
/// cell `i - 1` steps behind the old one.
proof fn lemma_run_coord_shift(h: int, u: int, i: int, m: int)
    requires
        0 < m,
        0 <= h < m,
        -1 <= u <= 1,
    ensures
        ((h + u) % m - i * u) % m == (h - (i - 1) * u) % m,
{
    lemma_mod_shift(h + u, i * u, m);
    assert(h + u - i * u == h - (i - 1) * u) by (nonlinear_arith);
}

/// One coordinate of a run: if the cell `i` steps behind the head is where
/// the head moves next, the cell `i + 1` steps behind is the head's own.
proof fn lemma_run_coord_cycle(h: int, u: int, i: int, m: int)
    requires
        0 < m,
        0 <= h < m,
        -1 <= u <= 1,
        (h - i * u) % m == (h + u) % m,
    ensures
        (h - (i + 1) * u) % m == h,
{
    lemma_mod_shift(h - i * u, u, m);
    lemma_mod_shift(h + u, u, m);
    assert(h - i * u - u == h - (i + 1) * u) by (nonlinear_arith);
    vstd::arithmetic::div_mod::lemma_small_mod(h as nat, m as nat);
}

/// On a periodic board, a snake that lies in a straight run behind its head
/// survives a tick that keeps its heading: the head moves onto the food or
/// onto a cell the body leaves free, a cell stays free for new food, and the
/// body is still a straight run after it grows or steps.
pub proof fn lemma_straight_run_continues(g: Game)
    requires
        g.wf(),
        g.periodic_world,
        straight_run(g.snake@, g.snake.dir, g.board),
    ensures
        g.target(g.snake.dir) is Some,
        ({
            let p = g.target(g.snake.dir)->0;
            &&& p == g.food.pos || steppable(g.snake@, p)
            &&& !board_full(seq![p] + g.snake@, g.board)
            &&& straight_run(seq![p] + g.snake@, g.snake.dir, g.board)
            &&& straight_run(seq![p] + g.snake@.drop_last(), g.snake.dir, g.board)
        }),
{
    let c = g.snake@;
    let d = g.snake.dir;
    let w = g.board.x as int;
    let hh = g.board.y as int;
    let h0 = c[0];
    let u = unit(d);
    assert(in_board(h0, g.board));
    lemma_wrap_is_mod(h0.x + u.x, w);
    lemma_wrap_is_mod(h0.y + u.y, hh);
    let p = g.target(d)->0;
    assert(p.x == (h0.x + u.x) % w && p.y == (h0.y + u.y) % hh);
    let grown = seq![p] + c;
    assert forall|i: int| 0 <= i < grown.len() implies #[trigger] grown[i] == run_cell(
        grown[0],
        d,
        i,
        g.board,
    ) by {
        if i == 0 {
            vstd::arithmetic::div_mod::lemma_small_mod(p.x as nat, w as nat);
            vstd::arithmetic::div_mod::lemma_small_mod(p.y as nat, hh as nat);
        } else {
            assert(grown[i] == c[i - 1]);
            assert(c[i - 1] == run_cell(h0, d, i - 1, g.board));
            lemma_run_coord_shift(h0.x as int, u.x as int, i, w);
            lemma_run_coord_shift(h0.y as int, u.y as int, i, hh);
        }
    }
    let stepped = seq![p] + c.drop_last();
    assert forall|i: int| 0 <= i < stepped.len() implies #[trigger] stepped[i] == run_cell(
        stepped[0],
        d,
        i,
        g.board,
    ) by {
        assert(stepped[i] == grown[i]);
    }
    if p != g.food.pos && !steppable(c, p) {
        let i = choose|i: int| 0 <= i < c.len() - 1 && c.drop_last()[i] == p;
        assert(c[i] == p);
        assert(c[i] == run_cell(h0, d, i, g.board));
        assert(c[i + 1] == run_cell(h0, d, i + 1, g.board));
        lemma_run_coord_cycle(h0.x as int, u.x as int, i, w);
        lemma_run_coord_cycle(h0.y as int, u.y as int, i, hh);
        assert(c[i + 1] == c[0]);
    }
    let q = if u.y == 0 {
        Pos { x: h0.x, y: (if h0.y + 1 < hh { h0.y + 1 } else { 0 }) as i16 }
    } else {
        Pos { x: (if h0.x + 1 < w { h0.x + 1 } else { 0 }) as i16, y: h0.y }
    };
    assert(in_board(q, g.board));
    if grown.contains(q) {
        let j = choose|j: int| 0 <= j < grown.len() && grown[j] == q;
        assert(grown[j] == run_cell(p, d, j, g.board));
        vstd::arithmetic::div_mod::lemma_small_mod(p.x as nat, w as nat);
        vstd::arithmetic::div_mod::lemma_small_mod(p.y as nat, hh as nat);
        vstd::arithmetic::div_mod::lemma_small_mod(h0.x as nat, w as nat);
        vstd::arithmetic::div_mod::lemma_small_mod(h0.y as nat, hh as nat);
    }
}

/// On a periodic board, a tick that keeps the heading of a snake lying in a
/// straight run never ends the game, and leaves the snake in a straight run:
/// by induction, any number of such ticks in a row keep the game going.
pub proof fn lemma_straight_run_keeps_running(g: Game, next: Game, r: Option<GameUpdate>)
    requires
        g.wf(),
        g.periodic_world,
        straight_run(g.snake@, g.snake.dir, g.board),
        g.tick(Command::Nop, next, r),
        next.snake.dir == g.heading_after(Command::Nop),
        next.board == g.board,
    ensures
        r is Some,
        straight_run(next.snake@, next.snake.dir, next.board),
{
    lemma_straight_run_continues(g);
}

/// The snake a game starts with lies in a straight run behind its head.
pub proof fn lemma_initial_body_is_straight_run(board: Board, snake_len: u16, start: Pos)
    requires
        valid_board(board),
        snake_len < i16::MAX,
        valid_start(board, snake_len, start),
    ensures
        straight_run(initial_body(start, initial_len(board, snake_len)), Dir::Right, board),
{
    let n = initial_len(board, snake_len);
    let cells = initial_body(start, n);
    let len = if snake_len > board.x - 2 { board.x - 2 } else { snake_len as int };
    assert(start.x < board.x - len);
    assert(1 <= n && start.x + n - 1 < board.x);
    assert forall|i: int| 0 <= i < cells.len() implies #[trigger] cells[i] == run_cell(
        cells[0],
        Dir::Right,
        i,
        board,
    ) by {
        assert(cells[0] == Pos { x: (start.x + n - 1) as i16, y: start.y });
        assert(cells[i] == Pos { x: (start.x + n - 1 - i) as i16, y: start.y });
        assert(i * unit(Dir::Right).x == i);
        let uy = unit(Dir::Right).y as int;
        assert(uy == 0);
        assert(i * uy == 0) by (nonlinear_arith)
            requires
                uy == 0,
        ;
        vstd::arithmetic::div_mod::lemma_small_mod((start.x + n - 1 - i) as nat, board.x as nat);
        vstd::arithmetic::div_mod::lemma_small_mod(start.y as nat, board.y as nat);
    }
}

/// On a periodic board a move off an edge lands on the opposite edge, at
/// `0` or `dimension - 1`, the other coordinate unchanged; unless the head
/// meets the food or the body there, the game runs on with the head on that
/// cell.
pub proof fn lemma_tick_wraps(g: Game, cmd: Command, next: Game, r: Option<GameUpdate>)
    requires
        g.wf(),
        g.periodic_world,
        cmd != Command::Exit,
        g.tick(cmd, next, r),
    ensures
        g.target(g.heading_after(cmd)) is Some,
        ({
            let d = g.heading_after(cmd);
            let h = g.snake@[0];
            let t = g.target(d)->0;
            let nx = h.x + unit(d).x;
            let ny = h.y + unit(d).y;
            &&& nx < 0 ==> t.x == g.board.x - 1 && t.y == h.y
            &&& nx >= g.board.x ==> t.x == 0 && t.y == h.y
            &&& ny < 0 ==> t.y == g.board.y - 1 && t.x == h.x
            &&& ny >= g.board.y ==> t.y == 0 && t.x == h.x
            &&& t != g.food.pos && steppable(g.snake@, t) ==> r is Some && next.snake@[0] == t
        }),
{
    let d = g.heading_after(cmd);
    lemma_edges(g, d);
    assert(in_board(g.snake@[0], g.board));
}

/// On a bounded board a move off an edge ends the game and leaves the body
/// and the food as they were.
pub proof fn lemma_tick_wall(g: Game, cmd: Command, next: Game, r: Option<GameUpdate>)
    requires
        g.wf(),
        !g.periodic_world,
        cmd != Command::Exit,
        g.tick(cmd, next, r),
        !in_board(
            Pos {
                x: (g.snake@[0].x + unit(g.heading_after(cmd)).x) as i16,
                y: (g.snake@[0].y + unit(g.heading_after(cmd)).y) as i16,
            },
            g.board,
        ),
    ensures
        r is None,
        next.snake@ == g.snake@,
        next.food == g.food,
{
    assert(in_board(g.snake@[0], g.board));
}

/// A move onto a cell that is neither the food nor taken by the body (the
/// tail excepted) reports the old head and the old tail, renews no food, and
/// moves the body without growing it.
pub proof fn lemma_tick_normal_move(g: Game, cmd: Command, next: Game, r: Option<GameUpdate>)
    requires
        g.wf(),
        cmd != Command::Exit,
        g.tick(cmd, next, r),
        g.target(g.heading_after(cmd)) is Some,
        g.target(g.heading_after(cmd))->0 != g.food.pos,
        steppable(g.snake@, g.target(g.heading_after(cmd))->0),
    ensures
        r == Some(
            GameUpdate {
                head_prev_pos: Some(g.snake@[0]),
                tail_prev_pos: Some(g.snake@.last()),
                food_renew: false,
            },
        ),
        next.snake@ == seq![g.target(g.heading_after(cmd))->0] + g.snake@.drop_last(),
        next.food == g.food,
{
}

/// A move onto the food by a body at least two cells shorter than the
/// board's area grows the body by the food cell and reports the old head, no
/// vacated tail and renewed food.
pub proof fn lemma_tick_eats(g: Game, cmd: Command, next: Game, r: Option<GameUpdate>)
    requires
        g.wf(),
        cmd != Command::Exit,
        g.tick(cmd, next, r),
        g.target(g.heading_after(cmd)) == Some(g.food.pos),
        g.snake@.len() + 1 < g.board.x * g.board.y,
    ensures
        r == Some(
            GameUpdate { head_prev_pos: Some(g.snake@[0]), tail_prev_pos: None, food_renew: true },
        ),
        next.snake@ == seq![g.food.pos] + g.snake@,
        next.snake@.len() == g.snake@.len() + 1,
{
    if board_full(seq![g.food.pos] + g.snake@, g.board) {
        lemma_full_board_len(seq![g.food.pos] + g.snake@, g.board);
    }
}

/// A body that takes every cell of the board has at least as many cells as
/// the board.
pub proof fn lemma_full_board_len(cells: Seq<Pos>, board: Board)
    requires
        valid_board(board),
        board_full(cells, board),
    ensures
        cells.len() >= board.x * board.y,
{
    let w = board.x as int;
    let h = board.y as int;
    let f = |q: Pos| q.y * w + q.x;
    let taken = cells.to_set();
    let keys = taken.map(f);
    cells.lemma_cardinality_of_set();
    vstd::set_lib::lemma_map_size_bound(taken, keys, f);
    let all = vstd::set_lib::set_int_range(0, w * h);
    vstd::set_lib::lemma_int_range(0, w * h);
    assert forall|k: int| all.contains(k) implies keys.contains(k) by {
        vstd::arithmetic::div_mod::lemma_fundamental_div_mod(k, w);
        let qx = k % w;
        let qy = k / w;
        assert(0 <= qx < w) by {
            vstd::arithmetic::div_mod::lemma_mod_pos_bound(k, w);
        }
        assert(0 <= qy < h) by (nonlinear_arith)
            requires
                0 <= k < w * h,
                k == w * qy + qx,
                0 <= qx < w,
        ;
        let q = Pos { x: qx as i16, y: qy as i16 };
        assert(in_board(q, board));
        assert(cells.contains(q));
        assert(taken.contains(q));
        assert(f(q) == k) by (nonlinear_arith)
            requires
                k == w * qy + qx,
                f(q) == qy * w + qx,
        ;
        assert(keys.contains(f(q)));
    }
    vstd::set_lib::lemma_len_subset(all, keys);
}

/// The body grows by one cell on a tick that reports renewed food, and
/// keeps its length on every other tick.
pub proof fn lemma_tick_length(g: Game, cmd: Command, next: Game, r: Option<GameUpdate>)
    requires
        g.wf(),
        cmd != Command::Exit,
        g.tick(cmd, next, r),
    ensures
        next.snake@.len() == g.snake@.len() + (if r is Some && r->0.food_renew { 1int } else { 0 }),
{
}

} // verus!
