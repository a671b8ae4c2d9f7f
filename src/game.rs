//! One game session: the snake, the apple, the score and the
//! Playing / Paused / GameOver state machine that gates them.

use vstd::prelude::*;

use crate::grid::{in_field, lemma_distinct_cells_fit, neighbour, opposite, Coord, Direction};
use crate::spawn::{board_full, spawn_apple};

verus! {

#[derive(Clone, Copy, Debug, PartialEq, Eq, Structural)]
pub enum GameState {
    Playing,
    Paused,
    GameOver,
}

/// What one tick did.
#[derive(Clone, Copy, Debug, PartialEq, Eq, Structural)]
pub enum TickOutcome {
    /// The game is not being played; nothing changed.
    Idle,
    Moved,
    /// The head reached the apple; a new apple was placed.
    Ate,
    /// The head would have left the field; the round is over.
    OutOfBounds,
    /// The head ran into the body; the round is over.
    SelfCollision,
    /// The apple was eaten and no free cell is left for a new one.
    BoardFull,
}

pub struct Snake {
    /// Direction applied on the most recent tick.
    pub current_direction: Direction,
    /// Pending change, applied at the start of the next tick (`Still`: none).
    pub queued_direction: Direction,
    /// Target number of occupied cells, head included.
    pub length: usize,
    /// Occupied cells, oldest first; the head is the last one.
    pub history: Vec<Coord>,
}

pub struct Game {
    pub snake: Snake,
    /// `None` only once the snake covers the whole field.
    pub apple: Option<Coord>,
    pub score: u64,
    pub state: GameState,
}

/// A game as plain values.
pub ghost struct GameView {
    pub current: Direction,
    pub queued: Direction,
    pub length: int,
    pub history: Seq<Coord>,
    pub apple: Option<Coord>,
    pub score: int,
    pub state: GameState,
}

impl View for Game {
    type V = GameView;

    open spec fn view(&self) -> GameView {
        GameView {
            current: self.snake.current_direction,
            queued: self.snake.queued_direction,
            length: self.snake.length as int,
            history: self.snake.history@,
            apple: self.apple,
            score: self.score as int,
            state: self.state,
        }
    }
}

/// The cell a new snake starts on.
pub open spec fn start_cell() -> Coord {
    Coord { x: 0, y: 0 }
}

pub open spec fn head(v: GameView) -> Coord {
    v.history.last()
}

/// The invariant of a game.
pub open spec fn valid(v: GameView) -> bool {
    &&& 1 <= v.history.len() <= v.length <= v.history.len() + 1
    &&& 0 <= v.score < v.length
    &&& forall|i: int| 0 <= i < v.history.len() ==> in_field(#[trigger] v.history[i])
    &&& v.state != GameState::GameOver ==> v.history.no_duplicates()
    &&& !opposite(v.queued, v.current)
    &&& match v.apple {
        Some(a) => in_field(a) && !v.history.contains(a),
        None => v.state == GameState::GameOver && board_full(v.history),
    }
}

/// A game as it stands at the start of a round.
pub open spec fn fresh(v: GameView) -> bool {
    &&& v.state == GameState::Playing
    &&& v.score == 0
    &&& v.length == 1
    &&& v.history == seq![start_cell()]
    &&& v.current == Direction::Still
    &&& v.queued == Direction::Still
    &&& v.apple matches Some(a) && in_field(a) && a != start_cell()
}

/// The queue after a request for direction `d`: taken only while playing, and
/// only if it reverses neither the current nor the pending direction.
pub open spec fn after_request(v: GameView, d: Direction) -> GameView {
    if v.state == GameState::Playing && d != Direction::Still && !opposite(d, v.current)
        && !opposite(d, v.queued) {
        GameView { queued: d, ..v }
    } else {
        v
    }
}

/// The game after the pause input.
pub open spec fn after_toggle(v: GameView) -> GameView {
    match v.state {
        GameState::Playing => GameView { state: GameState::Paused, ..v },
        GameState::Paused => GameView { state: GameState::Playing, ..v },
        GameState::GameOver => v,
    }
}

/// The direction a tick moves in.
pub open spec fn applied_direction(v: GameView) -> Direction {
    if v.queued == Direction::Still {
        v.current
    } else {
        v.queued
    }
}

/// The cell the head moves to on the next tick.
pub open spec fn next_head(v: GameView) -> Coord {
    neighbour(head(v), applied_direction(v))
}

/// The last `n` cells of `s`, or all of them if there are fewer.
pub open spec fn trimmed(s: Seq<Coord>, n: int) -> Seq<Coord> {
    if s.len() > n {
        s.subrange(s.len() - n, s.len() as int)
    } else {
        s
    }
}

/// The body after the next move, before any growth from eating.
pub open spec fn moved_body(v: GameView) -> Seq<Coord> {
    let grown = if next_head(v) == head(v) {
        v.history
    } else {
        v.history.push(next_head(v))
    };
    trimmed(grown, v.length)
}

/// A body of more than two cells whose head lies on one of its other cells.
pub open spec fn self_collision(body: Seq<Coord>) -> bool {
    body.len() > 2 && exists|i: int| 0 <= i < body.len() - 1 && body[i] == body.last()
}

/// What the next tick does, decided before a new apple is placed.
pub open spec fn step_outcome(v: GameView) -> TickOutcome {
    if v.state != GameState::Playing {
        TickOutcome::Idle
    } else if !in_field(next_head(v)) {
        TickOutcome::OutOfBounds
    } else if self_collision(moved_body(v)) {
        TickOutcome::SelfCollision
    } else if v.apple == Some(next_head(v)) {
        TickOutcome::Ate
    } else {
        TickOutcome::Moved
    }
}

/// The game after the next tick; after eating, the apple is still the one eaten.
pub open spec fn stepped(v: GameView) -> GameView {
    let turned = GameView { current: applied_direction(v), queued: Direction::Still, ..v };
    match step_outcome(v) {
        TickOutcome::Idle => v,
        TickOutcome::OutOfBounds => GameView { state: GameState::GameOver, ..turned },
        TickOutcome::SelfCollision => GameView {
            history: moved_body(v),
            state: GameState::GameOver,
            ..turned
        },
        TickOutcome::Ate => GameView {
            history: moved_body(v),
            length: v.length + 1,
            score: v.score + 1,
            ..turned
        },
        _ => GameView { history: moved_body(v), ..turned },
    }
}

/// `w` is what a tick turns `v` into, with outcome `o`: `stepped(v)`, save
/// that eating places a new apple off the body or, with no free cell, ends
/// the round.
pub open spec fn ticked(v: GameView, w: GameView, o: TickOutcome) -> bool {
    let s = stepped(v);
    if step_outcome(v) == TickOutcome::Ate {
        &&& w == GameView { apple: w.apple, state: w.state, ..s }
        &&& if board_full(s.history) {
            o == TickOutcome::BoardFull && w.state == GameState::GameOver && w.apple is None
        } else {
            &&& o == TickOutcome::Ate
            &&& w.state == GameState::Playing
            &&& w.apple matches Some(a) && in_field(a) && !s.history.contains(a)
        }
    } else {
        o == step_outcome(v) && w == s
    }
}

/// Whether the head of `body` lies on another of its cells; never for two
/// cells or fewer.
pub fn self_collides(body: &Vec<Coord>) -> (r: bool)
    requires
        body@.len() >= 1,
    ensures
        r == self_collision(body@),
{
    let n = body.len();
    if n <= 2 {
        return false;
    }
    let head = body[n - 1];
    let mut i: usize = 0;
    while i < n - 1
        invariant
            n == body@.len(),
            n > 2,
            head == body@.last(),
            0 <= i <= n - 1,
            forall|j: int| 0 <= j < i ==> body@[j] != head,
        decreases n - 1 - i,
    {
        if body[i] == head {
            return true;
        }
        i = i + 1;
    }
    false
}

/// What a move within the field does to a valid body: every cell stays in
/// the field, the length bounds hold, and, short of a collision, no cell
/// repeats and the apple stays off the body unless the head took it.
pub proof fn lemma_moved_body(v: GameView)
    requires
        valid(v),
        v.state == GameState::Playing,
        in_field(next_head(v)),
    ensures
        moved_body(v).len() >= 1,
        moved_body(v).last() == next_head(v),
        forall|i: int| 0 <= i < moved_body(v).len() ==> in_field(#[trigger] moved_body(v)[i]),
        moved_body(v).len() <= v.length,
        next_head(v) != head(v) ==> moved_body(v).len() == v.length,
        next_head(v) == head(v) ==> moved_body(v) == v.history,
        forall|c: Coord| #[trigger] moved_body(v).contains(c) ==> c == next_head(v) || v.history.contains(c),
        !self_collision(moved_body(v)) ==> moved_body(v).no_duplicates(),
        self_collision(moved_body(v)) ==> v.history.contains(next_head(v)),
{
    let h = v.history;
    let nh = next_head(v);
    let g = if nh == head(v) { h } else { h.push(nh) };
    let m = moved_body(v);
    let off = g.len() - m.len();
    assert(m == g.subrange(off, g.len() as int));
    assert forall|i: int| 0 <= i < m.len() implies m[i] == g[i + off] by {}
    assert forall|i: int| 0 <= i < g.len() - 1 implies g[i] == h[i] || nh == head(v) by {}
    assert forall|c: Coord| #[trigger] m.contains(c) implies c == nh || h.contains(c) by {
        let i = choose|i: int| 0 <= i < m.len() && m[i] == c;
        if nh == head(v) {
        } else if i + off < h.len() {
            assert(h[i + off] == c);
        }
    }
    assert forall|i: int| 0 <= i < m.len() implies in_field(#[trigger] m[i]) by {
        if i + off < h.len() {
            assert(m[i] == h[i + off]);
        }
    }
    if !self_collision(m) {
        assert forall|i: int, j: int| 0 <= i < m.len() && 0 <= j < m.len() && i != j implies m[i] != m[j] by {
            if nh == head(v) {
                assert(m[i] == h[i] && m[j] == h[j]);
            } else if i == m.len() - 1 || j == m.len() - 1 {
                if m.len() <= 2 {
                    assert(m[0] == head(v) || m.len() == 1);
                }
            } else {
                assert(m[i] == h[i + off] && m[j] == h[j + off]);
            }
        }
    } else {
        let i = choose|i: int| 0 <= i < m.len() - 1 && m[i] == m.last();
        if nh != head(v) {
            assert(m[i] == h[i + off]);
        }
    }
}

impl Game {
    /// The game satisfies `valid`; every operation keeps it so.
    pub open spec fn wf(&self) -> bool {
        valid(self@)
    }

    /// A new round: a one-cell snake on the start cell and an apple elsewhere.
    pub fn new() -> (g: Game)
        ensures
            g.wf(),
            fresh(g@),
    {
        let start = Coord { x: 0, y: 0 };
        let history = vec![start];
        assert(history@ == seq![start]);
        let witness = Coord { x: 1, y: 0 };
        assert(in_field(witness) && !history@.contains(witness));
        assert(!board_full(history@));
        let apple = spawn_apple(&history);
        Game {
            snake: Snake {
                current_direction: Direction::Still,
                queued_direction: Direction::Still,
                length: 1,
                history,
            },
            apple,
            score: 0,
            state: GameState::Playing,
        }
    }

    /// The snake's head.
    pub fn head(&self) -> (r: Coord)
        requires
            self.wf(),
        ensures
            r == head(self@),
    {
        self.snake.history[self.snake.history.len() - 1]
    }

    /// Takes a request to turn towards `d`; see `after_request`.
    pub fn queue_direction(&mut self, d: Direction)
        requires
            old(self).wf(),
        ensures
            final(self).wf(),
            final(self)@ == after_request(old(self)@, d),
    {
        if self.state == GameState::Playing && d != Direction::Still
            && !d.is_opposite(self.snake.current_direction) && !d.is_opposite(
            self.snake.queued_direction,
        ) {
            self.snake.queued_direction = d;
        }
    }

    /// One fixed simulation tick: apply the pending turn, move the head one
    /// cell, end the round on leaving the field or on running into the body,
    /// trim the body to its length, and eat the apple if the head is on it.
    pub fn tick(&mut self) -> (outcome: TickOutcome)
        requires
            old(self).wf(),
        ensures
            final(self).wf(),
            ticked(old(self)@, final(self)@, outcome),
            final(self)@.history.len() <= final(self)@.length,
            !opposite(final(self)@.current, old(self)@.current),
    {
        let ghost v = self@;
        if self.state != GameState::Playing {
            return TickOutcome::Idle;
        }
        if self.snake.queued_direction != Direction::Still {
            self.snake.current_direction = self.snake.queued_direction;
            self.snake.queued_direction = Direction::Still;
        }
        let head = self.snake.history[self.snake.history.len() - 1];
        let next = head.step(self.snake.current_direction);
        assert(next == next_head(v));
        if !next.in_field() {
            self.state = GameState::GameOver;
            assert(self@ == stepped(v));
            return TickOutcome::OutOfBounds;
        }
        if next != head {
            self.snake.history.push(next);
        }
        let ghost grown = self.snake.history@;
        let ghost mut removed: int = 0;
        while self.snake.history.len() > self.snake.length
            invariant
                self.snake.length == v.length,
                v.length >= 1,
                self.apple == v.apple,
                self.score == v.score,
                self.state == v.state,
                self.snake.current_direction == applied_direction(v),
                self.snake.queued_direction == Direction::Still,
                0 <= removed < grown.len(),
                self.snake.history@ == grown.subrange(removed, grown.len() as int),
                removed > 0 ==> self.snake.history@.len() >= v.length,
            decreases self.snake.history@.len(),
        {
            self.snake.history.remove(0);
            proof {
                removed = removed + 1;
            }
        }
        assert(self.snake.history@ == moved_body(v));
        proof {
            lemma_moved_body(v);
        }
        if self_collides(&self.snake.history) {
            self.state = GameState::GameOver;
            assert(self@ == stepped(v));
            return TickOutcome::SelfCollision;
        }
        let ate = match self.apple {
            Some(a) => a == next,
            None => false,
        };
        if ate {
            proof {
                lemma_distinct_cells_fit(self.snake.history@);
            }
            self.snake.length = self.snake.length + 1;
            self.score = self.score + 1;
            assert(self@ == GameView { apple: self.apple, state: self.state, ..stepped(v) });
            match spawn_apple(&self.snake.history) {
                Some(a) => {
                    self.apple = Some(a);
                    TickOutcome::Ate
                },
                None => {
                    self.apple = None;
                    self.state = GameState::GameOver;
                    TickOutcome::BoardFull
                },
            }
        } else {
            assert(self@ == stepped(v));
            TickOutcome::Moved
        }
    }

    /// The pause input: Playing and Paused swap, GameOver stays.
    pub fn toggle_pause(&mut self)
        requires
            old(self).wf(),
        ensures
            final(self).wf(),
            final(self)@ == after_toggle(old(self)@),
    {
        match self.state {
            GameState::Playing => self.state = GameState::Paused,
            GameState::Paused => self.state = GameState::Playing,
            GameState::GameOver => {},
        }
    }

    /// The restart input: from GameOver a fresh round begins; otherwise nothing
    /// happens. Returns whether a round began.
    pub fn restart(&mut self) -> (restarted: bool)
        requires
            old(self).wf(),
        ensures
            final(self).wf(),
            restarted == (old(self).state == GameState::GameOver),
            restarted ==> fresh(final(self)@),
            !restarted ==> final(self)@ == old(self)@,
    {
        if self.state != GameState::GameOver {
            return false;
        }
        *self = Game::new();
        true
    }
}

} // verus!
