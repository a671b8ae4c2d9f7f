//! Facts about whole runs of the game, proved from the contracts of the
//! operations in `game`.

use vstd::prelude::*;

use crate::game::{
    after_request, after_toggle, applied_direction, fresh, head, moved_body, next_head,
    step_outcome, stepped, ticked, valid, GameState, GameView, TickOutcome,
};
use crate::grid::{in_field, opposite, Coord, Direction};

verus! {

/// `w` follows `v` by one tick with outcome `o`, or by one input (a turn
/// request or the pause toggle), reported as `Idle`.
pub open spec fn follows(v: GameView, w: GameView, o: TickOutcome) -> bool {
    ||| ticked(v, w, o)
    ||| o == TickOutcome::Idle && w == after_toggle(v)
    ||| o == TickOutcome::Idle && exists|d: Direction| w == after_request(v, d)
}

pub open spec fn is_eat(o: TickOutcome) -> bool {
    o == TickOutcome::Ate || o == TickOutcome::BoardFull
}

/// How many of `outcomes` ate an apple.
pub open spec fn eaten(outcomes: Seq<TickOutcome>) -> int
    decreases outcomes.len(),
{
    if outcomes.len() == 0 {
        0
    } else {
        eaten(outcomes.drop_last()) + if is_eat(outcomes.last()) {
            1int
        } else {
            0int
        }
    }
}

/// A step changes length and score by one exactly when it eats.
pub proof fn lemma_step_growth(v: GameView, w: GameView, o: TickOutcome)
    requires
        follows(v, w, o),
    ensures
        w.length == v.length + if is_eat(o) {
            1int
        } else {
            0int
        },
        w.score == v.score + if is_eat(o) {
            1int
        } else {
            0int
        },
{
    if !ticked(v, w, o) {
        if o == TickOutcome::Idle && exists|d: Direction| w == after_request(v, d) {
            let d = choose|d: Direction| w == after_request(v, d);
            assert(w == after_request(v, d));
        }
    }
}

/// Starting from a fresh round, after any run of ticks and inputs that ate
/// K apples, the snake's length is 1 + K and the score is K.
pub proof fn lemma_growth_counts_eats(games: Seq<GameView>, outcomes: Seq<TickOutcome>)
    requires
        games.len() == outcomes.len() + 1,
        fresh(games[0]),
        forall|i: int| 0 <= i < outcomes.len() ==> follows(games[i], games[i + 1], #[trigger] outcomes[i]),
    ensures
        games.last().length == 1 + eaten(outcomes),
        games.last().score == eaten(outcomes),
    decreases outcomes.len(),
{
    if outcomes.len() > 0 {
        let n = outcomes.len() - 1;
        lemma_growth_counts_eats(games.drop_last(), outcomes.drop_last());
        assert(follows(games[n], games[n + 1], outcomes[n]));
        lemma_step_growth(games[n], games[n + 1], outcomes[n]);
    }
}

/// Each tick of a round in play moves the head exactly one cell along one
/// axis when a direction is set, and not at all when none is; a tick that
/// stays in the field leaves the head on that cell.
pub proof fn lemma_head_moves_one_cell(v: GameView)
    requires
        valid(v),
        v.state == GameState::Playing,
    ensures
        applied_direction(v) != Direction::Still ==> {
            let (h, n) = (head(v), next_head(v));
            (n.x - h.x == 0 && (n.y - h.y == 1 || n.y - h.y == -1)) || (n.y - h.y == 0 && (n.x
                - h.x == 1 || n.x - h.x == -1))
        },
        applied_direction(v) == Direction::Still ==> next_head(v) == head(v),
        step_outcome(v) != TickOutcome::OutOfBounds ==> stepped(v).history.last() == next_head(v),
        step_outcome(v) == TickOutcome::OutOfBounds ==> stepped(v).history == v.history,
{
    assert(in_field(v.history[v.history.len() - 1]));
    if step_outcome(v) != TickOutcome::OutOfBounds {
        crate::game::lemma_moved_body(v);
    }
}

/// The direction a tick applies never reverses the one before it, and a
/// queued reversal can never be pending.
pub proof fn lemma_no_reversal(v: GameView, w: GameView, o: TickOutcome)
    requires
        valid(v),
        ticked(v, w, o),
    ensures
        !opposite(v.queued, v.current),
        !opposite(w.current, v.current),
{
}

/// A self-collision is reported exactly when the body after the move has
/// more than two cells and the new head lies on one of its other cells.
pub proof fn lemma_collision_exact(v: GameView)
    requires
        valid(v),
        v.state == GameState::Playing,
        in_field(next_head(v)),
    ensures
        step_outcome(v) == TickOutcome::SelfCollision <==> {
            let b = moved_body(v);
            b.len() > 2 && exists|i: int| 0 <= i < b.len() - 1 && b[i] == next_head(v)
        },
{
    crate::game::lemma_moved_body(v);
}

/// The apple is never on the snake's body in any valid game, and every
/// operation keeps the game valid.
pub proof fn lemma_apple_off_body(v: GameView, c: Coord)
    requires
        valid(v),
        v.apple == Some(c),
    ensures
        !v.history.contains(c),
{
}

/// Pausing freezes the game: while paused, ticks and turn requests change
/// nothing, and pausing again resumes the very same game.
pub proof fn lemma_pause_freezes(v: GameView, w: GameView, o: TickOutcome, d: Direction)
    requires
        valid(v),
        v.state == GameState::Playing,
        ticked(after_toggle(v), w, o),
    ensures
        after_toggle(v).state == GameState::Paused,
        w == after_toggle(v),
        o == TickOutcome::Idle,
        after_request(after_toggle(v), d) == after_toggle(v),
        after_toggle(after_toggle(v)) == v,
{
}

} // verus!
