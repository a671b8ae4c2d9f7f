//! Apple placement: rejection sampling over the field, bounded, then a scan
//! for a free cell so that a nearly full board still gets an apple.

use vstd::prelude::*;

use crate::grid::{
    cell_at, in_field, lemma_cell_numbering, Coord, FIELD_CELLS, FIELD_HEIGHT, FIELD_MAX_X,
    FIELD_MAX_Y, FIELD_MIN_X, FIELD_MIN_Y,
};

verus! {

/// Random draws tried before falling back to a scan of the field.
pub const MAX_SPAWN_ATTEMPTS: u32 = 64;

/// Every cell of the field is covered by `body`.
pub open spec fn board_full(body: Seq<Coord>) -> bool {
    forall|c: Coord| in_field(c) ==> body.contains(c)
}

/// The first cell, numbered from `k` on, that `body` does not cover.
pub open spec fn first_free_from(body: Seq<Coord>, k: int) -> Option<Coord>
    decreases FIELD_CELLS - k,
{
    if k < 0 || k >= FIELD_CELLS {
        None
    } else if !body.contains(cell_at(k)) {
        Some(cell_at(k))
    } else {
        first_free_from(body, k + 1)
    }
}

/// Relies on rand::thread_rng and rand::Rng::gen_range: a value of the half-open
/// range `lo..hi`, which gen_range draws uniformly and panics on only when empty.
#[verifier::external_body]
fn random_in(lo: i32, hi: i32) -> (r: i32)
    requires
        lo < hi,
    ensures
        lo <= r < hi,
{
    rand::Rng::gen_range(&mut rand::thread_rng(), lo..hi)
}

/// Whether `body` covers cell `c`.
pub fn occupies(body: &Vec<Coord>, c: Coord) -> (r: bool)
    ensures
        r == body@.contains(c),
{
    let mut i: usize = 0;
    while i < body.len()
        invariant
            0 <= i <= body@.len(),
            forall|j: int| 0 <= j < i ==> body@[j] != c,
        decreases body@.len() - i,
    {
        if body[i] == c {
            return true;
        }
        i = i + 1;
    }
    false
}

proof fn lemma_first_free(body: Seq<Coord>, k: int)
    requires
        0 <= k <= FIELD_CELLS,
    ensures
        first_free_from(body, k) matches Some(c) ==> in_field(c) && !body.contains(c),
        first_free_from(body, k) is None ==> forall|j: int|
            k <= j < FIELD_CELLS ==> body.contains(#[trigger] cell_at(j)),
    decreases FIELD_CELLS - k,
{
    if k < FIELD_CELLS {
        lemma_cell_numbering(cell_at(k), k);
        lemma_first_free(body, k + 1);
    }
}

/// No free cell is found exactly when the board is full.
pub proof fn lemma_first_free_full(body: Seq<Coord>)
    ensures
        first_free_from(body, 0) is None <==> board_full(body),
        first_free_from(body, 0) matches Some(c) ==> in_field(c) && !body.contains(c),
{
    lemma_first_free(body, 0);
    if first_free_from(body, 0) is None {
        assert forall|c: Coord| in_field(c) implies body.contains(c) by {
            lemma_cell_numbering(c, 0);
            assert(body.contains(cell_at(crate::grid::cell_index(c))));
        }
    }
}

/// The first cell of the field, column by column from the bottom-left corner,
/// that `body` does not cover; `None` when the board is full.
pub fn first_free_cell(body: &Vec<Coord>) -> (r: Option<Coord>)
    ensures
        r == first_free_from(body@, 0),
        r is None <==> board_full(body@),
        r matches Some(c) ==> in_field(c) && !body@.contains(c),
{
    proof {
        lemma_first_free_full(body@);
    }
    let mut k: u32 = 0;
    while k < FIELD_CELLS
        invariant
            0 <= k <= FIELD_CELLS,
            first_free_from(body@, 0) == first_free_from(body@, k as int),
        decreases FIELD_CELLS - k,
    {
        let c = Coord {
            x: FIELD_MIN_X + (k / FIELD_HEIGHT) as i32,
            y: FIELD_MIN_Y + (k % FIELD_HEIGHT) as i32,
        };
        assert(c == cell_at(k as int));
        if !occupies(body, c) {
            proof {
                lemma_cell_numbering(c, k as int);
                assert(!board_full(body@) && in_field(c));
            }
            return Some(c);
        }
        k = k + 1;
    }
    None
}

/// A cell of the field that `body` does not cover, drawn at random; `None`
/// exactly when the board is full.
pub fn spawn_apple(body: &Vec<Coord>) -> (r: Option<Coord>)
    ensures
        r is None <==> board_full(body@),
        r matches Some(c) ==> in_field(c) && !body@.contains(c),
{
    let mut attempt: u32 = 0;
    while attempt < MAX_SPAWN_ATTEMPTS
        invariant
            attempt <= MAX_SPAWN_ATTEMPTS,
        decreases MAX_SPAWN_ATTEMPTS - attempt,
    {
        let c = Coord {
            x: random_in(FIELD_MIN_X, FIELD_MAX_X + 1),
            y: random_in(FIELD_MIN_Y, FIELD_MAX_Y + 1),
        };
        if !occupies(body, c) {
            assert(in_field(c));
            assert(!board_full(body@));
            return Some(c);
        }
        attempt = attempt + 1;
    }
    first_free_cell(body)
}

} // verus!
