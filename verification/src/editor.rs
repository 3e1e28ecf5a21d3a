//! Free editing of a position, with a history of the last states to go back
//! to.

use circular_buffer::CircularBuffer;
use vstd::prelude::*;
use crate::board::{Piece, Player, Species};
use crate::position::Position;
use crate::tile::Tile;

verus! {

/// Number of states that can be gone back to.
pub const UNDO_HISTORY_SIZE: usize = 30;

#[verifier::external_type_specification]
#[verifier::external_body]
#[verifier::reject_recursive_types(T)]
pub struct ExCircularBuffer<const N: usize, T>(CircularBuffer<N, T>);

/// The positions that a buffer of earlier states holds, the oldest first.
pub uninterp spec fn history_items(buffer: CircularBuffer<30, Position>) -> Seq<Position>;

/// What a history holds once a state has been added at its end: the oldest
/// state makes room where the history is full.
pub open spec fn pushed(history: Seq<Position>, state: Position) -> Seq<Position> {
    if history.len() < UNDO_HISTORY_SIZE {
        history.push(state)
    } else {
        history.drop_first().push(state)
    }
}

/// An empty buffer, by `CircularBuffer::new`.
#[verifier::external_body]
fn history_new() -> (r: CircularBuffer<30, Position>)
    ensures
        history_items(r) == Seq::<Position>::empty(),
{
    CircularBuffer::new()
}

/// Adds a state at the end of the buffer, by `CircularBuffer::push_back`:
/// where the buffer holds as many states as it has room for, the one at the
/// front is dropped for it.
#[verifier::external_body]
fn history_push(buffer: &mut CircularBuffer<30, Position>, state: Position)
    ensures
        history_items(*final(buffer)) == pushed(history_items(*old(buffer)), state),
{
    buffer.push_back(state);
}

/// Takes the state at the end of the buffer out, by
/// `CircularBuffer::pop_back`; an empty buffer gives none and stays empty.
#[verifier::external_body]
fn history_pop(buffer: &mut CircularBuffer<30, Position>) -> (r: Option<Position>)
    ensures
        r == if history_items(*old(buffer)).len() == 0 {
            None::<Position>
        } else {
            Some(history_items(*old(buffer)).last())
        },
        history_items(*final(buffer)) == if history_items(*old(buffer)).len() == 0 {
            history_items(*old(buffer))
        } else {
            history_items(*old(buffer)).drop_last()
        },
{
    buffer.pop_back()
}

/// Whether the buffer holds no state, by `CircularBuffer::is_empty`.
#[verifier::external_body]
fn history_is_empty(buffer: &CircularBuffer<30, Position>) -> (r: bool)
    ensures
        r == (history_items(*buffer).len() == 0),
{
    buffer.is_empty()
}

/// A position under the hands of an editor: the position, the piece that a
/// click puts down, and the states to go back to.
pub struct PositionEditor {
    pub state: Position,
    pub selected_brush: Option<Piece>,
    pub undo_history: CircularBuffer<30, Position>,
}

/// The brushes that an editor offers, in the order in which they are laid
/// out: the eraser, and then each species for White and for Black.
pub open spec fn spec_palette() -> Seq<Option<Piece>> {
    Seq::new(
        15,
        |i: int|
            if i == 0 {
                None
            } else {
                Some(
                    Piece {
                        color: if (i - 1) % 2 == 0 {
                            Player::White
                        } else {
                            Player::Black
                        },
                        species: Species::all()[(i - 1) / 2],
                    },
                )
            },
    )
}

/// The brushes that an editor offers.
pub fn palette() -> (r: Vec<Option<Piece>>)
    ensures
        r@ == spec_palette(),
{
    let mut out: Vec<Option<Piece>> = Vec::new();
    out.push(None);
    let mut code: u8 = 0;
    while code < 7
        invariant
            code <= 7,
            out@.len() == 1 + 2 * code,
            forall|i: int| 0 <= i < out@.len() ==> out@[i] == #[trigger] spec_palette()[i],
        decreases 7 - code,
    {
        let species = Species::from_code(code);
        out.push(Some(Piece { color: Player::White, species }));
        out.push(Some(Piece { color: Player::Black, species }));
        code += 1;
    }
    assert(out@ =~= spec_palette());
    out
}

impl PositionEditor {
    /// The states to go back to, the oldest first.
    pub open spec fn spec_history(self) -> Seq<Position> {
        history_items(self.undo_history)
    }

    /// An editor on the position from which the game begins.
    pub fn setup() -> (r: PositionEditor)
        ensures
            r.state.is_setup(),
            r.state.wf(),
            r.selected_brush is None,
            r.spec_history() == Seq::<Position>::empty(),
    {
        Self::from_state(Position::setup())
    }

    /// An editor on the given position.
    pub fn from_state(position: Position) -> (r: PositionEditor)
        ensures
            r.state == position,
            r.selected_brush is None,
            r.spec_history() == Seq::<Position>::empty(),
    {
        PositionEditor { state: position, selected_brush: None, undo_history: history_new() }
    }

    /// The hash of the position.
    pub fn tabulation_hash(&self) -> (r: u64)
        ensures
            r == self.state.spec_hash(),
    {
        self.state.tabulation_hash()
    }

    /// Puts the present state on record.
    pub fn push_history(&mut self)
        ensures
            final(self).state == old(self).state,
            final(self).selected_brush == old(self).selected_brush,
            final(self).spec_history() == pushed(old(self).spec_history(), old(self).state),
    {
        history_push(&mut self.undo_history, self.state);
    }

    /// Whether there is a state to go back to.
    pub fn can_undo(&self) -> (r: bool)
        ensures
            r == (self.spec_history().len() > 0),
    {
        !history_is_empty(&self.undo_history)
    }

    /// Goes back to the last state on record, if there is one.
    pub fn undo(&mut self)
        ensures
            final(self).selected_brush == old(self).selected_brush,
            final(self).state == if old(self).spec_history().len() > 0 {
                old(self).spec_history().last()
            } else {
                old(self).state
            },
            final(self).spec_history() == if old(self).spec_history().len() > 0 {
                old(self).spec_history().drop_last()
            } else {
                old(self).spec_history()
            },
    {
        if let Some(previous) = history_pop(&mut self.undo_history) {
            self.state = previous;
        }
    }

    /// Replaces the position, and puts the one that it replaces on record.
    pub fn set_position(&mut self, new_position: Position)
        ensures
            final(self).state == new_position,
            final(self).selected_brush == old(self).selected_brush,
            final(self).spec_history() == pushed(old(self).spec_history(), old(self).state),
    {
        self.push_history();
        self.state = new_position;
    }

    /// Takes up a brush.
    pub fn select_brush(&mut self, brush: Option<Piece>)
        ensures
            final(self).selected_brush == brush,
            final(self).state == old(self).state,
            final(self).spec_history() == old(self).spec_history(),
    {
        self.selected_brush = brush;
    }

    /// Paints the cell with the brush in hand, and puts the state before on
    /// record.
    pub fn paint_tile(&mut self, tile: Tile)
        requires
            tile.0 < 64,
        ensures
            final(self).state == old(self).state.painted(tile, old(self).selected_brush),
            final(self).selected_brush == old(self).selected_brush,
            final(self).spec_history() == pushed(old(self).spec_history(), old(self).state),
            old(self).state.wf() && tile.wf() ==> final(self).state.wf(),
    {
        self.push_history();
        self.state.paint(&tile, self.selected_brush);
    }

    /// Passes the turn, and puts the state before on record.
    pub fn flip_to_move(&mut self)
        ensures
            final(self).state == (Position {
                to_play: old(self).state.to_play.other(),
                ..old(self).state
            }),
            final(self).selected_brush == old(self).selected_brush,
            final(self).spec_history() == pushed(old(self).spec_history(), old(self).state),
    {
        self.push_history();
        self.state.flip_to_move();
    }

    /// The position as it stands.
    pub fn get_state_clone(&self) -> (r: Position)
        ensures
            r == self.state,
    {
        self.state
    }
}

} // verus!
