use hexstack::board::{Piece, Player, Species, Tall};
use hexstack::editor::{palette, PositionEditor, UNDO_HISTORY_SIZE};
use hexstack::position::Position;
use hexstack::tile::Tile;

fn tile(code: u8) -> Tile {
    Tile::new(code).unwrap()
}

#[test]
fn the_palette_offers_the_eraser_and_every_piece() {
    let p = palette();
    assert_eq!(p.len(), 15);
    assert_eq!(p[0], None);
    assert_eq!(p[1], Some(Piece { color: Player::White, species: Species::Flat }));
    assert_eq!(p[2], Some(Piece { color: Player::Black, species: Species::Flat }));
    assert_eq!(p[13], Some(Piece { color: Player::White, species: Species::Stack(Tall::Star) }));
    assert_eq!(p[14], Some(Piece { color: Player::Black, species: Species::Stack(Tall::Star) }));
}

#[test]
fn editing_and_going_back() {
    let mut e = PositionEditor::setup();
    assert!(!e.can_undo());
    e.undo();
    assert_eq!(e.get_state_clone(), Position::setup());
    assert_eq!(e.tabulation_hash(), Position::setup().tabulation_hash());

    e.select_brush(Some(Piece { color: Player::Black, species: Species::Flat }));
    e.paint_tile(tile(27));
    assert_eq!(e.get_state_clone().get_pieces(Player::Black).get(tile(27)), Some(Species::Flat));
    assert!(e.can_undo());
    e.flip_to_move();
    assert_eq!(e.get_state_clone().to_play(), Player::Black);
    e.select_brush(None);
    e.paint_tile(tile(27));
    assert_eq!(e.get_state_clone().get_pieces(Player::Black).get(tile(27)), None);
    e.undo();
    assert_eq!(e.get_state_clone().get_pieces(Player::Black).get(tile(27)), Some(Species::Flat));
    assert_eq!(e.get_state_clone().to_play(), Player::Black);
    e.undo();
    assert_eq!(e.get_state_clone().to_play(), Player::White);
    e.undo();
    assert_eq!(e.get_state_clone(), Position::setup());
    assert!(!e.can_undo());

    let mut other = Position::setup();
    other.flip_to_move();
    e.set_position(other);
    assert_eq!(e.get_state_clone(), other);
    e.undo();
    assert_eq!(e.get_state_clone(), Position::setup());
}

#[test]
fn the_history_forgets_the_oldest_state() {
    let mut e = PositionEditor::from_state(Position::setup());
    let tiles = Tile::all_tiles();
    e.select_brush(None);
    let mut states = vec![e.get_state_clone()];
    for k in 0..(UNDO_HISTORY_SIZE + 5) {
        e.paint_tile(tiles[k % tiles.len()]);
        e.flip_to_move();
        states.push(e.get_state_clone());
    }
    let mut steps = 0;
    while e.can_undo() {
        e.undo();
        steps += 1;
    }
    assert_eq!(steps, UNDO_HISTORY_SIZE);
    assert_ne!(e.get_state_clone(), states[0]);
}
