use hexstack::board::{Captured, Piece, Player, PlayerMap, Species, Tall};
use hexstack::gameplay::{click, lapsed_depth, takeback_count, Decision};
use hexstack::matches::{find_opening, half_openings, HalfOpening, HalfOpeningDetectionError, MatchState};
use hexstack::position::Position;
use hexstack::tile::{Ply, Tile};

fn tile(code: u8) -> Tile {
    Tile::new(code).unwrap()
}

fn mirrored(p: Ply) -> Ply {
    Ply { from_tile: p.from_tile.antipode(), to_tile: p.to_tile.antipode() }
}

#[test]
fn test_half_openings() {
    let list = half_openings();
    assert_eq!(list.len(), 14);
    let names: Vec<&str> = list.iter().map(|h| h.name()).collect();
    assert_eq!(
        names,
        vec![
            "Devil", "Magician", "Hermit", "Chariot", "Emperor", "Hierophant", "Sun", "Moon",
            "Fool", "Hanged Man", "Judgement", "Lovers", "Empress", "Seal",
        ]
    );
    for (i, a) in list.iter().enumerate() {
        for b in list.iter().skip(i + 1) {
            assert_ne!(a.white_position, b.white_position);
            assert_ne!(a.white_position.flip(), b.white_position.flip());
        }
    }
}

#[test]
fn the_devil_opening() {
    let mut pos = Position::setup();
    pos.apply_move(Ply::from_str("d6b5").unwrap());
    let reply = pos.valid_moves()[0];
    pos.apply_move(reply);
    pos.apply_move(Ply::from_str("a5a3").unwrap());
    let white: Vec<(u8, Species)> =
        pos.get_pieces(Player::White).into_iter().into_iter().map(|(t, s)| (t.code(), s)).collect();
    assert_eq!(
        white,
        vec![
            (2, Species::Flat),
            (4, Species::Lone(Tall::Hand)),
            (13, Species::Stack(Tall::Star)),
            (14, Species::Lone(Tall::Blind)),
            (24, Species::Stack(Tall::Hand)),
            (25, Species::Stack(Tall::Blind)),
            (36, Species::Flat),
            (48, Species::Flat),
        ]
    );
    let list = half_openings();
    assert_eq!(list[0].name(), "Devil");
    assert_eq!(list[0].white_position, *pos.get_pieces(Player::White));
    assert_eq!(list[0].white_moves[0], Ply::from_str("d6b5").unwrap());
    assert_eq!(list[0].white_moves[1], Ply::from_str("a5a3").unwrap());
    let found = find_opening(&list, pos.get_pieces(Player::White), false).unwrap();
    assert_eq!(found.name(), "Devil");
}

#[test]
fn openings_that_cannot_be_played_are_not_made() {
    let first = Ply::from_str("d6b5").unwrap();
    assert!(HalfOpening::named("x", first, first).is_none());
    assert!(HalfOpening::anon(Ply::from_str("a1a2").unwrap(), first).is_none());
    let h = HalfOpening::anon(first, Ply::from_str("a5a3").unwrap()).unwrap();
    assert_eq!(h.name(), "[Anonymous]");
}

#[test]
fn a_match_tells_the_openings() {
    let mut m = MatchState::setup();
    assert_eq!(m.to_play(), Player::White);
    assert_eq!(m.is_won(), None);
    assert!(matches!(m.half_opening(Player::White), Err(HalfOpeningDetectionError::NotEnoughMoves)));
    let first = Ply::from_str("d6b5").unwrap();
    let second = Ply::from_str("a5a3").unwrap();
    m.apply_move(first);
    assert_eq!(m.to_play(), Player::Black);
    m.apply_move(mirrored(first));
    assert!(matches!(m.half_opening(Player::White), Err(HalfOpeningDetectionError::NotEnoughMoves)));
    m.apply_move(second);
    assert_eq!(m.half_opening(Player::White).unwrap().unwrap().name(), "Devil");
    assert!(matches!(m.half_opening(Player::Black), Err(HalfOpeningDetectionError::NotEnoughMoves)));
    m.apply_move(mirrored(second));
    assert_eq!(m.half_opening(Player::White).unwrap().unwrap().name(), "Devil");
    assert_eq!(m.half_opening(Player::Black).unwrap().unwrap().name(), "Devil");
    assert_eq!(m.history().len(), 4);
    assert_eq!(m.history()[0].to_string(), "Bb5");
    assert_eq!(m.history()[2].to_string(), "Aa3");
    assert_eq!(m.history()[0].moved_piece, Species::Lone(Tall::Blind));
    assert!(!m.history()[0].disambiguate);
    assert_eq!(m.history()[0].state_before, Position::setup());
    assert_eq!(m.history()[3].state_after, m.state_clone());
    assert_eq!(m.current_captured(), PlayerMap::new(Captured::empty(), Captured::empty()));

    m.undo_moves(1);
    assert_eq!(m.history().len(), 3);
    assert_eq!(m.to_play(), Player::Black);
    assert!(matches!(m.half_opening(Player::Black), Err(HalfOpeningDetectionError::NotEnoughMoves)));
    m.undo_moves(10);
    assert_eq!(m.history().len(), 0);
    assert_eq!(m.state_clone(), Position::setup());
    assert_eq!(*m.get_pieces(Player::White), *Position::setup().get_pieces(Player::White));
}

#[test]
fn moves_without_a_name() {
    let mut m = MatchState::setup();
    for _ in 0..4 {
        let ply = m.state_clone().valid_moves()[0];
        m.apply_move(ply);
    }
    assert!(matches!(m.half_opening(Player::White), Ok(None)));
}

#[test]
fn a_match_from_another_position() {
    let mut start = Position::setup();
    start.paint(&tile(27), Some(Piece { color: Player::White, species: Species::Flat }));
    let m = MatchState::setup_from(start);
    assert!(matches!(
        m.half_opening(Player::White),
        Err(HalfOpeningDetectionError::NonStandardSetup)
    ));
    assert!(matches!(
        m.half_opening(Player::Black),
        Err(HalfOpeningDetectionError::NonStandardSetup)
    ));
}

#[test]
fn a_capture_goes_on_record() {
    let mut start = Position::setup();
    for t in Tile::all_tiles() {
        start.paint(&t, None);
    }
    start.paint(&tile(26), Some(Piece { color: Player::White, species: Species::Flat }));
    start.paint(&tile(14), Some(Piece { color: Player::White, species: Species::Flat }));
    start.paint(&tile(3), Some(Piece { color: Player::White, species: Species::Flat }));
    start.paint(&tile(27), Some(Piece { color: Player::Black, species: Species::Flat }));
    start.paint(&tile(52), Some(Piece { color: Player::Black, species: Species::Lone(Tall::Hand) }));
    let mut m = MatchState::setup_from(start);
    let ply = Ply { from_tile: tile(14), to_tile: tile(15) };
    let entry = start.compute_history_entry(ply, PlayerMap::twin(Captured::empty()));
    assert_eq!(entry.to_string(), "Fb5b4*");
    assert!(entry.disambiguate);
    assert_eq!(entry.kills, vec![(tile(27), Species::Flat)]);
    let mut alone = start;
    alone.paint(&tile(3), None);
    alone.paint(&tile(14), None);
    alone.paint(&tile(2), Some(Piece { color: Player::White, species: Species::Flat }));
    let quiet = Ply { from_tile: tile(2), to_tile: tile(3) };
    let entry = alone.compute_history_entry(quiet, PlayerMap::twin(Captured::empty()));
    assert_eq!(entry.to_string(), "Fa4");
    assert!(!entry.disambiguate);
    assert!(entry.kills.is_empty());
    m.apply_move(ply);
    assert_eq!(m.history()[0].to_string(), "Fb5b4*");
    assert_eq!(m.current_captured().index(Player::White).iter(), vec![Species::Flat]);
    assert_eq!(m.current_captured().index(Player::Black).count(), 0);

    let rival = Ply { from_tile: tile(3), to_tile: tile(15) };
    let entry = start.compute_history_entry(rival, PlayerMap::twin(Captured::empty()));
    assert!(entry.disambiguate);
    assert_eq!(entry.to_string(), "Fa4b4*");
}

#[test]
fn picking_a_move_by_two_clicks() {
    let p = Position::setup();
    let moves = p.valid_moves();
    let from = tile(36);
    let to = tile(14);
    assert_eq!(click(&moves, None, from), (Some(from), None));
    assert_eq!(click(&moves, None, tile(27)), (None, None));
    assert_eq!(
        click(&moves, Some(from), to),
        (Some(from), Some(Decision::Move(Ply { from_tile: from, to_tile: to })))
    );
    assert_eq!(click(&moves, Some(from), tile(27)), (None, None));
    assert_eq!(lapsed_depth(5, 2), 3);
    assert_eq!(lapsed_depth(1, 3), 0);
    assert_eq!(takeback_count(true), 1);
    assert_eq!(takeback_count(false), 2);
}
