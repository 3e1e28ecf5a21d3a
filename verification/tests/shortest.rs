use hexstack::board::{Piece, Player, Species, Tall};
use hexstack::gameplay::GamerSpec;
use hexstack::piecemap::PieceMap;
use hexstack::position::Position;
use hexstack::score::Score;
use hexstack::shortest::{search_min, search_shortest, search_shortest_path};
use hexstack::tile::{Ply, Tile};

fn tile(code: u8) -> Tile {
    Tile::new(code).unwrap()
}

fn ply(from: u8, to: u8) -> Ply {
    Ply { from_tile: tile(from), to_tile: tile(to) }
}

fn position(to_play: Player, white: &[(u8, Species)], black: &[(u8, Species)]) -> Position {
    let mut p = Position { to_play, white: PieceMap::empty(), black: PieceMap::empty() };
    for (c, s) in white {
        p.paint(&tile(*c), Some(Piece { color: Player::White, species: *s }));
    }
    for (c, s) in black {
        p.paint(&tile(*c), Some(Piece { color: Player::Black, species: *s }));
    }
    p
}

fn play(mut state: Position, line: &[Ply]) -> Position {
    for m in line.iter().rev() {
        assert!(state.is_legal(*m));
        state.apply_move(*m);
    }
    state
}

#[test]
fn a_line_that_ends_the_game() {
    let p = position(
        Player::White,
        &[(29, Species::Flat)],
        &[(2, Species::Lone(Tall::Hand))],
    );
    assert_eq!(search_shortest(p, 0), None);
    assert_eq!(search_shortest(p, 1), Some(vec![ply(29, 30)]));
    assert_eq!(search_shortest_path(p, 1), Some(vec![ply(29, 30)]));
    let won = play(p, &[ply(29, 30)]);
    assert_eq!(search_shortest(won, 0), Some(vec![]));
    assert_eq!(search_shortest_path(won, 0), Some(vec![]));

    let q = position(
        Player::White,
        &[(28, Species::Flat)],
        &[(2, Species::Lone(Tall::Hand))],
    );
    assert_eq!(search_shortest(q, 1), None);
    assert_eq!(search_shortest(q, 2), None);
    let line = search_shortest(q, 3).unwrap();
    assert_eq!(line.len(), 3);
    assert_eq!(line[2], ply(28, 29));
    assert_eq!(line[0], ply(29, 30));
    assert!(play(q, &line).is_won().is_some());
    let path = search_shortest_path(q, 3).unwrap();
    assert_eq!(path, line);
    assert_eq!(search_shortest(Position::setup(), 1), None);
    assert_eq!(search_shortest_path(Position::setup(), 2), None);
}

#[test]
fn the_line_that_serves_black_best() {
    let p = position(
        Player::White,
        &[(29, Species::Flat)],
        &[(2, Species::Lone(Tall::Hand))],
    );
    assert_eq!(search_min(p, 0), (p.eval_heuristic(), vec![]));
    let (score, line) = search_min(p, 1);
    assert_eq!(line.len(), 1);
    let mut lowest = None;
    for m in p.valid_moves() {
        let mut next = p;
        next.apply_move(m);
        let s = next.eval_heuristic();
        match lowest {
            Some((best, _)) if s.0 >= best => {},
            _ => lowest = Some((s.0, m)),
        }
    }
    assert_eq!(Some((score.0, line[0])), lowest);

    let mut black = p;
    black.flip_to_move();
    assert_eq!(search_min(black, 1), (Score::win_now(Player::White), vec![]));
    let (score3, line3) = search_min(Position::setup(), 2);
    assert_eq!(line3.len(), 2);
    assert_eq!(play(Position::setup(), &line3).eval_heuristic(), score3);
}

#[test]
fn strengths_of_the_engine() {
    assert_eq!(GamerSpec::Human.search_depth(), None);
    assert_eq!(GamerSpec::Gibberish.search_depth(), Some(0));
    assert_eq!(GamerSpec::Noob.search_depth(), Some(1));
    assert_eq!(GamerSpec::Decent.search_depth(), Some(2));
    assert_eq!(GamerSpec::Sharp.search_depth(), Some(3));
    assert_eq!(GamerSpec::Tough.search_depth(), Some(5));
    assert_eq!(GamerSpec::GrandMaster.search_depth(), Some(6));
    assert_eq!(GamerSpec::Perfect { depth: 9 }.search_depth(), Some(9));
    assert_eq!(GamerSpec::Gibberish.blunder_percent(), 0);
    assert_eq!(GamerSpec::Noob.blunder_percent(), 20);
    assert_eq!(GamerSpec::Sharp.blunder_percent(), 40);
    assert_eq!(GamerSpec::Tough.blunder_percent(), 40);
    assert_eq!(GamerSpec::GrandMaster.blunder_percent(), 20);
    assert_eq!(GamerSpec::Perfect { depth: 9 }.blunder_percent(), 0);
    assert!(GamerSpec::Human.allows_takebacks(true));
    assert!(!GamerSpec::Human.allows_takebacks(false));
    assert!(!GamerSpec::Sharp.allows_takebacks(true));
}
