use hexstack::bitboards::{BitSet, DoubleCounterBitset};
use hexstack::board::{Captured, Piece, Player, PlayerMap, Species, Tall};
use hexstack::delta::{neighbours_attack, neighbours_move};
use hexstack::piecemap::PieceMap;
use hexstack::position::Position;
use hexstack::score::Score;
use hexstack::tile::{Ply, Tile};

fn tile(code: u8) -> Tile {
    Tile::new(code).unwrap()
}

fn empty_position(to_play: Player) -> Position {
    Position { to_play, white: PieceMap::empty(), black: PieceMap::empty() }
}

fn put(pos: &mut Position, code: u8, color: Player, species: Species) {
    pos.paint(&tile(code), Some(Piece { color, species }));
}

fn ply(from: u8, to: u8) -> Ply {
    Ply { from_tile: tile(from), to_tile: tile(to) }
}

#[test]
fn setup_places_six_pieces_a_side() {
    let p = Position::setup();
    assert_eq!(p.to_play(), Player::White);
    let black: Vec<(u8, Species)> =
        p.get_pieces(Player::Black).into_iter().into_iter().map(|(t, s)| (t.code(), s)).collect();
    assert_eq!(
        black,
        vec![
            (6, Species::Flat),
            (18, Species::Stack(Tall::Blind)),
            (29, Species::Stack(Tall::Blind)),
            (30, Species::Stack(Tall::Hand)),
            (41, Species::Stack(Tall::Star)),
            (52, Species::Stack(Tall::Hand)),
        ]
    );
    let white: Vec<(u8, Species)> =
        p.get_pieces(Player::White).into_iter().into_iter().map(|(t, s)| (t.code(), s)).collect();
    assert_eq!(
        white,
        vec![
            (2, Species::Stack(Tall::Hand)),
            (13, Species::Stack(Tall::Star)),
            (24, Species::Stack(Tall::Hand)),
            (25, Species::Stack(Tall::Blind)),
            (36, Species::Stack(Tall::Blind)),
            (48, Species::Flat),
        ]
    );
    assert_eq!(p.get_pieces(Player::White).flip(), *p.get_pieces(Player::Black));
    assert_eq!(p.get_pieces(Player::White).count(), 6);
    assert_eq!(p.is_won(), None);
}

#[test]
fn setup_moves_of_white_mirror_those_of_black() {
    let p = Position::setup();
    let white = p.valid_moves_for(Player::White);
    let black = p.valid_moves_for(Player::Black);
    assert!(!white.is_empty());
    assert_eq!(white.len(), black.len());
    for m in &white {
        let mirrored = Ply { from_tile: m.from_tile.antipode(), to_tile: m.to_tile.antipode() };
        assert!(black.contains(&mirrored));
    }
    for m in &black {
        let mirrored = Ply { from_tile: m.from_tile.antipode(), to_tile: m.to_tile.antipode() };
        assert!(white.contains(&mirrored));
    }
    assert_eq!(p.valid_moves(), white);
}

#[test]
fn legal_moves_never_land_on_the_other_side() {
    let p = Position::setup();
    for color in [Player::White, Player::Black] {
        let own = p.get_pieces(color);
        let other = p.get_pieces(color.flip());
        for m in p.valid_moves_for(color) {
            assert!(own.get(m.from_tile).is_some());
            assert_eq!(other.get(m.to_tile), None);
            match own.get(m.to_tile) {
                None => {},
                Some(Species::Flat) => assert_ne!(own.get(m.from_tile), Some(Species::Flat)),
                Some(_) => panic!("landed on an upright piece"),
            }
        }
    }
}

#[test]
fn a_piece_that_two_pieces_threaten_is_taken_and_no_other() {
    let mut p = empty_position(Player::White);
    put(&mut p, 26, Player::White, Species::Flat);
    put(&mut p, 14, Player::White, Species::Flat);
    put(&mut p, 27, Player::Black, Species::Flat);
    put(&mut p, 38, Player::Black, Species::Lone(Tall::Star));
    assert!(p.valid_moves().contains(&ply(14, 15)));
    assert!(!p.double_attack_map(Player::White).get(&tile(27)));
    let report = p.apply_move(ply(14, 15));
    assert!(report.has_captured);
    assert_eq!(p.to_play(), Player::Black);
    assert_eq!(p.get_pieces(Player::Black).get(tile(27)), None);
    assert_eq!(p.get_pieces(Player::Black).get(tile(38)), Some(Species::Lone(Tall::Star)));
    assert_eq!(p.get_pieces(Player::White).get(tile(15)), Some(Species::Flat));
    assert_eq!(p.get_pieces(Player::White).get(tile(14)), None);
    assert_eq!(p.get_pieces(Player::White).get(tile(26)), Some(Species::Flat));
    assert_eq!(p.double_attack_map(Player::White).into_iter(), vec![tile(27)]);
}

#[test]
fn a_single_threat_takes_nothing() {
    let mut p = empty_position(Player::White);
    put(&mut p, 26, Player::White, Species::Flat);
    put(&mut p, 27, Player::Black, Species::Flat);
    put(&mut p, 2, Player::White, Species::Flat);
    let report = p.apply_move(ply(2, 3));
    assert!(!report.has_captured);
    assert_eq!(p.get_pieces(Player::Black).get(tile(27)), Some(Species::Flat));
}

#[test]
fn stacking_and_unstacking() {
    let mut p = empty_position(Player::White);
    put(&mut p, 26, Player::White, Species::Lone(Tall::Hand));
    put(&mut p, 28, Player::White, Species::Flat);
    assert!(p.valid_moves().contains(&ply(26, 28)));
    p.apply_move(ply(26, 28));
    assert_eq!(p.get_pieces(Player::White).get(tile(28)), Some(Species::Stack(Tall::Hand)));
    assert_eq!(p.get_pieces(Player::White).get(tile(26)), None);
    let pulled = p.pull_moving_piece(Player::White, tile(28));
    assert_eq!(pulled, Species::Lone(Tall::Hand));
    assert_eq!(p.get_pieces(Player::White).get(tile(28)), Some(Species::Flat));

    let mut q = empty_position(Player::White);
    put(&mut q, 26, Player::White, Species::Stack(Tall::Hand));
    put(&mut q, 28, Player::White, Species::Flat);
    q.apply_move(ply(26, 28));
    assert_eq!(q.get_pieces(Player::White).get(tile(28)), Some(Species::Stack(Tall::Hand)));
    assert_eq!(q.get_pieces(Player::White).get(tile(26)), Some(Species::Flat));
}

#[test]
fn a_flat_piece_may_not_land_on_a_flat_piece() {
    let mut p = empty_position(Player::White);
    put(&mut p, 26, Player::White, Species::Flat);
    put(&mut p, 27, Player::White, Species::Flat);
    assert!(!p.valid_moves().contains(&ply(26, 27)));
    let mut q = empty_position(Player::White);
    put(&mut q, 25, Player::White, Species::Lone(Tall::Hand));
    put(&mut q, 27, Player::White, Species::Lone(Tall::Star));
    assert!(!q.valid_moves().contains(&ply(25, 27)));
}

#[test]
fn a_flat_piece_on_the_corner_wins_at_once() {
    let mut p = empty_position(Player::White);
    put(&mut p, 24, Player::Black, Species::Flat);
    put(&mut p, 27, Player::White, Species::Lone(Tall::Star));
    assert!(!p.valid_moves().is_empty());
    assert_eq!(p.is_won(), Some(Player::Black));
    assert_eq!(p.is_won_home(), Some(Player::Black));
    assert_eq!(p.eval_heuristic(), Score::win_now(Player::Black));

    let mut q = empty_position(Player::Black);
    put(&mut q, 30, Player::White, Species::Flat);
    put(&mut q, 27, Player::Black, Species::Lone(Tall::Star));
    assert_eq!(q.is_won(), Some(Player::White));

    let mut both = q;
    put(&mut both, 24, Player::Black, Species::Flat);
    assert_eq!(both.is_won(), Some(Player::Black));

    let mut stack = empty_position(Player::White);
    put(&mut stack, 24, Player::Black, Species::Stack(Tall::Hand));
    put(&mut stack, 27, Player::White, Species::Lone(Tall::Star));
    assert_eq!(stack.is_won(), None);
}

#[test]
fn a_side_without_a_move_has_lost() {
    let mut p = empty_position(Player::White);
    put(&mut p, 27, Player::Black, Species::Lone(Tall::Star));
    assert!(p.valid_moves().is_empty());
    assert_eq!(p.is_won(), Some(Player::Black));
    p.flip_to_move();
    assert_eq!(p.to_play(), Player::Black);
    assert_eq!(p.is_won(), None);
}

#[test]
fn destinations_agree_with_neighbours() {
    for t in Tile::all_tiles() {
        for color in [Player::White, Player::Black] {
            for code in 0..7u8 {
                let species = Species::from_code(code);
                let piece = Piece { color, species };
                let mut by_steps: Vec<u8> = neighbours_move(t, piece)
                    .into_iter()
                    .flatten()
                    .map(|n| n.code())
                    .collect();
                by_steps.sort();
                let by_mask: Vec<u8> = BitSet::move_destinations_from_tile(t, color, species)
                    .into_iter()
                    .into_iter()
                    .map(|n| n.code())
                    .collect();
                assert_eq!(by_steps, by_mask);
                assert_eq!(neighbours_attack(t, piece), neighbours_move(t, piece));
            }
        }
    }
}

#[test]
fn steps_of_each_species_from_the_centre() {
    let c = tile(27);
    let codes = |color, species| -> Vec<u8> {
        BitSet::move_destinations_from_tile(c, color, species)
            .into_iter()
            .into_iter()
            .map(|t| t.code())
            .collect()
    };
    assert_eq!(codes(Player::White, Species::Flat), vec![16, 28, 39]);
    assert_eq!(codes(Player::Black, Species::Flat), vec![15, 26, 38]);
    assert_eq!(codes(Player::White, Species::Lone(Tall::Hand)), vec![15, 26, 29, 38]);
    assert_eq!(codes(Player::White, Species::Stack(Tall::Blind)), vec![5, 15, 25, 38, 51]);
    assert_eq!(codes(Player::White, Species::Lone(Tall::Star)), vec![4, 14, 17, 37, 40, 50]);
    assert_eq!(codes(Player::Black, Species::Lone(Tall::Star)), vec![4, 14, 17, 37, 40, 50]);
    let corner = tile(2);
    let from_corner: Vec<u8> =
        BitSet::move_destinations_from_tile(corner, Player::Black, Species::Flat)
            .into_iter()
            .into_iter()
            .map(|t| t.code())
            .collect();
    assert_eq!(from_corner, vec![13]);
}

#[test]
fn bitset_algebra() {
    let a = BitSet::tile_mask(&tile(2)).union(BitSet::tile_mask(&tile(27)));
    let b = BitSet::tile_mask(&tile(27)).union(BitSet::tile_mask(&tile(52)));
    assert_eq!(a.count(), 2);
    assert_eq!(a.intersection(b).into_iter(), vec![tile(27)]);
    assert_eq!(a.union(b).count(), 3);
    assert_eq!((a | b), a.union(b));
    assert_eq!((a & b), a.intersection(b));
    assert_eq!((!a).count(), 62);
    assert_eq!((!a).intersection(BitSet::board_mask()).count(), 27);
    assert!(a.get(&tile(2)));
    assert!(!a.get(&tile(3)));
    assert!(a.get_at_bit(27));
    assert!(!a.get_at_bit(64));
    assert!(!a.get_at_bit(200));
    let mut c = a;
    c.set(&tile(3));
    assert!(c.get(&tile(3)));
    c.unset(&tile(2));
    assert!(!c.get(&tile(2)));
    assert!(c.remove(&tile(3)));
    assert!(!c.remove(&tile(3)));
    assert_eq!(c.into_iter(), vec![tile(27)]);
    c.set_mask_bool(true, b);
    assert_eq!(c.count(), 2);
    c.set_mask_bool(false, b);
    assert!(!c.is_not_empty());
    assert_eq!(BitSet::empty().count(), 0);
    assert!(!BitSet::empty().is_not_empty());
}

#[test]
fn double_counter_sees_what_is_named_twice() {
    let mut d = DoubleCounterBitset::new();
    let a = BitSet::tile_mask(&tile(2)).union(BitSet::tile_mask(&tile(27)));
    let b = BitSet::tile_mask(&tile(27)).union(BitSet::tile_mask(&tile(52)));
    d.add(a);
    assert!(!d.get_doubles().is_not_empty());
    d.add(b);
    assert_eq!(d.get_doubles().into_iter(), vec![tile(27)]);
    d.add(b);
    assert_eq!(d.get_doubles().into_iter(), vec![tile(27), tile(52)]);
}

#[test]
fn piecemap_round_trips() {
    let mut m = PieceMap::empty();
    assert!(!m.is_not_empty());
    for code in 0..7u8 {
        let s = Species::from_code(code);
        m.set(tile(27), s);
        assert_eq!(m.get(tile(27)), Some(s));
        assert!(m.contains_key(&tile(27)));
        assert_eq!(m.locate_species(s).into_iter(), vec![tile(27)]);
        assert_eq!(m.get_3bit(27), match s {
            Species::Flat => 1,
            Species::Lone(Tall::Hand) => 4,
            Species::Lone(Tall::Blind) => 2,
            Species::Lone(Tall::Star) => 6,
            Species::Stack(Tall::Hand) => 5,
            Species::Stack(Tall::Blind) => 3,
            Species::Stack(Tall::Star) => 7,
        });
    }
    m.set(tile(2), Species::Flat);
    m.set(tile(3), Species::Lone(Tall::Hand));
    assert_eq!(m.occupied().count(), 3);
    assert_eq!(m.count(), 3);
    assert_eq!(m.locate_lone_flats().into_iter(), vec![tile(2)]);
    assert_eq!(m.locate_talls(Tall::Star).into_iter(), vec![tile(27)]);
    assert_eq!(m.locate_talls(Tall::Hand).into_iter(), vec![tile(3)]);
    assert_eq!(m.viable_tall_destinations().intersection(m.occupied()).into_iter(), vec![tile(2)]);
    let only = m.mask(BitSet::tile_mask(&tile(3)));
    assert_eq!(only.into_iter(), vec![(tile(3), Species::Lone(Tall::Hand))]);
    let mut rest = m;
    let killed = rest.kill(BitSet::tile_mask(&tile(3)));
    assert_eq!(killed, only);
    assert_eq!(rest.get(tile(3)), None);
    assert_eq!(rest.count(), 2);
    rest.clear_tile(tile(2));
    assert_eq!(rest.get(tile(2)), None);
    let flipped = m.flip();
    assert_eq!(flipped.get(tile(52)), Some(Species::Flat));
    assert_eq!(flipped.get(tile(51)), Some(Species::Lone(Tall::Hand)));
    assert_eq!(flipped.flip(), m);
    let mut t = PieceMap::empty();
    t.toss(tile(5), Species::Flat);
    t.toss(tile(5), Species::Lone(Tall::Blind));
    assert_eq!(t.get(tile(5)), Some(Species::Stack(Tall::Blind)));
    assert_eq!(t.pull_moving_piece(tile(5)), Species::Lone(Tall::Blind));
    assert_eq!(t.pull_moving_piece(tile(5)), Species::Flat);
    assert!(!t.is_not_empty());
}

#[test]
fn painting_and_clearing() {
    let mut p = Position::setup();
    p.paint(&tile(48), Some(Piece { color: Player::Black, species: Species::Flat }));
    assert_eq!(p.get_pieces(Player::White).get(tile(48)), None);
    assert_eq!(p.get_pieces(Player::Black).get(tile(48)), Some(Species::Flat));
    p.paint(&tile(48), None);
    assert_eq!(p.get_pieces(Player::Black).get(tile(48)), None);
    p.clear_tile(&tile(2));
    assert_eq!(p.get_pieces(Player::White).get(tile(2)), None);
    assert_eq!(Position::setup().max_white_flat_hor(), Some(-4));
    assert_eq!(empty_position(Player::White).max_white_flat_hor(), None);
    let mut q = empty_position(Player::White);
    put(&mut q, 30, Player::White, Species::Lone(Tall::Hand));
    assert_eq!(q.max_white_flat_hor(), None);
    put(&mut q, 29, Player::White, Species::Flat);
    put(&mut q, 2, Player::White, Species::Stack(Tall::Hand));
    assert_eq!(q.max_white_flat_hor(), Some(4));
}

#[test]
fn captured_counts() {
    let mut c = Captured::empty();
    assert_eq!(c.count(), 0);
    assert_eq!(c.len(), 0);
    c.push(Species::Flat);
    c.push(Species::Lone(Tall::Star));
    c.extend(&vec![Species::Flat, Species::Stack(Tall::Hand)]);
    assert_eq!(c.count(), 4);
    assert_eq!(c.len(), 3);
    assert_eq!(
        c.iter_counts(),
        vec![(Species::Flat, 2), (Species::Lone(Tall::Star), 1), (Species::Stack(Tall::Hand), 1)]
    );
    assert_eq!(
        c.iter(),
        vec![Species::Flat, Species::Flat, Species::Lone(Tall::Star), Species::Stack(Tall::Hand)]
    );
    let m = PlayerMap::new_on_player(Player::Black, 1, 2);
    assert_eq!(*m.index(Player::Black), 1);
    assert_eq!(*m.index(Player::White), 2);
    let mut t = PlayerMap::twin(7);
    t.set(Player::White, 8);
    assert_eq!(t, PlayerMap::new(8, 7));
    assert_eq!(t.into_iter(), [(Player::White, &8), (Player::Black, &7)]);
}
