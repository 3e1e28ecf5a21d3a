use hexstack::board::{Piece, Player, Species, Tall};
use hexstack::piecemap::PieceMap;
use hexstack::position::Position;
use hexstack::ranking::rank;
use hexstack::score::{EvalResult, Score};
use hexstack::search::rank_moves;
use hexstack::table::TranspositionalTable;
use hexstack::tile::{Ply, Tile};
use rand::seq::SliceRandom;
use std::collections::hash_map::Entry::{Occupied, Vacant};
use std::collections::HashMap;

fn tile(code: u8) -> Tile {
    Tile::new(code).unwrap()
}

fn ply(from: u8, to: u8) -> Ply {
    Ply { from_tile: tile(from), to_tile: tile(to) }
}

fn position(to_play: Player, white: &[(u8, Species)], black: &[(u8, Species)]) -> Position {
    let mut p = Position { to_play, white: PieceMap::empty(), black: PieceMap::empty() };
    for (c, s) in white {
        p.paint(&tile(*c), Some(Piece { color: Player::White, species: *s }));
    }
    for (c, s) in black {
        p.paint(&tile(*c), Some(Piece { color: Player::Black, species: *s }));
    }
    p
}

#[test]
fn test_zobrist() {
    let mut counter = 0;
    let mut rng = rand::thread_rng();
    let mut already_seen = HashMap::new();
    const MAX_ITS: usize = 10000;
    while counter < MAX_ITS {
        let mut state = Position::setup();

        while let Some(&ply) = state.valid_moves().choose(&mut rng) {
            state.apply_move(ply);

            let tabhash = state.tabulation_hash();

            match already_seen.entry(tabhash) {
                Occupied(entry) => {
                    assert_eq!(*entry.get(), state)
                },
                Vacant(vacancy) => {
                    vacancy.insert(state.clone());
                },
            };

            counter += 1;

            if counter >= MAX_ITS {
                break;
            }
        }
    }
}

#[test]
fn hash_tells_positions_apart() {
    let a = Position::setup();
    let mut b = a;
    assert_eq!(a.tabulation_hash(), b.tabulation_hash());
    b.flip_to_move();
    assert_ne!(a.tabulation_hash(), b.tabulation_hash());
    let mut c = a;
    c.apply_move(c.valid_moves()[0]);
    assert_ne!(a.tabulation_hash(), c.tabulation_hash());
}

#[test]
fn score_arithmetic() {
    assert_eq!(Score::win_now(Player::White), Score(10000));
    assert_eq!(Score::win_now(Player::Black), Score(-10000));
    assert!(Score::finite(4999).is_finite());
    assert!(Score(-4999).is_finite());
    assert!(!Score(5000).is_finite());
    assert!(!Score(-5000).is_finite());
    assert_eq!(Score(123).propagate(), Score(123));
    assert_eq!(Score(10000).propagate(), Score(9990));
    assert_eq!(Score(-10000).propagate(), Score(-9990));
    assert_eq!(Score(-9990).propagate(), Score(-9980));
    assert_eq!(Score(10000).moves(), 0);
    assert_eq!(Score(9970).moves(), 3);
    assert_eq!(Score(-9980).moves(), 2);
    assert_eq!(Score(0).sign_char(), '+');
    assert_eq!(Score(-1).sign_char(), '-');
    assert_eq!(Score(3).max(Score(4)), Score(4));
    assert_eq!(Score(3).min(Score(4)), Score(3));
    assert_eq!(Score::even(), Score(0));
    assert_eq!(EvalResult::immediate(Score(7)), EvalResult { score: Score(7), nodes: 1 });
}

#[test]
fn table_keeps_the_deepest() {
    let mut t = TranspositionalTable::new();
    assert_eq!(t.query(1, 0), None);
    t.insert(1, 3, Score(10));
    assert_eq!(t.query(1, 3), Some(Score(10)));
    assert_eq!(t.query(1, 2), Some(Score(10)));
    assert_eq!(t.query(1, 4), None);
    t.insert(1, 2, Score(20));
    assert_eq!(t.query(1, 0), Some(Score(10)));
    t.insert(1, 3, Score(30));
    assert_eq!(t.query(1, 0), Some(Score(10)));
    t.insert(1, 5, Score(40));
    assert_eq!(t.query(1, 4), Some(Score(40)));
    assert_eq!(t.query(2, 0), None);
}

#[test]
fn setup_is_level_but_for_the_move() {
    let p = Position::setup();
    assert_eq!(p.mobility(Player::White), p.mobility(Player::Black));
    assert_eq!(p.material(Player::White), 240);
    assert_eq!(p.material(Player::Black), 240);
    assert_eq!(p.passed_flat_distance(Player::White), 8);
    assert_eq!(p.passed_flat_distance(Player::Black), 8);
    assert_eq!(p.eval_heuristic(), Score(5));
    let mut q = p;
    q.flip_to_move();
    assert_eq!(q.eval_heuristic(), Score(-5));
}

#[test]
fn estimate_of_a_flat_piece_that_comes_through() {
    let one = position(
        Player::White,
        &[(29, Species::Flat)],
        &[(2, Species::Lone(Tall::Hand))],
    );
    assert_eq!(one.mobility(Player::White), 3);
    assert_eq!(one.mobility(Player::Black), 2);
    assert_eq!(one.passed_flat_distance(Player::White), 1);
    assert_eq!(one.passed_flat_distance(Player::Black), 8);
    assert_eq!(one.passed_flat_score(Player::White), 2000);
    assert_eq!(one.eval_heuristic(), Score(2006));
    let mut waiting = one;
    waiting.flip_to_move();
    assert_eq!(waiting.passed_flat_score(Player::White), 1000);
    assert_eq!(waiting.eval_heuristic(), Score(996));

    let two = position(
        Player::White,
        &[(28, Species::Flat)],
        &[(2, Species::Lone(Tall::Hand))],
    );
    assert_eq!(two.passed_flat_distance(Player::White), 2);
    assert_eq!(two.eval_heuristic(), Score(306));

    let three = position(
        Player::White,
        &[(27, Species::Flat)],
        &[(2, Species::Lone(Tall::Hand))],
    );
    assert_eq!(three.passed_flat_distance(Player::White), 3);
    assert_eq!(three.passed_flat_score(Player::White), 100);

    let blocked = position(
        Player::White,
        &[(28, Species::Flat)],
        &[(29, Species::Lone(Tall::Hand)), (17, Species::Lone(Tall::Hand)), (40, Species::Lone(Tall::Hand))],
    );
    assert_eq!(blocked.passed_flat_distance(Player::White), 8);

    let keeper = position(
        Player::White,
        &[(29, Species::Flat)],
        &[(30, Species::Lone(Tall::Hand))],
    );
    assert_eq!(keeper.passed_flat_distance(Player::White), 1);
}

#[test]
fn a_threatened_piece_counts_for_nothing() {
    let p = position(
        Player::White,
        &[(26, Species::Flat), (15, Species::Flat)],
        &[(27, Species::Lone(Tall::Star))],
    );
    assert_eq!(p.material(Player::Black), 0);
    assert_eq!(p.material(Player::White), 40);
    let q = position(
        Player::White,
        &[(26, Species::Flat)],
        &[(27, Species::Lone(Tall::Star))],
    );
    assert_eq!(q.material(Player::Black), 30);
}

#[test]
fn a_side_to_move_without_a_move_has_lost_by_the_estimate() {
    let p = position(Player::White, &[], &[(27, Species::Lone(Tall::Star))]);
    assert_eq!(p.eval_heuristic(), Score::win_now(Player::Black));
    let q = position(Player::White, &[(27, Species::Lone(Tall::Star))], &[]);
    assert_eq!(q.mobility(Player::White), 6);
    assert_eq!(q.mobility(Player::Black), 0);
    assert_eq!(q.eval_heuristic(), Score(41));
    let mut r = q;
    r.flip_to_move();
    assert_eq!(r.eval_heuristic(), Score::win_now(Player::White));
}

#[test]
fn only_legal_moves_count_as_freedom_of_movement() {
    let p = position(
        Player::White,
        &[(26, Species::Flat), (27, Species::Flat)],
        &[(38, Species::Lone(Tall::Hand))],
    );
    assert_eq!(p.mobility(Player::White), 4);
    assert_eq!(p.mobility(Player::White) as usize, p.valid_moves_for(Player::White).len());
    assert_eq!(p.mobility(Player::Black) as usize, p.valid_moves_for(Player::Black).len());
}

#[test]
fn depth_zero_gives_every_move_the_level_score() {
    let p = Position::setup();
    let mut table = TranspositionalTable::new();
    let scored = p.moves_with_score(0, &mut table);
    let moves = p.valid_moves();
    assert_eq!(scored.len(), moves.len());
    for (m, e) in &scored {
        assert!(moves.contains(m));
        assert_eq!(*e, EvalResult { score: Score(0), nodes: 0 });
    }
    for m in &moves {
        assert!(scored.iter().any(|(s, _)| s == m));
    }
}

#[test]
fn shuffling_changes_the_order() {
    let p = Position::setup();
    let generated: Vec<Ply> = p.valid_moves();
    let mut changed = false;
    for _ in 0..50 {
        let mut table = TranspositionalTable::new();
        let order: Vec<Ply> = p.moves_with_score(0, &mut table).into_iter().map(|(m, _)| m).collect();
        if order != generated {
            changed = true;
        }
    }
    assert!(changed);
}

#[test]
fn search_at_depth_zero_is_the_estimate() {
    let p = Position::setup();
    let mut table = TranspositionalTable::new();
    let r = p.eval(0, &mut table);
    assert_eq!(r, EvalResult { score: p.eval_heuristic(), nodes: 1 });
    let r = p.eval_alphabeta(0, Score(-10000), Score(10000), &mut table, 0);
    assert_eq!(r.score, Score(5));
}

#[test]
fn search_uses_what_the_table_holds() {
    let p = Position::setup();
    let mut table = TranspositionalTable::new();
    table.insert(p.tabulation_hash(), 7, Score(1234));
    let r = p.eval(3, &mut table);
    assert_eq!(r, EvalResult { score: Score(1234), nodes: 1 });
    let r = p.eval(8, &mut table);
    assert_ne!(r.score, Score(1234));
}

#[test]
fn moves_come_best_first() {
    for depth in 1..=3usize {
        for flip in [false, true] {
            let mut p = Position::setup();
            if flip {
                p.flip_to_move();
            }
            let mut table = TranspositionalTable::new();
            let scored = p.moves_with_score(depth, &mut table);
            let moves = p.valid_moves();
            assert_eq!(scored.len(), moves.len());
            for m in &moves {
                assert_eq!(scored.iter().filter(|(s, _)| s == m).count(), 1);
            }
            for pair in scored.windows(2) {
                match p.to_play() {
                    Player::White => assert!(pair[0].1.score.0 >= pair[1].1.score.0),
                    Player::Black => assert!(pair[0].1.score.0 <= pair[1].1.score.0),
                }
            }
        }
    }
}

#[test]
fn two_runs_agree_on_the_best_score() {
    let p = Position::setup();
    for depth in 0..=3usize {
        let mut first_table = TranspositionalTable::new();
        let first = p.moves_with_score(depth, &mut first_table);
        let mut second_table = TranspositionalTable::new();
        let second = p.moves_with_score(depth, &mut second_table);
        assert_eq!(first[0].1.score, second[0].1.score);
        let mut a: Vec<(u8, u8, i32, usize)> =
            first.iter().map(|(m, e)| (m.from_tile.code(), m.to_tile.code(), e.score.0, e.nodes)).collect();
        let mut b: Vec<(u8, u8, i32, usize)> =
            second.iter().map(|(m, e)| (m.from_tile.code(), m.to_tile.code(), e.score.0, e.nodes)).collect();
        a.sort();
        b.sort();
        assert_eq!(a, b);
    }
}

#[test]
fn a_win_in_one_is_found() {
    let p = position(
        Player::White,
        &[(29, Species::Flat)],
        &[(2, Species::Lone(Tall::Hand))],
    );
    let mut table = TranspositionalTable::new();
    let scored = p.moves_with_score(1, &mut table);
    assert_eq!(scored[0].0, ply(29, 30));
    assert_eq!(scored[0].1.score, Score(10000));
    let mut table = TranspositionalTable::new();
    let r = p.eval(1, &mut table);
    assert_eq!(r.score, Score(9990));
    let mut table = TranspositionalTable::new();
    let r = p.eval(2, &mut table);
    assert_eq!(r.score, Score(9990));
    assert!(r.nodes > 1);
}

#[test]
fn a_won_position_has_no_move_to_score() {
    let p = position(
        Player::White,
        &[(27, Species::Lone(Tall::Star))],
        &[(24, Species::Flat)],
    );
    let mut table = TranspositionalTable::new();
    assert!(p.moves_with_score(2, &mut table).is_empty());
    let r = p.eval(2, &mut table);
    assert_eq!(r, EvalResult { score: Score(-10000), nodes: 1 });
}

#[test]
fn ranking_keeps_the_order_of_equal_scores() {
    let e = |s: i32, n: usize| EvalResult { score: Score(s), nodes: n };
    let list = vec![
        (ply(2, 3), e(5, 0)),
        (ply(3, 4), e(7, 1)),
        (ply(4, 5), e(5, 2)),
        (ply(5, 6), e(9, 3)),
        (ply(13, 14), e(7, 4)),
    ];
    let white: Vec<usize> = rank(list.clone(), Player::White).iter().map(|(_, r)| r.nodes).collect();
    assert_eq!(white, vec![3, 1, 4, 0, 2]);
    let black: Vec<usize> = rank(list.clone(), Player::Black).iter().map(|(_, r)| r.nodes).collect();
    assert_eq!(black, vec![0, 2, 1, 4, 3]);
    let ranked = rank_moves(list.clone(), Player::White);
    let scores: Vec<i32> = ranked.iter().map(|(_, r)| r.score.0).collect();
    assert_eq!(scores, vec![9, 7, 7, 5, 5]);
    assert!(rank(Vec::new(), Player::White).is_empty());
}
