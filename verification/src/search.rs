//! The search: alpha-beta over the legal moves, with the table of earlier
//! results and with replies to captures searched at full depth.

use vstd::prelude::*;
use crate::board::Player;
use crate::position::{lemma_valid_moves, Position};
use crate::ranking::{best_first, lemma_ranked, plies_of, rank, ranked};
use crate::score::{EvalResult, Score};
use crate::table::{table_insert, table_query, TranspositionalTable};
use crate::tile::Ply;

verus! {

/// A chain of captures is followed at full depth for this many plies.
pub const MAX_QSEARCH_DEPTH: usize = 2;

/// Number of plies for which a chain of captures may still be followed at
/// full depth, after `q` such plies.
pub open spec fn q_room(q: usize) -> nat {
    if q < MAX_QSEARCH_DEPTH {
        (MAX_QSEARCH_DEPTH - q) as nat
    } else {
        0
    }
}

/// The sum of two counts of nodes, which stops at the largest `usize`.
pub open spec fn add_nodes(a: usize, b: usize) -> usize {
    if a + b > usize::MAX {
        usize::MAX
    } else {
        (a + b) as usize
    }
}

/// What the search of a node returns, and the table that it leaves.
///
/// A result on record in the table that is deep enough is returned as it
/// stands. A position that is won, and any position at depth zero, gets its
/// static score. A side without a legal move has lost. Else the moves are
/// searched in turn: in the order of generation at depth one, and deeper in
/// the order of their scores from a search two plies shallower.
pub open spec fn search(
    pos: Position,
    depth: usize,
    alpha: Score,
    beta: Score,
    cache: Map<u64, (usize, Score)>,
    q: usize,
) -> (EvalResult, Map<u64, (usize, Score)>)
    decreases depth, q_room(q), 2nat, 0nat,
{
    match table_query(cache, pos.spec_hash(), depth) {
        Some(score) => (EvalResult { score, nodes: 1 }, cache),
        None => {
            let heuristic = pos.spec_eval_heuristic();
            if !heuristic.spec_is_finite() || depth == 0 {
                (EvalResult { score: heuristic, nodes: 1 }, cache)
            } else {
                let moves = pos.spec_valid_moves();
                let lost = Score::spec_win_now(pos.to_play.other());
                if moves.len() == 0 {
                    (EvalResult { score: lost, nodes: 1 }, cache)
                } else if depth == 1 {
                    scan(pos, moves, 0, depth, alpha, beta, cache, q, lost, 1)
                } else {
                    let pre = graded(pos, moves, 0, (depth - 2) as usize, alpha, beta, cache, q);
                    scan(
                        pos,
                        plies_of(ranked(pre.0, pos.to_play)),
                        0,
                        depth,
                        alpha,
                        beta,
                        pre.1,
                        q,
                        lost,
                        1,
                    )
                }
            }
        },
    }
}

/// The moves from the `i`-th on, each with the result of a search of the
/// position that it leads to, `sub_depth` deep, and the table that these
/// searches leave. The searches run in the order of the moves, each on the
/// table that the one before it left.
pub open spec fn graded(
    pos: Position,
    moves: Seq<Ply>,
    i: nat,
    sub_depth: usize,
    alpha: Score,
    beta: Score,
    cache: Map<u64, (usize, Score)>,
    q: usize,
) -> (Seq<(Ply, EvalResult)>, Map<u64, (usize, Score)>)
    decreases sub_depth, q_room(q), 3nat, moves.len() - i,
{
    if i >= moves.len() {
        (Seq::empty(), cache)
    } else {
        let sub = search(pos.after(moves[i as int]), sub_depth, alpha, beta, cache, q);
        let rest = graded(pos, moves, i + 1, sub_depth, alpha, beta, sub.1, q);
        (seq![(moves[i as int], sub.0)] + rest.0, rest.1)
    }
}

/// What the search of a node returns once it has come to the `i`-th of its
/// moves with the bounds `alpha` and `beta`, the best score `value` so far
/// and `nodes` nodes counted.
///
/// The reply to a move is searched one ply shallower; the reply to a
/// capture at the same depth, as long as the chain of such captures is
/// shorter than [`MAX_QSEARCH_DEPTH`]. Its result is offered to the table
/// and then seen from one ply earlier. White keeps the highest score and
/// stops where it reaches `beta`; Black keeps the lowest and stops where it
/// falls to `alpha`.
pub open spec fn scan(
    pos: Position,
    moves: Seq<Ply>,
    i: nat,
    depth: usize,
    alpha: Score,
    beta: Score,
    cache: Map<u64, (usize, Score)>,
    q: usize,
    value: Score,
    nodes: usize,
) -> (EvalResult, Map<u64, (usize, Score)>)
    decreases depth, q_room(q), 1nat, moves.len() - i,
{
    if i >= moves.len() || depth == 0 {
        (EvalResult { score: value, nodes }, cache)
    } else {
        let ply = moves[i as int];
        let child = pos.after(ply);
        let nonquiescent = q < MAX_QSEARCH_DEPTH && pos.captures(ply);
        let sub_depth = if nonquiescent {
            depth
        } else {
            (depth - 1) as usize
        };
        let sub_q = if nonquiescent {
            (q + 1) as usize
        } else {
            q
        };
        let sub = search(child, sub_depth, alpha, beta, cache, sub_q);
        let cache2 = table_insert(sub.1, child.spec_hash(), sub_depth, sub.0.score);
        let sub_score = sub.0.score.spec_propagate();
        let nodes2 = add_nodes(nodes, sub.0.nodes);
        let value2 = match pos.to_play {
            Player::White => value.spec_max(sub_score),
            Player::Black => value.spec_min(sub_score),
        };
        let cut = match pos.to_play {
            Player::White => value2.0 >= beta.0,
            Player::Black => value2.0 <= alpha.0,
        };
        if cut {
            (EvalResult { score: value2, nodes: nodes2 }, cache2)
        } else {
            scan(
                pos,
                moves,
                i + 1,
                depth,
                match pos.to_play {
                    Player::White => alpha.spec_max(value2),
                    Player::Black => alpha,
                },
                match pos.to_play {
                    Player::White => beta,
                    Player::Black => beta.spec_min(value2),
                },
                cache2,
                q,
                value2,
                nodes2,
            )
        }
    }
}

/// The score of a position from a search `depth` deep with the widest
/// bounds, and the table that the search leaves.
pub open spec fn evaluated(pos: Position, depth: usize, cache: Map<u64, (usize, Score)>) -> (
    EvalResult,
    Map<u64, (usize, Score)>,
) {
    search(
        pos,
        depth,
        Score::spec_win_now(Player::Black),
        Score::spec_win_now(Player::White),
        cache,
        0,
    )
}

/// The legal moves of a position with their scores from a search `depth`
/// deep, in the order of generation, and the table that the searches leave.
/// At depth zero no move is searched and each gets the level score. A
/// position that is won has no move to score.
pub open spec fn scored_moves(pos: Position, depth: usize, cache: Map<u64, (usize, Score)>) -> (
    Seq<(Ply, EvalResult)>,
    Map<u64, (usize, Score)>,
) {
    if depth == 0 {
        (
            Seq::new(
                pos.spec_valid_moves().len(),
                |i: int| (pos.spec_valid_moves()[i], EvalResult { score: Score(0), nodes: 0 }),
            ),
            cache,
        )
    } else if !pos.spec_eval_heuristic().spec_is_finite() {
        (Seq::empty(), cache)
    } else {
        graded(
            pos,
            pos.spec_valid_moves(),
            0,
            (depth - 1) as usize,
            Score::spec_win_now(Player::Black),
            Score::spec_win_now(Player::White),
            cache,
            0,
        )
    }
}

/// Whether `list` is a ranking of the scored moves `scored` for `side`: it
/// holds the same entries, each as often, the best for `side` first.
pub open spec fn is_ranking(
    list: Seq<(Ply, EvalResult)>,
    scored: Seq<(Ply, EvalResult)>,
    side: Player,
) -> bool {
    list.to_multiset() == scored.to_multiset() && best_first(list, side)
}

/// The graded moves are the moves from the `i`-th on, in their order.
pub proof fn lemma_graded_plies(
    pos: Position,
    moves: Seq<Ply>,
    i: nat,
    sub_depth: usize,
    alpha: Score,
    beta: Score,
    cache: Map<u64, (usize, Score)>,
    q: usize,
)
    requires
        i <= moves.len(),
    ensures
        graded(pos, moves, i, sub_depth, alpha, beta, cache, q).0.len() == moves.len() - i,
        forall|k: int|
            0 <= k < moves.len() - i ==> (#[trigger] graded(
                pos,
                moves,
                i,
                sub_depth,
                alpha,
                beta,
                cache,
                q,
            ).0[k]).0 == moves[i + k],
    decreases moves.len() - i,
{
    if i < moves.len() {
        let sub = search(pos.after(moves[i as int]), sub_depth, alpha, beta, cache, q);
        lemma_graded_plies(pos, moves, i + 1, sub_depth, alpha, beta, sub.1, q);
    }
}

/// Shuffles the list with `rand`'s `SliceRandom::shuffle` and the thread's
/// generator. The order that comes out is not known; the list holds the
/// same entries as before, each as often.
#[verifier::external_body]
fn shuffle_moves(list: &mut Vec<(Ply, EvalResult)>)
    ensures
        final(list)@.to_multiset() == old(list)@.to_multiset(),
{
    rand::seq::SliceRandom::shuffle(list.as_mut_slice(), &mut rand::thread_rng());
}

/// Puts scored moves in an order that is random among moves of one score,
/// the best for `side` first.
pub fn rank_moves(scored: Vec<(Ply, EvalResult)>, side: Player) -> (r: Vec<(Ply, EvalResult)>)
    ensures
        is_ranking(r@, scored@, side),
{
    let mut list = scored;
    shuffle_moves(&mut list);
    proof {
        lemma_ranked(list@, side);
    }
    rank(list, side)
}

impl Position {
    /// Searches the position `depth` plies deep with the widest bounds.
    pub fn eval(self, depth: usize, transp: &mut TranspositionalTable) -> (r: EvalResult)
        requires
            self.wf(),
        ensures
            (r, final(transp)@) == evaluated(self, depth, old(transp)@),
    {
        self.eval_alphabeta(
            depth,
            Score::win_now(Player::Black),
            Score::win_now(Player::White),
            transp,
            0,
        )
    }

    /// Searches each of `moves` in turn, `sub_depth` plies deep.
    fn grade_moves(
        self,
        moves: &Vec<Ply>,
        sub_depth: usize,
        alpha: Score,
        beta: Score,
        transp: &mut TranspositionalTable,
        qsearch_depth: usize,
    ) -> (r: Vec<(Ply, EvalResult)>)
        requires
            self.wf(),
            forall|k: int|
                0 <= k < moves@.len() ==> self.can_move(
                    self.to_play,
                    (#[trigger] moves@[k]).from_tile,
                    moves@[k].to_tile,
                ),
        ensures
            (r@, final(transp)@) == graded(
                self,
                moves@,
                0,
                sub_depth,
                alpha,
                beta,
                old(transp)@,
                qsearch_depth,
            ),
        decreases sub_depth, q_room(qsearch_depth), 3nat,
    {
        let mut out: Vec<(Ply, EvalResult)> = Vec::new();
        let mut i: usize = 0;
        let ghost goal = graded(
            self,
            moves@,
            0,
            sub_depth,
            alpha,
            beta,
            old(transp)@,
            qsearch_depth,
        );
        assert(out@ + goal.0 =~= goal.0);
        while i < moves.len()
            invariant
                i <= moves@.len(),
                self.wf(),
                forall|k: int|
                    0 <= k < moves@.len() ==> self.can_move(
                        self.to_play,
                        (#[trigger] moves@[k]).from_tile,
                        moves@[k].to_tile,
                    ),
                goal.0 == out@ + graded(
                    self,
                    moves@,
                    i as nat,
                    sub_depth,
                    alpha,
                    beta,
                    transp@,
                    qsearch_depth,
                ).0,
                goal.1 == graded(
                    self,
                    moves@,
                    i as nat,
                    sub_depth,
                    alpha,
                    beta,
                    transp@,
                    qsearch_depth,
                ).1,
            decreases moves@.len() - i,
        {
            let ply = moves[i];
            let mut copy = self;
            copy.apply_move(ply);
            let ghost before = transp@;
            let ghost old_out = out@;
            let result = copy.eval_alphabeta(sub_depth, alpha, beta, transp, qsearch_depth);
            out.push((ply, result));
            proof {
                let rest = graded(
                    self,
                    moves@,
                    (i + 1) as nat,
                    sub_depth,
                    alpha,
                    beta,
                    transp@,
                    qsearch_depth,
                );
                let here = graded(
                    self,
                    moves@,
                    i as nat,
                    sub_depth,
                    alpha,
                    beta,
                    before,
                    qsearch_depth,
                );
                assert(here.0 == seq![(ply, result)] + rest.0);
                assert(old_out + here.0 =~= out@ + rest.0);
            }
            i += 1;
        }
        assert(out@ + Seq::<(Ply, EvalResult)>::empty() =~= out@);
        out
    }

    /// Searches the position `depth` plies deep within the bounds `alpha`
    /// and `beta`, after `qsearch_depth` plies of a chain of captures.
    pub fn eval_alphabeta(
        self,
        depth: usize,
        alpha: Score,
        beta: Score,
        transp: &mut TranspositionalTable,
        qsearch_depth: usize,
    ) -> (r: EvalResult)
        requires
            self.wf(),
        ensures
            (r, final(transp)@) == search(self, depth, alpha, beta, old(transp)@, qsearch_depth),
        decreases depth, q_room(qsearch_depth), 2nat,
    {
        if let Some(score) = transp.query(self.tabulation_hash(), depth) {
            return EvalResult { score, nodes: 1 };
        }
        let heuristic = self.eval_heuristic();
        if !heuristic.is_finite() {
            return EvalResult::immediate(heuristic);
        }
        if depth == 0 {
            return EvalResult::immediate(heuristic);
        }
        let unsorted_moves = self.valid_moves();
        if unsorted_moves.len() == 0 {
            return EvalResult::immediate(Score::win_now(self.to_play.flip()));
        }
        proof {
            lemma_valid_moves(self, self.to_play);
            assert forall|k: int| 0 <= k < unsorted_moves@.len() implies self.can_move(
                self.to_play,
                (#[trigger] unsorted_moves@[k]).from_tile,
                unsorted_moves@[k].to_tile,
            ) by {
                assert(self.spec_valid_moves_for(self.to_play).contains(unsorted_moves@[k]));
            }
        }
        let sorted_moves = if depth == 1 {
            unsorted_moves
        } else {
            let moves_heuristic = self.grade_moves(
                &unsorted_moves,
                depth - 2,
                alpha,
                beta,
                transp,
                qsearch_depth,
            );
            let ordered = rank(moves_heuristic, self.to_play);
            let mut plies: Vec<Ply> = Vec::new();
            let mut k: usize = 0;
            proof {
                lemma_ranked(moves_heuristic@, self.to_play);
                lemma_graded_plies(
                    self,
                    unsorted_moves@,
                    0,
                    (depth - 2) as usize,
                    alpha,
                    beta,
                    old(transp)@,
                    qsearch_depth,
                );
            }
            while k < ordered.len()
                invariant
                    k <= ordered@.len(),
                    plies@.len() == k,
                    forall|j: int| 0 <= j < k ==> #[trigger] plies@[j] == ordered@[j].0,
                decreases ordered@.len() - k,
            {
                plies.push(ordered[k].0);
                k += 1;
            }
            proof {
                assert(plies@ =~= plies_of(ordered@));
                assert forall|k: int| 0 <= k < plies@.len() implies self.can_move(
                    self.to_play,
                    (#[trigger] plies@[k]).from_tile,
                    plies@[k].to_tile,
                ) by {
                    let j = choose|j: int|
                        0 <= j < moves_heuristic@.len() && ordered@[k] == moves_heuristic@[j];
                    assert(moves_heuristic@[j].0 == unsorted_moves@[0 + j]);
                }
            }
            plies
        };
        self.scan_moves(&sorted_moves, depth, alpha, beta, transp, qsearch_depth)
    }

    /// Searches the replies to `moves` in turn and keeps the best score,
    /// until one falls outside the bounds.
    fn scan_moves(
        self,
        moves: &Vec<Ply>,
        depth: usize,
        alpha: Score,
        beta: Score,
        transp: &mut TranspositionalTable,
        qsearch_depth: usize,
    ) -> (r: EvalResult)
        requires
            self.wf(),
            depth > 0,
            forall|k: int|
                0 <= k < moves@.len() ==> self.can_move(
                    self.to_play,
                    (#[trigger] moves@[k]).from_tile,
                    moves@[k].to_tile,
                ),
        ensures
            (r, final(transp)@) == scan(
                self,
                moves@,
                0,
                depth,
                alpha,
                beta,
                old(transp)@,
                qsearch_depth,
                Score::spec_win_now(self.to_play.other()),
                1,
            ),
        decreases depth, q_room(qsearch_depth), 1nat,
    {
        let mut alpha = alpha;
        let mut beta = beta;
        let mut value = Score::win_now(self.to_play.flip());
        let mut nodes_count: usize = 1;
        let mut i: usize = 0;
        let ghost goal = scan(
            self,
            moves@,
            0,
            depth,
            alpha,
            beta,
            old(transp)@,
            qsearch_depth,
            value,
            1,
        );
        while i < moves.len()
            invariant_except_break
                goal == scan(
                    self,
                    moves@,
                    i as nat,
                    depth,
                    alpha,
                    beta,
                    transp@,
                    qsearch_depth,
                    value,
                    nodes_count,
                ),
            invariant
                i <= moves@.len(),
                self.wf(),
                depth > 0,
                forall|k: int|
                    0 <= k < moves@.len() ==> self.can_move(
                        self.to_play,
                        (#[trigger] moves@[k]).from_tile,
                        moves@[k].to_tile,
                    ),
            ensures
                goal == (EvalResult { score: value, nodes: nodes_count }, transp@),
            decreases moves@.len() - i,
        {
            let m = moves[i];
            let mut copy = self;
            let application_report = copy.apply_move(m);
            let nonquiescent = qsearch_depth < MAX_QSEARCH_DEPTH
                && application_report.has_captured;
            let sub_depth = if nonquiescent {
                depth
            } else {
                depth - 1
            };
            let sub_qsearch_depth = if nonquiescent {
                qsearch_depth + 1
            } else {
                qsearch_depth
            };
            let sub_tabhash = copy.tabulation_hash();
            let sub_result = copy.eval_alphabeta(sub_depth, alpha, beta, transp, sub_qsearch_depth);
            transp.insert(sub_tabhash, sub_depth, sub_result.score);
            let sub_score = sub_result.score.propagate();
            nodes_count = nodes_count.saturating_add(sub_result.nodes);
            value = match self.to_play {
                Player::White => value.max(sub_score),
                Player::Black => value.min(sub_score),
            };
            match self.to_play {
                Player::White => {
                    if value.0 >= beta.0 {
                        break ;
                    }
                    alpha = alpha.max(value);
                },
                Player::Black => {
                    if value.0 <= alpha.0 {
                        break ;
                    }
                    beta = beta.min(value);
                },
            }
            i += 1;
        }
        EvalResult { score: value, nodes: nodes_count }
    }

    /// The legal moves with their scores from a search `depth` plies deep,
    /// the best for the side to move first. The order among moves of one
    /// score is random.
    pub fn moves_with_score(self, depth: usize, transp: &mut TranspositionalTable) -> (r: Vec<
        (Ply, EvalResult),
    >)
        requires
            self.wf(),
        ensures
            is_ranking(r@, scored_moves(self, depth, old(transp)@).0, self.to_play),
            final(transp)@ == scored_moves(self, depth, old(transp)@).1,
    {
        if depth == 0 {
            let moves = self.valid_moves();
            let mut depth0_moves: Vec<(Ply, EvalResult)> = Vec::new();
            let mut k: usize = 0;
            while k < moves.len()
                invariant
                    k <= moves@.len(),
                    depth0_moves@.len() == k,
                    forall|j: int|
                        0 <= j < k ==> #[trigger] depth0_moves@[j] == (
                            moves@[j],
                            EvalResult { score: Score(0), nodes: 0 },
                        ),
                decreases moves@.len() - k,
            {
                depth0_moves.push((moves[k], EvalResult { score: Score::even(), nodes: 0 }));
                k += 1;
            }
            assert(depth0_moves@ =~= scored_moves(self, depth, transp@).0);
            shuffle_moves(&mut depth0_moves);
            proof {
                lemma_level_is_best_first(depth0_moves@, scored_moves(self, depth, transp@).0, self.to_play);
            }
            return depth0_moves;
        }
        let heuristic = self.eval_heuristic();
        if !heuristic.is_finite() {
            let none: Vec<(Ply, EvalResult)> = Vec::new();
            assert(none@ =~= Seq::<(Ply, EvalResult)>::empty());
            assert(best_first(none@, self.to_play));
            return none;
        }
        let moves = self.valid_moves();
        proof {
            lemma_valid_moves(self, self.to_play);
            assert forall|k: int| 0 <= k < moves@.len() implies self.can_move(
                self.to_play,
                (#[trigger] moves@[k]).from_tile,
                moves@[k].to_tile,
            ) by {
                assert(self.spec_valid_moves_for(self.to_play).contains(moves@[k]));
            }
        }
        let scored = self.grade_moves(
            &moves,
            depth - 1,
            Score::win_now(Player::Black),
            Score::win_now(Player::White),
            transp,
            0,
        );
        rank_moves(scored, self.to_play)
    }
}

/// A list in which every score is the level score has the best first,
/// whatever its order.
proof fn lemma_level_is_best_first(
    list: Seq<(Ply, EvalResult)>,
    scored: Seq<(Ply, EvalResult)>,
    side: Player,
)
    requires
        list.to_multiset() == scored.to_multiset(),
        forall|j: int| 0 <= j < scored.len() ==> (#[trigger] scored[j]).1.score == Score(0),
    ensures
        best_first(list, side),
{
    broadcast use vstd::seq_lib::group_to_multiset_ensures;

    assert forall|i: int| 0 <= i < list.len() implies (#[trigger] list[i]).1.score == Score(0) by {
        assert(list.contains(list[i]));
        assert(scored.to_multiset().count(list[i]) > 0);
        assert(scored.contains(list[i]));
    }
}

} // verus!
