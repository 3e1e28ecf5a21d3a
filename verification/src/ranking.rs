//! Lists of moves with their scores, put in order of the scores.

use vstd::prelude::*;
use vstd::seq_lib::group_to_multiset_ensures;
use crate::board::Player;
use crate::score::EvalResult;
use crate::tile::Ply;

verus! {

/// Whether each entry of the list is at least as good for `side` as the
/// entries behind it.
pub open spec fn best_first(s: Seq<(Ply, EvalResult)>, side: Player) -> bool {
    forall|i: int, j: int|
        0 <= i < j < s.len() ==> (#[trigger] s[i]).1.score.no_worse((#[trigger] s[j]).1.score, side)
}

/// The first place from `from` on at which the list holds an entry that is
/// worse for `side` than `x`; the length of the list where there is none.
pub open spec fn first_worse(
    s: Seq<(Ply, EvalResult)>,
    x: (Ply, EvalResult),
    side: Player,
    from: nat,
) -> nat
    decreases s.len() - from,
{
    if from >= s.len() {
        s.len()
    } else if !s[from as int].1.score.no_worse(x.1.score, side) {
        from
    } else {
        first_worse(s, x, side, from + 1)
    }
}

/// The list in order of the scores, the best for `side` first. Entries with
/// one score keep the order in which they stood.
pub open spec fn ranked(s: Seq<(Ply, EvalResult)>, side: Player) -> Seq<(Ply, EvalResult)>
    decreases s.len(),
{
    if s.len() == 0 {
        s
    } else {
        let head = ranked(s.drop_last(), side);
        head.insert(first_worse(head, s.last(), side, 0) as int, s.last())
    }
}

/// The moves of a list of scored moves.
pub open spec fn plies_of(s: Seq<(Ply, EvalResult)>) -> Seq<Ply> {
    Seq::new(s.len(), |i: int| s[i].0)
}

proof fn lemma_first_worse(s: Seq<(Ply, EvalResult)>, x: (Ply, EvalResult), side: Player, from: nat)
    requires
        from <= s.len(),
    ensures
        from <= first_worse(s, x, side, from) <= s.len(),
        forall|i: int|
            from <= i < first_worse(s, x, side, from) ==> (#[trigger] s[i]).1.score.no_worse(
                x.1.score,
                side,
            ),
        first_worse(s, x, side, from) < s.len() ==> !s[first_worse(
            s,
            x,
            side,
            from,
        ) as int].1.score.no_worse(x.1.score, side),
    decreases s.len() - from,
{
    if from < s.len() && s[from as int].1.score.no_worse(x.1.score, side) {
        lemma_first_worse(s, x, side, from + 1);
    }
}

/// What is known of [`ranked`]: it holds the entries of the list, each as
/// often as the list does, the best for `side` first.
pub proof fn lemma_ranked(s: Seq<(Ply, EvalResult)>, side: Player)
    ensures
        ranked(s, side).len() == s.len(),
        ranked(s, side).to_multiset() == s.to_multiset(),
        best_first(ranked(s, side), side),
        forall|k: int|
            0 <= k < s.len() ==> exists|j: int|
                0 <= j < s.len() && #[trigger] ranked(s, side)[k] == s[j],
    decreases s.len(),
{
    broadcast use group_to_multiset_ensures;

    if s.len() == 0 {
    } else {
        let init = s.drop_last();
        let x = s.last();
        lemma_ranked(init, side);
        let head = ranked(init, side);
        let p = first_worse(head, x, side, 0) as int;
        lemma_first_worse(head, x, side, 0);
        let out = head.insert(p, x);
        assert(out == ranked(s, side));
        assert(out.remove(p) =~= head);
        assert(out[p] == x);
        assert(out.to_multiset() =~= head.to_multiset().insert(x)) by {
            assert(out.remove(p).to_multiset() =~= out.to_multiset().remove(out[p]));
            assert(out.contains(x));
            assert(out.to_multiset().count(x) > 0);
        }
        assert(s =~= init.push(x));
        assert(s.to_multiset() =~= init.to_multiset().insert(x));
        assert forall|i: int, j: int| 0 <= i < j < out.len() implies (#[trigger] out[i]).1.score.no_worse(
            (#[trigger] out[j]).1.score,
            side,
        ) by {
            if j < p {
                assert(out[i] == head[i] && out[j] == head[j]);
            } else if j == p {
                assert(out[i] == head[i]);
            } else if i < p {
                assert(out[i] == head[i] && out[j] == head[j - 1]);
            } else if i == p {
                assert(out[j] == head[j - 1]);
                assert(!head[p].1.score.no_worse(x.1.score, side));
                if j - 1 > p {
                    assert(head[p].1.score.no_worse(head[j - 1].1.score, side));
                }
            } else {
                assert(out[i] == head[i - 1] && out[j] == head[j - 1]);
            }
        }
        assert forall|k: int| 0 <= k < s.len() implies exists|j: int|
            0 <= j < s.len() && #[trigger] out[k] == s[j] by {
            if k == p {
                assert(out[k] == s[s.len() - 1]);
            } else {
                let h = if k < p {
                    k
                } else {
                    k - 1
                };
                assert(out[k] == head[h]);
                let j = choose|j: int| 0 <= j < init.len() && head[h] == init[j];
                assert(init[j] == s[j]);
            }
        }
    }
}

/// Two lists that hold the same scored moves, each with the best for `side`
/// first, begin with the same score.
pub proof fn lemma_best_is_unique(
    a: Seq<(Ply, EvalResult)>,
    b: Seq<(Ply, EvalResult)>,
    side: Player,
)
    requires
        a.to_multiset() == b.to_multiset(),
        best_first(a, side),
        best_first(b, side),
    ensures
        a.len() == b.len(),
        a.len() > 0 ==> a[0].1.score == b[0].1.score,
{
    broadcast use group_to_multiset_ensures;

    assert(a.len() == a.to_multiset().len());
    assert(b.len() == b.to_multiset().len());
    if a.len() > 0 {
        assert(a.contains(a[0]));
        assert(b.to_multiset().count(a[0]) > 0);
        assert(b.contains(a[0]));
        let j = choose|j: int| 0 <= j < b.len() && b[j] == a[0];
        assert(b.contains(b[0]));
        assert(a.to_multiset().count(b[0]) > 0);
        assert(a.contains(b[0]));
        let i = choose|i: int| 0 <= i < a.len() && a[i] == b[0];
        if j > 0 {
            assert(b[0].1.score.no_worse(b[j].1.score, side));
        }
        if i > 0 {
            assert(a[0].1.score.no_worse(a[i].1.score, side));
        }
    }
}

/// Puts the list in order of the scores, the best for `side` first. Entries
/// with one score keep their order.
pub fn rank(list: Vec<(Ply, EvalResult)>, side: Player) -> (r: Vec<(Ply, EvalResult)>)
    ensures
        r@ == ranked(list@, side),
{
    let mut out: Vec<(Ply, EvalResult)> = Vec::new();
    let mut k: usize = 0;
    while k < list.len()
        invariant
            k <= list@.len(),
            out@ == ranked(list@.take(k as int), side),
            out@.len() == k,
        decreases list@.len() - k,
    {
        let x = list[k];
        let mut p: usize = 0;
        while p < out.len() && no_worse(out[p].1, x.1, side)
            invariant
                p <= out@.len(),
                first_worse(out@, x, side, 0) == first_worse(out@, x, side, p as nat),
            decreases out@.len() - p,
        {
            p += 1;
        }
        proof {
            let prefix = list@.take(k + 1);
            assert(prefix.drop_last() =~= list@.take(k as int));
            assert(prefix.last() == x);
            lemma_ranked(list@.take(k as int), side);
        }
        out.insert(p, x);
        k += 1;
    }
    assert(list@.take(k as int) =~= list@);
    out
}

/// Whether the first result is at least as good for `side` as the second.
fn no_worse(a: EvalResult, b: EvalResult, side: Player) -> (r: bool)
    ensures
        r == a.score.no_worse(b.score, side),
{
    match side {
        Player::White => a.score.0 >= b.score.0,
        Player::Black => a.score.0 <= b.score.0,
    }
}

} // verus!
