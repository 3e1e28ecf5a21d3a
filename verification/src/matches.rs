//! A match: the position, the moves that led to it, and the name of the
//! opening that each side chose.

use vstd::prelude::*;
use crate::board::{Captured, Player, PlayerMap};
use crate::history::HistoryEntry;
use crate::notation::{parse_ply, PlyParseError};
use crate::piecemap::{lemma_piecemap_ext, PieceMap};
use crate::position::{black_at_setup, lemma_valid_moves, Position};
use crate::tile::{Ply, Tile};

verus! {

/// Why no opening can be told.
#[derive(Clone, Copy, PartialEq, Eq, Structural, Debug)]
pub enum HalfOpeningDetectionError {
    /// The match did not begin from the usual position.
    NonStandardSetup,
    /// The side has not made its second move yet.
    NotEnoughMoves,
}

/// The first two moves of one side, with the name under which they are known
/// and the pieces of White after them.
#[derive(Clone, Copy, Debug)]
pub struct HalfOpening {
    pub name: Option<&'static str>,
    pub white_moves: [Ply; 2],
    pub white_position: PieceMap,
}

/// Whether the list holds the move.
pub fn ply_in(list: &Vec<Ply>, ply: Ply) -> (r: bool)
    ensures
        r == list@.contains(ply),
{
    let mut k: usize = 0;
    while k < list.len()
        invariant
            k <= list@.len(),
            forall|j: int| 0 <= j < k ==> list@[j] != ply,
        decreases list@.len() - k,
    {
        if list[k] == ply {
            return true;
        }
        k += 1;
    }
    false
}

/// The pieces of White after it has opened with the two moves from the
/// usual position `start`, Black having answered the first with the first
/// of its legal moves; `None` where one of the moves cannot be played.
pub open spec fn opening_position(start: Position, first: Ply, second: Ply) -> Option<PieceMap> {
    if !start.spec_valid_moves().contains(first) {
        None
    } else {
        let replied = start.after(first);
        if replied.spec_valid_moves().len() == 0 {
            None
        } else {
            let answered = replied.after(replied.spec_valid_moves()[0]);
            if !answered.spec_valid_moves().contains(second) {
                None
            } else {
                Some(answered.after(second).white)
            }
        }
    }
}

impl HalfOpening {
    /// Whether the pieces on record are those that the two moves lead to.
    pub open spec fn wf(self) -> bool {
        &&& self.white_position.wf()
        &&& exists|start: Position| #[trigger]
            start.is_setup() && opening_position(start, self.white_moves[0], self.white_moves[1])
                == Some(self.white_position)
    }

    /// The opening of the two moves, where they can be played.
    pub fn new(name: Option<&'static str>, white_first_move: Ply, white_second_move: Ply) -> (r:
        Option<Self>)
        ensures
            r matches Some(h) ==> h.wf() && h.name == name && h.white_moves[0] == white_first_move
                && h.white_moves[1] == white_second_move,
            r is Some <==> exists|start: Position| #[trigger]
                start.is_setup() && opening_position(start, white_first_move, white_second_move)
                    is Some,
    {
        let mut pos = Position::setup();
        let ghost start = pos;
        proof {
            assert forall|other: Position| #[trigger] other.is_setup() implies other == start by {
                lemma_setup_is_unique(other, start);
            }
        }
        let moves = pos.valid_moves();
        if !ply_in(&moves, white_first_move) {
            return None;
        }
        proof {
            lemma_valid_moves(pos, pos.to_play);
        }
        pos.apply_move(white_first_move);
        let replies = pos.valid_moves();
        if replies.len() == 0 {
            return None;
        }
        let reply = replies[0];
        proof {
            lemma_valid_moves(pos, pos.to_play);
            assert(pos.spec_valid_moves().contains(reply));
        }
        pos.apply_move(reply);
        let seconds = pos.valid_moves();
        if !ply_in(&seconds, white_second_move) {
            return None;
        }
        proof {
            lemma_valid_moves(pos, pos.to_play);
        }
        pos.apply_move(white_second_move);
        let h = HalfOpening {
            name,
            white_moves: [white_first_move, white_second_move],
            white_position: *pos.get_pieces(Player::White),
        };
        assert(opening_position(start, white_first_move, white_second_move) == Some(
            h.white_position,
        ));
        Some(h)
    }

    /// The opening of the two moves under a name.
    pub fn named(name: &'static str, white_first_move: Ply, white_second_move: Ply) -> (r: Option<
        Self,
    >)
        ensures
            r matches Some(h) ==> h.wf() && h.name == Some(name) && h.white_moves[0]
                == white_first_move && h.white_moves[1] == white_second_move,
            r is Some <==> exists|start: Position| #[trigger]
                start.is_setup() && opening_position(start, white_first_move, white_second_move)
                    is Some,
    {
        Self::new(Some(name), white_first_move, white_second_move)
    }

    /// The opening of the two moves without a name.
    pub fn anon(white_first_move: Ply, white_second_move: Ply) -> (r: Option<Self>)
        ensures
            r matches Some(h) ==> h.wf() && h.name is None && h.white_moves[0] == white_first_move
                && h.white_moves[1] == white_second_move,
            r is Some <==> exists|start: Position| #[trigger]
                start.is_setup() && opening_position(start, white_first_move, white_second_move)
                    is Some,
    {
        Self::new(None, white_first_move, white_second_move)
    }

    /// The name of the opening, or a word that says it has none.
    pub fn name(&self) -> (r: &str)
        ensures
            r@ == match self.name {
                Some(n) => n@,
                None => "[Anonymous]"@,
            },
    {
        match self.name {
            Some(n) => n,
            None => "[Anonymous]",
        }
    }
}

/// Two positions from which the game begins are one position.
pub proof fn lemma_setup_is_unique(a: Position, b: Position)
    requires
        a.is_setup(),
        b.is_setup(),
    ensures
        a == b,
{
    assert forall|i: int| a.white.spec_at(i) == b.white.spec_at(i) by {
        assert(a.white.spec_at(i) == black_at_setup(54 - i));
        assert(b.white.spec_at(i) == black_at_setup(54 - i));
    }
    assert forall|i: int| a.black.spec_at(i) == b.black.spec_at(i) by {
        assert(a.black.spec_at(i) == black_at_setup(i));
        assert(b.black.spec_at(i) == black_at_setup(i));
    }
    lemma_piecemap_ext(a.white, b.white);
    lemma_piecemap_ext(a.black, b.black);
}

/// The move between the cells with the given codes.
pub open spec fn ply_between(from: u8, to: u8) -> Ply {
    Ply { from_tile: Tile(from), to_tile: Tile(to) }
}

/// The `n`-th of the openings that have a name: the name and White's two
/// moves.
pub open spec fn book_entry(n: int) -> (Seq<char>, Ply, Ply) {
    if n == 0 {
        ("Devil"@, ply_between(36, 14), ply_between(2, 4))
    } else if n == 1 {
        ("Magician"@, ply_between(13, 3), ply_between(24, 26))
    } else if n == 2 {
        ("Hermit"@, ply_between(13, 26), ply_between(2, 4))
    } else if n == 3 {
        ("Chariot"@, ply_between(24, 26), ply_between(2, 4))
    } else if n == 4 {
        ("Emperor"@, ply_between(13, 3), ply_between(2, 4))
    } else if n == 5 {
        ("Hierophant"@, ply_between(36, 14), ply_between(24, 26))
    } else if n == 6 {
        ("Sun"@, ply_between(36, 14), ply_between(13, 3))
    } else if n == 7 {
        ("Moon"@, ply_between(36, 14), ply_between(13, 26))
    } else if n == 8 {
        ("Fool"@, ply_between(36, 14), ply_between(25, 49))
    } else if n == 9 {
        ("Hanged Man"@, ply_between(13, 3), ply_between(25, 49))
    } else if n == 10 {
        ("Judgement"@, ply_between(13, 26), ply_between(25, 49))
    } else if n == 11 {
        ("Lovers"@, ply_between(36, 14), ply_between(25, 3))
    } else if n == 12 {
        ("Empress"@, ply_between(24, 26), ply_between(25, 49))
    } else {
        ("Seal"@, ply_between(24, 26), ply_between(26, 37))
    }
}

/// Number of openings that have a name.
pub const BOOK_SIZE: usize = 14;

/// Whether the opening is the one that the entry of the book describes.
pub open spec fn listed(h: HalfOpening, entry: (Seq<char>, Ply, Ply)) -> bool {
    &&& h.wf()
    &&& h.name matches Some(n) && n@ == entry.0
    &&& h.white_moves[0] == entry.1
    &&& h.white_moves[1] == entry.2
}

/// The first `n` entries of the book whose moves can be played.
pub open spec fn playable_upto(n: nat) -> Seq<(Seq<char>, Ply, Ply)>
    decreases n,
{
    if n == 0 {
        Seq::empty()
    } else {
        let e = book_entry(n - 1);
        if exists|start: Position| #[trigger]
            start.is_setup() && opening_position(start, e.1, e.2) is Some {
            playable_upto((n - 1) as nat).push(e)
        } else {
            playable_upto((n - 1) as nat)
        }
    }
}

/// Whether `list` holds, in the order of the book, the openings of the
/// first `n` entries whose moves can be played.
#[verifier::opaque]
pub open spec fn lists_book(list: Seq<HalfOpening>, n: nat) -> bool {
    &&& list.len() == playable_upto(n).len()
    &&& forall|k: int| 0 <= k < list.len() ==> listed(#[trigger] list[k], playable_upto(n)[k])
}

fn known_ply(s: &str) -> (r: Ply)
    requires
        parse_ply(s@) is Ok,
    ensures
        Ok::<Ply, PlyParseError>(r) == parse_ply(s@),
{
    match Ply::from_str(s) {
        Ok(p) => p,
        Err(_) => Ply { from_tile: Tile(0), to_tile: Tile(0) },
    }
}

fn ply_d6b5() -> (r: Ply)
    ensures
        r == ply_between(36, 14),
{
    proof {
        reveal_strlit("d6b5");
    }
    known_ply("d6b5")
}

fn ply_a5a3() -> (r: Ply)
    ensures
        r == ply_between(2, 4),
{
    proof {
        reveal_strlit("a5a3");
    }
    known_ply("a5a3")
}

fn ply_c7c5() -> (r: Ply)
    ensures
        r == ply_between(24, 26),
{
    proof {
        reveal_strlit("c7c5");
    }
    known_ply("c7c5")
}

fn ply_b6a4() -> (r: Ply)
    ensures
        r == ply_between(13, 3),
{
    proof {
        reveal_strlit("b6a4");
    }
    known_ply("b6a4")
}

fn ply_b6c5() -> (r: Ply)
    ensures
        r == ply_between(13, 26),
{
    proof {
        reveal_strlit("b6c5");
    }
    known_ply("b6c5")
}

fn ply_c6e4() -> (r: Ply)
    ensures
        r == ply_between(25, 49),
{
    proof {
        reveal_strlit("c6e4");
    }
    known_ply("c6e4")
}

fn ply_c6a4() -> (r: Ply)
    ensures
        r == ply_between(25, 3),
{
    proof {
        reveal_strlit("c6a4");
    }
    known_ply("c6a4")
}

fn ply_c5d5() -> (r: Ply)
    ensures
        r == ply_between(26, 37),
{
    proof {
        reveal_strlit("c5d5");
    }
    known_ply("c5d5")
}

fn add_opening(
    list: &mut Vec<HalfOpening>,
    name: &'static str,
    first: Ply,
    second: Ply,
    Ghost(n): Ghost<nat>,
)
    requires
        n < 14,
        book_entry(n as int) == (name@, first, second),
        lists_book(old(list)@, n),
    ensures
        lists_book(final(list)@, n + 1),
{
    reveal(lists_book);
    match HalfOpening::named(name, first, second) {
        Some(h) => {
            list.push(h);
        },
        None => {},
    }
}

/// The openings that have a name, in the order of the book.
pub fn half_openings() -> (r: Vec<HalfOpening>)
    ensures
        lists_book(r@, 14),
        forall|k: int| 0 <= k < r@.len() ==> (#[trigger] r@[k]).wf(),
{
    assert(lists_book(Seq::<HalfOpening>::empty(), 0)) by {
        reveal(lists_book);
    }
    let b_b5 = ply_d6b5();
    let a_a3 = ply_a5a3();
    let a_c5 = ply_c7c5();
    let s_a4 = ply_b6a4();
    let s_c5 = ply_b6c5();
    let b_e4 = ply_c6e4();
    let b_a4 = ply_c6a4();
    let a_d5 = ply_c5d5();
    let mut list: Vec<HalfOpening> = Vec::new();
    add_opening(&mut list, "Devil", b_b5, a_a3, Ghost(0));
    add_opening(&mut list, "Magician", s_a4, a_c5, Ghost(1));
    add_opening(&mut list, "Hermit", s_c5, a_a3, Ghost(2));
    add_opening(&mut list, "Chariot", a_c5, a_a3, Ghost(3));
    add_opening(&mut list, "Emperor", s_a4, a_a3, Ghost(4));
    add_opening(&mut list, "Hierophant", b_b5, a_c5, Ghost(5));
    add_opening(&mut list, "Sun", b_b5, s_a4, Ghost(6));
    add_opening(&mut list, "Moon", b_b5, s_c5, Ghost(7));
    add_opening(&mut list, "Fool", b_b5, b_e4, Ghost(8));
    add_opening(&mut list, "Hanged Man", s_a4, b_e4, Ghost(9));
    add_opening(&mut list, "Judgement", s_c5, b_e4, Ghost(10));
    add_opening(&mut list, "Lovers", b_b5, b_a4, Ghost(11));
    add_opening(&mut list, "Empress", a_c5, b_e4, Ghost(12));
    add_opening(&mut list, "Seal", a_c5, a_d5, Ghost(13));
    assert(forall|k: int| 0 <= k < list@.len() ==> (#[trigger] list@[k]).wf()) by {
        reveal(lists_book);
    }
    list
}

/// The first opening from the `from`-th on whose pieces, turned for Black
/// where `flipped` holds, are `pieces`.
pub open spec fn found_opening(
    list: Seq<HalfOpening>,
    pieces: PieceMap,
    flipped: bool,
    from: nat,
) -> Option<HalfOpening>
    decreases list.len() - from,
{
    if from >= list.len() {
        None
    } else if spec_turned(list[from as int].white_position, flipped) == pieces {
        Some(list[from as int])
    } else {
        found_opening(list, pieces, flipped, from + 1)
    }
}

/// The pieces as they stand, or turned by half a turn about the centre.
pub open spec fn spec_turned(pieces: PieceMap, flipped: bool) -> PieceMap {
    if flipped {
        pieces.spec_flipped()
    } else {
        pieces
    }
}

impl PieceMap {
    /// The pieces turned by half a turn about the centre of the board.
    pub open spec fn spec_flipped(self) -> PieceMap {
        choose|p: PieceMap| self.turns_to(p)
    }

    /// Whether `p` holds on each position what this map holds opposite.
    pub open spec fn turns_to(self, p: PieceMap) -> bool {
        forall|i: int| #[trigger] p.spec_at(i) == self.spec_at(54 - i)
    }
}

/// Looks the pieces of a side up among the openings.
pub fn find_opening(list: &Vec<HalfOpening>, pieces: &PieceMap, flipped: bool) -> (r: Option<
    HalfOpening,
>)
    requires
        forall|k: int| 0 <= k < list@.len() ==> (#[trigger] list@[k]).white_position.wf(),
    ensures
        r == found_opening(list@, *pieces, flipped, 0),
{
    let mut k: usize = 0;
    while k < list.len()
        invariant
            k <= list@.len(),
            forall|j: int| 0 <= j < list@.len() ==> (#[trigger] list@[j]).white_position.wf(),
            found_opening(list@, *pieces, flipped, 0) == found_opening(
                list@,
                *pieces,
                flipped,
                k as nat,
            ),
        decreases list@.len() - k,
    {
        let h = list[k];
        let shown = if flipped {
            let t = h.white_position.flip();
            proof {
                assert(h.white_position.turns_to(t));
                let c = h.white_position.spec_flipped();
                assert(h.white_position.turns_to(c));
                assert forall|i: int| t.spec_at(i) == c.spec_at(i) by {
                    assert(t.spec_at(i) == h.white_position.spec_at(54 - i));
                    assert(c.spec_at(i) == h.white_position.spec_at(54 - i));
                }
                lemma_piecemap_ext(t, c);
            }
            t
        } else {
            h.white_position
        };
        if shown == *pieces {
            return Some(h);
        }
        k += 1;
    }
    None
}

/// Whether the entry records a legal move from a sound position and the
/// position that the move led to.
pub open spec fn sound_entry(e: HistoryEntry) -> bool {
    &&& e.state_before.wf()
    &&& e.state_before.can_move(e.state_before.to_play, e.ply.from_tile, e.ply.to_tile)
    &&& e.state_after == e.state_before.after(e.ply)
    &&& e.captured_after.white@.len() == 7
    &&& e.captured_after.black@.len() == 7
}

/// Whether the moves on record lead, each from the position that the one
/// before it left, to the position `state`.
pub open spec fn leads_to(history: Seq<HistoryEntry>, state: Position) -> bool
    decreases history.len(),
{
    if history.len() == 0 {
        true
    } else {
        &&& sound_entry(history.last())
        &&& history.last().state_after == state
        &&& leads_to(history.drop_last(), history.last().state_before)
    }
}

/// A match in progress.
pub struct MatchState {
    pub state: Position,
    pub valid_moves: Vec<Ply>,
    pub is_won: Option<Player>,
    pub history: Vec<HistoryEntry>,
    pub half_openings: PlayerMap<Result<Option<HalfOpening>, HalfOpeningDetectionError>>,
}

impl MatchState {
    /// The position from which the match began.
    pub open spec fn spec_beginning_state(self) -> Position {
        if self.history@.len() > 0 {
            self.history@[0].state_before
        } else {
            self.state
        }
    }

    /// The place in the history of the move after which the opening of a
    /// side is told.
    pub open spec fn opening_index(player: Player) -> int {
        match player {
            Player::White => 2,
            Player::Black => 3,
        }
    }

    /// What is told of the opening of a side, given the openings that have
    /// a name: nothing where the match began from another position than the
    /// usual one or the side has not made its second move; else the opening
    /// whose pieces the side had after that move.
    pub open spec fn spec_detect(self, player: Player, list: Seq<HalfOpening>) -> Result<
        Option<HalfOpening>,
        HalfOpeningDetectionError,
    > {
        if !self.spec_beginning_state().is_setup() {
            Err(HalfOpeningDetectionError::NonStandardSetup)
        } else if self.history@.len() <= Self::opening_index(player) {
            Err(HalfOpeningDetectionError::NotEnoughMoves)
        } else {
            Ok(
                found_opening(
                    list,
                    self.history@[Self::opening_index(player)].state_after.spec_pieces(player),
                    player == Player::Black,
                    0,
                ),
            )
        }
    }

    /// Whether the record is consistent: the list of legal moves and the
    /// winner are those of the position, each move on record was legal and
    /// led to the position on record after it, the last led to the present
    /// position, and the openings are those that the record shows.
    pub open spec fn wf(self) -> bool {
        &&& self.history_wf()
        &&& self.valid_moves@ == self.state.spec_valid_moves()
        &&& self.is_won == self.state.spec_is_won()
        &&& self.openings_told()
    }

    /// Whether the position is sound and the moves on record lead to it.
    pub open spec fn history_wf(self) -> bool {
        self.state.wf() && leads_to(self.history@, self.state)
    }

    /// Whether what is told of the openings is what the record shows.
    pub open spec fn openings_told(self) -> bool {
        exists|list: Seq<HalfOpening>|
            lists_book(list, 14) && self.half_openings.white == #[trigger] self.spec_detect(
                Player::White,
                list,
            ) && self.half_openings.black == self.spec_detect(Player::Black, list)
    }

    /// What each side has taken so far.
    pub open spec fn spec_captured(self, color: Player) -> Captured {
        if self.history@.len() > 0 {
            self.history@.last().captured_after.spec_index(color)
        } else {
            Captured::spec_empty()
        }
    }

    /// A match from the usual position.
    pub fn setup() -> (r: MatchState)
        ensures
            r.wf(),
            r.state.is_setup(),
            r.history@.len() == 0,
    {
        Self::setup_from(Position::setup())
    }

    /// A match from the given position.
    pub fn setup_from(state: Position) -> (r: MatchState)
        requires
            state.wf(),
        ensures
            r.wf(),
            r.state == state,
            r.history@.len() == 0,
    {
        let valid_moves = state.valid_moves();
        let mut match_state = MatchState {
            state,
            valid_moves,
            is_won: None,
            history: Vec::new(),
            half_openings: PlayerMap::new(
                Err(HalfOpeningDetectionError::NotEnoughMoves),
                Err(HalfOpeningDetectionError::NotEnoughMoves),
            ),
        };
        match_state.refresh();
        match_state
    }

    /// Works out the legal moves, the winner and the openings anew.
    pub fn refresh(&mut self)
        requires
            old(self).history_wf(),
        ensures
            final(self).wf(),
            final(self).state == old(self).state,
            final(self).history@ == old(self).history@,
    {
        self.valid_moves = self.state.valid_moves();
        self.is_won = self.state.is_won();
        let list = half_openings();
        let white = self.detect_half_opening(Player::White, &list);
        let black = self.detect_half_opening(Player::Black, &list);
        self.half_openings = PlayerMap::new(white, black);
        assert(self.half_openings.white == self.spec_detect(Player::White, list@));
    }

    /// The winner, if the match is over.
    pub fn is_won(&self) -> (r: Option<Player>)
        ensures
            r == self.is_won,
    {
        self.is_won
    }

    /// What is told of the opening of a side.
    pub fn half_opening(&self, player: Player) -> (r: Result<
        Option<HalfOpening>,
        HalfOpeningDetectionError,
    >)
        ensures
            r == self.half_openings.spec_index(player),
    {
        match player {
            Player::White => self.half_openings.white,
            Player::Black => self.half_openings.black,
        }
    }

    /// Plays a legal move and puts it on record.
    pub fn apply_move(&mut self, ply: Ply)
        requires
            old(self).wf(),
            old(self).is_won is None,
            old(self).state.can_move(old(self).state.to_play, ply.from_tile, ply.to_tile),
            old(self).state.spec_captures_fit(
                ply,
                old(self).spec_captured(old(self).state.to_play),
            ),
        ensures
            final(self).wf(),
            final(self).state == old(self).state.after(ply),
            final(self).history@.len() == old(self).history@.len() + 1,
            final(self).history@.last().ply == ply,
            final(self).history@.last().state_before == old(self).state,
            forall|k: int|
                0 <= k < old(self).history@.len() ==> final(self).history@[k] == old(
                    self,
                ).history@[k],
    {
        let captured = self.current_captured();
        let entry = self.state.compute_history_entry(ply, captured);
        let ghost record = entry;
        self.history.push(entry);
        self.state.apply_move(ply);
        proof {
            assert(self.history@.drop_last() =~= old(self).history@);
            assert(self.history@.last() == record);
            assert(sound_entry(record));
        }
        self.refresh();
    }

    /// What each side has taken so far.
    pub fn current_captured(&self) -> (r: PlayerMap<Captured>)
        ensures
            r.white == self.spec_captured(Player::White),
            r.black == self.spec_captured(Player::Black),
    {
        PlayerMap::new(
            self.current_captured_color(Player::White),
            self.current_captured_color(Player::Black),
        )
    }

    fn current_captured_color(&self, color: Player) -> (r: Captured)
        ensures
            r == self.spec_captured(color),
    {
        let n = self.history.len();
        if n > 0 {
            *self.history[n - 1].captured_after.index(color)
        } else {
            Captured::empty()
        }
    }

    /// The side that is to move.
    pub fn to_play(&self) -> (r: Player)
        ensures
            r == self.state.to_play,
    {
        self.state.to_play()
    }

    /// The present position.
    pub fn state_clone(&self) -> (r: Position)
        ensures
            r == self.state,
    {
        self.state
    }

    /// Takes the last `count` moves back, or all where there are fewer.
    pub fn undo_moves(&mut self, count: usize)
        requires
            old(self).wf(),
        ensures
            final(self).wf(),
            final(self).history@ == old(self).history@.take(
                if count <= old(self).history@.len() {
                    old(self).history@.len() - count
                } else {
                    0
                },
            ),
            final(self).state == if count == 0 || old(self).history@.len() == 0 {
                old(self).state
            } else if count <= old(self).history@.len() {
                old(self).history@[old(self).history@.len() - count].state_before
            } else {
                old(self).history@[0].state_before
            },
    {
        let mut done: usize = 0;
        while done < count && self.history.len() > 0
            invariant
                done <= count,
                done <= old(self).history@.len(),
                self.history_wf(),
                self.history@ == old(self).history@.take(old(self).history@.len() - done),
                self.state == if done == 0 {
                    old(self).state
                } else {
                    old(self).history@[old(self).history@.len() - done].state_before
                },
            decreases count - done,
        {
            let ghost before = self.history@;
            let popped = self.history.pop();
            match popped {
                Some(entry) => {
                    self.state = entry.state_before;
                },
                None => {},
            }
            done += 1;
            proof {
                let n = old(self).history@.len() as int;
                assert(self.history@ =~= before.drop_last());
                assert(self.history@ =~= old(self).history@.take(n - done));
                assert(before.last() == old(self).history@[n - done]);
            }
        }
        self.refresh();
    }

    /// The moves on record.
    pub fn history(&self) -> (r: &Vec<HistoryEntry>)
        ensures
            r@ == self.history@,
    {
        &self.history
    }

    /// The pieces of a side.
    pub fn get_pieces(&self, color: Player) -> (r: &PieceMap)
        ensures
            *r == self.state.spec_pieces(color),
    {
        self.state.get_pieces(color)
    }

    fn beginning_state(&self) -> (r: &Position)
        ensures
            *r == self.spec_beginning_state(),
    {
        if self.history.len() > 0 {
            &self.history[0].state_before
        } else {
            &self.state
        }
    }

    fn detect_half_opening(&self, player: Player, list: &Vec<HalfOpening>) -> (r: Result<
        Option<HalfOpening>,
        HalfOpeningDetectionError,
    >)
        requires
            forall|k: int| 0 <= k < list@.len() ==> (#[trigger] list@[k]).white_position.wf(),
        ensures
            r == self.spec_detect(player, list@),
    {
        let usual = Position::setup();
        proof {
            if self.spec_beginning_state().is_setup() {
                lemma_setup_is_unique(self.spec_beginning_state(), usual);
            }
        }
        if *self.beginning_state() != usual {
            return Err(HalfOpeningDetectionError::NonStandardSetup);
        }
        let ply_index: usize = match player {
            Player::White => 2,
            Player::Black => 3,
        };
        if self.history.len() <= ply_index {
            Err(HalfOpeningDetectionError::NotEnoughMoves)
        } else {
            let pos = self.history[ply_index].state_after.get_pieces(player);
            Ok(
                find_opening(
                    list,
                    pos,
                    match player {
                        Player::White => false,
                        Player::Black => true,
                    },
                ),
            )
        }
    }
}

impl MatchState {
    /// Whether [`MatchState::apply_move`] may be called with the move: the
    /// match is not over, the move is legal, and the counts of what the
    /// mover has taken have room for what the move takes.
    pub fn can_apply(&self, ply: Ply) -> (r: bool)
        requires
            self.wf(),
        ensures
            r == (self.is_won is None && self.state.can_move(
                self.state.to_play,
                ply.from_tile,
                ply.to_tile,
            ) && self.state.spec_captures_fit(ply, self.spec_captured(self.state.to_play))),
    {
        if self.is_won.is_some() {
            return false;
        }
        if !self.state.is_legal(ply) {
            return false;
        }
        let captured = self.current_captured_color(self.state.to_play());
        self.state.captures_fit(ply, &captured)
    }
}

} // verus!
