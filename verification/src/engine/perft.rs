use crate::engine::board::Board;
use crate::engine::board::position::Position;
use crate::engine::moves::{move_text, Move};
use vstd::prelude::*;

verus! {

/// How many plies a count that starts at ply `current` and ends with ply
/// `target` goes down.
pub open spec fn plies(current: int, target: int) -> nat {
    if current > target {
        0
    } else {
        (target - current + 1) as nat
    }
}

impl Position {
    /// The position that a move leads to.
    pub open spec fn make(self, m: Move) -> Position {
        choose|after: Position| self.made(m, after)
    }

    /// The number of ways to play `depth` moves on from this position,
    /// each a move that the generator gives for the position it is made
    /// on.
    pub open spec fn perft(self, depth: nat) -> nat
        decreases depth, 0nat,
    {
        if depth == 0 {
            1
        } else {
            self.perft_over(self.legal_moves(), self.legal_moves().len(), (depth - 1) as nat)
        }
    }

    /// The number of ways to play one of the first `k` of `moves` and then
    /// `depth` moves more.
    pub open spec fn perft_over(self, moves: Seq<Move>, k: nat, depth: nat) -> nat
        decreases depth, k,
    {
        if k == 0 {
            0
        } else {
            self.perft_over(moves, (k - 1) as nat, depth) + self.make(moves[k - 1]).perft(depth)
        }
    }

    /// Whether the counters have room for every way to play `depth` moves
    /// on from this position: for each move of the position, and after it
    /// for every way to play one move less.
    pub open spec fn has_room_for(self, depth: nat) -> bool
        decreases depth,
    {
        depth == 0 || {
            &&& forall|i: int|
                0 <= i < self.legal_moves().len() ==> self.has_room(#[trigger] self.legal_moves()[i])
            &&& forall|i: int, after: Position|
                0 <= i < self.legal_moves().len() && #[trigger] self.made(
                    self.legal_moves()[i],
                    after,
                ) ==> after.has_room_for((depth - 1) as nat)
        }
    }

    /// Counters that stand `depth` below the largest number they can hold
    /// have room for every way to play `depth` moves.
    pub proof fn lemma_room(self, depth: nat)
        requires
            self.state().halfmove + depth <= u8::MAX,
            self.state().fullmove + depth <= u8::MAX,
        ensures
            self.has_room_for(depth),
        decreases depth,
    {
        if depth > 0 {
            assert forall|i: int, after: Position|
                0 <= i < self.legal_moves().len() && #[trigger] self.made(
                    self.legal_moves()[i],
                    after,
                ) implies after.has_room_for((depth - 1) as nat) by {
                after.lemma_room((depth - 1) as nat);
            }
        }
    }

    /// A move leads to one position only.
    pub proof fn lemma_made_once(self, m: Move, after: Position)
        requires
            self.made(m, after),
        ensures
            self.make(m) == after,
    {
        let other = self.make(m);
        assert(self.made(m, other));
        assert(other.states.last().castling@ == after.states.last().castling@);
        assert(other.states.last().castling =~= after.states.last().castling);
        assert(other.states.last() == after.states.last());
        assert(other.states =~= other.states.drop_last().push(other.states.last()));
        assert(after.states =~= after.states.drop_last().push(after.states.last()));
    }

    /// The count over more moves is not smaller.
    pub proof fn lemma_perft_over_grows(self, moves: Seq<Move>, k: nat, n: nat, depth: nat)
        requires
            k <= n,
        ensures
            self.perft_over(moves, k, depth) <= self.perft_over(moves, n, depth),
        decreases n - k,
    {
        if k < n {
            self.lemma_perft_over_grows(moves, k, (n - 1) as nat, depth);
        }
    }
}

impl<'a> Board<'a> {
    /// Counts the ways to play on from this position down to ply
    /// `target`, the moves from this position being ply `current`: 1 when
    /// `current` is past `target`. Every move is made, counted below and
    /// taken back, so the board is left as it was found.
    pub fn perft_iter(&mut self, current: u8, target: u8) -> (count: u64)
        requires
            old(self).wf(),
            current <= target ==> target < u8::MAX,
            old(self)@.has_room_for(plies(current as int, target as int)),
            old(self)@.perft(plies(current as int, target as int)) <= u64::MAX,
        ensures
            count == old(self)@.perft(plies(current as int, target as int)),
            final(self).wf(),
            final(self)@ == old(self)@,
            final(self).computed == old(self).computed,
        decreases plies(current as int, target as int),
    {
        if current > target {
            return 1;
        }
        let ghost pos = self@;
        let ghost depth = plies(current as int + 1, target as int);
        let moves = self.calculate_moves();
        let mut count: u64 = 0;
        let mut i: usize = 0;
        while i < moves.len()
            invariant
                self.wf(),
                self@ == pos,
                self.computed == old(self).computed,
                moves@ == pos.legal_moves(),
                forall|j: int| 0 <= j < moves@.len() ==> pos.admits(#[trigger] moves@[j]),
                0 <= i <= moves@.len(),
                current <= target < 255,
                depth == plies(current as int + 1, target as int),
                pos.has_room_for(depth + 1),
                count == pos.perft_over(moves@, i as nat, depth),
                pos.perft_over(moves@, moves@.len(), depth) <= u64::MAX,
            decreases moves@.len() - i,
        {
            let m = moves[i];
            assert(pos.admits(m));
            self.make_move(m);
            proof {
                pos.lemma_made_once(m, self@);
                pos.lemma_perft_over_grows(moves@, (i + 1) as nat, moves@.len(), depth);
                pos.lemma_make_undo(m, self@);
            }
            let below = self.perft_iter(current + 1, target);
            self.undo_move(m);
            count = count + below;
            i += 1;
        }
        count
    }
}


impl<'a> Board<'a> {
    /// Counts as `perft_iter` does where the counters have room for every
    /// move to be made and the count fits sixty-four bits, and gives no
    /// count where they do not. The board is left as it was found either
    /// way.
    pub fn try_perft_iter(&mut self, current: u8, target: u8) -> (count: Option<u64>)
        requires
            old(self).wf(),
        ensures
            final(self).wf(),
            final(self)@ == old(self)@,
            final(self).computed == old(self).computed,
            count is Some <==> (current <= target ==> target < u8::MAX) && old(self)@.has_room_for(
                plies(current as int, target as int),
            ) && old(self)@.perft(plies(current as int, target as int)) <= u64::MAX,
            count is Some ==> count->Some_0 == old(self)@.perft(
                plies(current as int, target as int),
            ),
        decreases plies(current as int, target as int),
    {
        if current > target {
            return Some(1);
        }
        if target == u8::MAX {
            return None;
        }
        let ghost pos = self@;
        let ghost depth = plies(current as int + 1, target as int);
        let moves = self.calculate_moves();
        let mut count: u64 = 0;
        let mut i: usize = 0;
        while i < moves.len()
            invariant
                self.wf(),
                self@ == pos,
                pos == old(self)@,
                self.computed == old(self).computed,
                moves@ == pos.legal_moves(),
                forall|j: int| 0 <= j < moves@.len() ==> pos.admits(#[trigger] moves@[j]),
                0 <= i <= moves@.len(),
                current <= target < u8::MAX,
                depth == plies(current as int + 1, target as int),
                count == pos.perft_over(moves@, i as nat, depth),
                forall|j: int|
                    0 <= j < i ==> pos.has_room(#[trigger] moves@[j]) && pos.make(
                        moves@[j],
                    ).has_room_for(depth),
            decreases moves@.len() - i,
        {
            let m = moves[i];
            assert(pos.admits(m));
            if !self.has_room(m) {
                assert(pos.legal_moves()[i as int] == m);
                return None;
            }
            self.make_move(m);
            proof {
                pos.lemma_made_once(m, self@);
                pos.lemma_perft_over_grows(moves@, (i + 1) as nat, moves@.len(), depth);
                pos.lemma_make_undo(m, self@);
            }
            let below = self.try_perft_iter(current + 1, target);
            self.undo_move(m);
            match below {
                Some(ways) => {
                    if count > u64::MAX - ways {
                        return None;
                    }
                    count = count + ways;
                },
                None => {
                    assert(pos.made(pos.legal_moves()[i as int], pos.make(m)));
                    return None;
                },
            }
            i += 1;
        }
        proof {
            assert forall|j: int, after: Position|
                0 <= j < pos.legal_moves().len() && #[trigger] pos.made(
                    pos.legal_moves()[j],
                    after,
                ) implies after.has_room_for(depth) by {
                pos.lemma_made_once(pos.legal_moves()[j], after);
            }
        }
        Some(count)
    }

    /// Counts move by move as `perft_divide` does where the depth is below
    /// the largest, the counters have room for every move to be made and
    /// each count fits sixty-four bits, and gives no counts where they do
    /// not. The board is left as it was found either way.
    pub fn try_perft_divide(&mut self, depth: u8) -> (counts: Option<Vec<(String, u64)>>)
        requires
            old(self).wf(),
        ensures
            final(self).wf(),
            final(self)@ == old(self)@,
            final(self).computed == old(self).computed,
            counts is Some <==> depth < u8::MAX && old(self)@.has_room_for(
                plies(2, depth as int) + 1,
            ) && forall|i: int|
                0 <= i < old(self)@.legal_moves().len() ==> old(self)@.make(
                    #[trigger] old(self)@.legal_moves()[i],
                ).perft(plies(2, depth as int)) <= u64::MAX,
            counts is Some ==> counts->Some_0@.len() == old(self)@.legal_moves().len(),
            counts is Some ==> forall|i: int|
                0 <= i < counts->Some_0@.len() ==> (#[trigger] counts->Some_0@[i]).0@ == move_text(
                    old(self)@.legal_moves()[i],
                ) && counts->Some_0@[i].1 == old(self)@.make(old(self)@.legal_moves()[i]).perft(
                    plies(2, depth as int),
                ),
    {
        if depth == u8::MAX {
            return None;
        }
        let ghost pos = self@;
        let ghost below_depth = plies(2, depth as int);
        let moves = self.calculate_moves();
        let mut counts: Vec<(String, u64)> = Vec::new();
        let mut i: usize = 0;
        while i < moves.len()
            invariant
                self.wf(),
                self@ == pos,
                pos == old(self)@,
                self.computed == old(self).computed,
                moves@ == pos.legal_moves(),
                forall|j: int| 0 <= j < moves@.len() ==> pos.admits(#[trigger] moves@[j]),
                0 <= i <= moves@.len(),
                depth < u8::MAX,
                below_depth == plies(2, depth as int),
                counts@.len() == i,
                forall|j: int|
                    0 <= j < i ==> pos.has_room(#[trigger] moves@[j]) && pos.make(
                        moves@[j],
                    ).has_room_for(below_depth),
                forall|j: int|
                    0 <= j < i ==> (#[trigger] counts@[j]).0@ == move_text(moves@[j]) && counts@[j].1
                        == pos.make(moves@[j]).perft(below_depth),
            decreases moves@.len() - i,
        {
            let m = moves[i];
            assert(pos.admits(m));
            if !self.has_room(m) {
                assert(pos.legal_moves()[i as int] == m);
                return None;
            }
            self.make_move(m);
            proof {
                pos.lemma_made_once(m, self@);
                pos.lemma_make_undo(m, self@);
            }
            let below = self.try_perft_iter(2, depth);
            self.undo_move(m);
            match below {
                Some(ways) => {
                    counts.push((m.to_text(), ways));
                },
                None => {
                    assert(pos.legal_moves()[i as int] == m);
                    assert(pos.made(pos.legal_moves()[i as int], pos.make(m)));
                    return None;
                },
            }
            i += 1;
        }
        proof {
            assert forall|j: int, after: Position|
                0 <= j < pos.legal_moves().len() && #[trigger] pos.made(
                    pos.legal_moves()[j],
                    after,
                ) implies after.has_room_for(below_depth) by {
                pos.lemma_made_once(pos.legal_moves()[j], after);
            }
            assert forall|j: int| 0 <= j < pos.legal_moves().len() implies pos.make(
                #[trigger] pos.legal_moves()[j],
            ).perft(below_depth) <= u64::MAX by {
                assert(counts@[j].1 == pos.make(moves@[j]).perft(below_depth));
            }
        }
        Some(counts)
    }
}

impl<'a> Board<'a> {
    /// For each move of the position, in the generator's order, the text
    /// of the move and the number of ways to play on after it from ply 2
    /// down to ply `depth`, the move itself being ply 1: each move counts
    /// 1 where `depth` is below 2. The board is left as it was found.
    pub fn perft_divide(&mut self, depth: u8) -> (counts: Vec<(String, u64)>)
        requires
            old(self).wf(),
            depth < u8::MAX,
            old(self)@.has_room_for(plies(2, depth as int) + 1),
            forall|i: int|
                0 <= i < old(self)@.legal_moves().len() ==> old(self)@.make(
                    #[trigger] old(self)@.legal_moves()[i],
                ).perft(plies(2, depth as int)) <= u64::MAX,
        ensures
            final(self).wf(),
            final(self)@ == old(self)@,
            final(self).computed == old(self).computed,
            counts@.len() == old(self)@.legal_moves().len(),
            forall|i: int|
                0 <= i < counts@.len() ==> (#[trigger] counts@[i]).0@ == move_text(
                    old(self)@.legal_moves()[i],
                ) && counts@[i].1 == old(self)@.make(old(self)@.legal_moves()[i]).perft(
                    plies(2, depth as int),
                ),
    {
        let ghost pos = self@;
        let moves = self.calculate_moves();
        let mut counts: Vec<(String, u64)> = Vec::new();
        let mut i: usize = 0;
        while i < moves.len()
            invariant
                self.wf(),
                self@ == pos,
                self.computed == old(self).computed,
                moves@ == pos.legal_moves(),
                forall|j: int| 0 <= j < moves@.len() ==> pos.admits(#[trigger] moves@[j]),
                0 <= i <= moves@.len(),
                depth < u8::MAX,
                pos.has_room_for(plies(2, depth as int) + 1),
                forall|j: int|
                    0 <= j < moves@.len() ==> pos.make(#[trigger] moves@[j]).perft(
                        plies(2, depth as int),
                    ) <= u64::MAX,
                counts@.len() == i,
                forall|j: int|
                    0 <= j < i ==> (#[trigger] counts@[j]).0@ == move_text(moves@[j]) && counts@[j].1
                        == pos.make(moves@[j]).perft(plies(2, depth as int)),
            decreases moves@.len() - i,
        {
            let m = moves[i];
            assert(pos.admits(m));
            self.make_move(m);
            proof {
                pos.lemma_made_once(m, self@);
                pos.lemma_make_undo(m, self@);
            }
            let below = self.perft_iter(2, depth);
            self.undo_move(m);
            counts.push((m.to_text(), below));
            i += 1;
        }
        counts
    }
}

} // verus!
