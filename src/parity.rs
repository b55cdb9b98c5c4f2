//! How moves of the blank change the inversion count, and the laws of moves
//! that follow: walls, undoing a move, and solvability kept by every move.
use vstd::prelude::*;
use crate::board::{
    Operation, after_move, blank_of, count_below, first_blank, inversions, inversions_from,
    is_board, lemma_first_blank, out_of_order, partner, solvable, swapped,
};

verus! {

proof fn lemma_count_agree(v: u16, s: Seq<u16>, t: Seq<u16>, lo: int)
    requires
        0 <= lo,
        s.len() == t.len(),
        forall|j: int| lo <= j < s.len() ==> s[j] == t[j],
    ensures
        count_below(v, s, lo) == count_below(v, t, lo),
    decreases s.len() - lo,
{
    if lo < s.len() {
        lemma_count_agree(v, s, t, lo + 1);
    }
}

proof fn lemma_count_adjacent_swap(v: u16, s: Seq<u16>, k: int, lo: int)
    requires
        0 <= lo <= k,
        k + 1 < s.len(),
    ensures
        count_below(v, swapped(s, k, k + 1), lo) == count_below(v, s, lo),
    decreases k - lo,
{
    let t = swapped(s, k, k + 1);
    if lo < k {
        lemma_count_adjacent_swap(v, s, k, lo + 1);
    } else {
        lemma_count_agree(v, s, t, k + 2);
        assert(t[k] == s[k + 1] && t[k + 1] == s[k]);
        assert(count_below(v, t, k + 1) == inv_step(v, s[k]) + count_below(v, t, k + 2));
        assert(count_below(v, t, k) == inv_step(v, s[k + 1]) + count_below(v, t, k + 1));
        assert(count_below(v, s, k + 1) == inv_step(v, s[k + 1]) + count_below(v, s, k + 2));
        assert(count_below(v, s, k) == inv_step(v, s[k]) + count_below(v, s, k + 1));
    }
}

proof fn lemma_inversions_agree(s: Seq<u16>, t: Seq<u16>, i: int)
    requires
        0 <= i,
        s.len() == t.len(),
        forall|j: int| i <= j < s.len() ==> s[j] == t[j],
    ensures
        inversions_from(s, i) == inversions_from(t, i),
    decreases s.len() - i,
{
    if i < s.len() {
        lemma_count_agree(s[i], s, t, i + 1);
        lemma_inversions_agree(s, t, i + 1);
    }
}

spec fn inv_step(a: u16, b: u16) -> int {
    if out_of_order(a, b) { 1int } else { 0int }
}

/// Exchanging the neighbouring cells `k` and `k + 1` changes the inversion
/// count only through the pair they form.
proof fn lemma_adjacent_swap_inversions(s: Seq<u16>, k: int)
    requires
        0 <= k,
        k + 1 < s.len(),
    ensures
        inversions(swapped(s, k, k + 1)) == inversions(s) - inv_step(s[k], s[k + 1])
            + inv_step(s[k + 1], s[k]),
{
    lemma_adjacent_swap_from(s, k, 0);
}

proof fn lemma_adjacent_swap_from(s: Seq<u16>, k: int, i: int)
    requires
        0 <= i <= k,
        k + 1 < s.len(),
    ensures
        inversions_from(swapped(s, k, k + 1), i) == inversions_from(s, i) - inv_step(
            s[k],
            s[k + 1],
        ) + inv_step(s[k + 1], s[k]),
    decreases k - i,
{
    let t = swapped(s, k, k + 1);
    if i < k {
        lemma_count_adjacent_swap(s[i], s, k, i + 1);
        lemma_adjacent_swap_from(s, k, i + 1);
    } else {
        let a = s[k];
        let b = s[k + 1];
        lemma_count_agree(b, s, t, k + 2);
        lemma_count_agree(a, s, t, k + 2);
        lemma_inversions_agree(s, t, k + 2);
        assert(t[k] == b && t[k + 1] == a);
        assert(count_below(b, t, k + 1) == inv_step(b, a) + count_below(b, t, k + 2));
        assert(inversions_from(t, k + 1) == count_below(a, t, k + 2) + inversions_from(t, k + 2));
        assert(inversions_from(t, k) == count_below(b, t, k + 1) + inversions_from(t, k + 1));
        assert(count_below(a, s, k + 1) == inv_step(a, b) + count_below(a, s, k + 2));
        assert(inversions_from(s, k + 1) == count_below(b, s, k + 2) + inversions_from(s, k + 2));
        assert(inversions_from(s, k) == count_below(a, s, k + 1) + inversions_from(s, k + 1));
    }
}


/// Moving the blank from `b` down to `b + 4` past three tiles that differ from
/// the one it trades places with changes the inversion count by an odd amount.
proof fn lemma_vertical_swap_parity(s: Seq<u16>, b: int)
    requires
        0 <= b,
        b + 4 < s.len(),
        s[b] == 0,
        s[b + 4] != 0,
        forall|j: int| b < j < b + 4 ==> #[trigger] s[j] != 0 && s[j] != s[b + 4],
    ensures
        (inversions(swapped(s, b, b + 4)) + inversions(s)) % 2 == 1,
{
    let t = s[b + 4];
    let x1 = s[b + 1];
    let x2 = s[b + 2];
    let x3 = s[b + 3];
    assert(x1 != 0 && x1 != t);
    assert(x2 != 0 && x2 != t);
    assert(x3 != 0 && x3 != t);
    // The blank walks to `b + 4` one cell at a time ...
    let s1 = swapped(s, b, b + 1);
    lemma_adjacent_swap_inversions(s, b);
    let s2 = swapped(s1, b + 1, b + 2);
    lemma_adjacent_swap_inversions(s1, b + 1);
    let s3 = swapped(s2, b + 2, b + 3);
    lemma_adjacent_swap_inversions(s2, b + 2);
    let s4 = swapped(s3, b + 3, b + 4);
    lemma_adjacent_swap_inversions(s3, b + 3);
    assert(inversions(s4) == inversions(s));
    // ... and the tile walks back to `b`, passing three other tiles.
    assert(s4[b + 2] == x3 && s4[b + 3] == t);
    let s5 = swapped(s4, b + 2, b + 3);
    lemma_adjacent_swap_inversions(s4, b + 2);
    assert(s5[b + 1] == x2 && s5[b + 2] == t);
    let s6 = swapped(s5, b + 1, b + 2);
    lemma_adjacent_swap_inversions(s5, b + 1);
    assert(s6[b] == x1 && s6[b + 1] == t);
    let s7 = swapped(s6, b, b + 1);
    lemma_adjacent_swap_inversions(s6, b);
    assert(s7 =~= swapped(s, b, b + 4));
}

/// The direction that undoes a move in direction `op`.
pub open spec fn opposite(op: Operation) -> Operation {
    match op {
        Operation::UP => Operation::DOWN,
        Operation::DOWN => Operation::UP,
        Operation::LEFT => Operation::RIGHT,
        Operation::RIGHT => Operation::LEFT,
    }
}

/// The blank at `b` already stands against the wall that `op` would push it
/// through: the bottom row for up, the top row for down, the rightmost column
/// for left, the leftmost column for right.
pub open spec fn against_wall(b: int, op: Operation) -> bool {
    match op {
        Operation::UP => b / 4 == 3,
        Operation::DOWN => b / 4 == 0,
        Operation::LEFT => b % 4 == 3,
        Operation::RIGHT => b % 4 == 0,
    }
}

/// The board after the moves of `ops`, in order.
pub open spec fn after_moves(s: Seq<u16>, ops: Seq<Operation>) -> Seq<u16>
    decreases ops.len(),
{
    if ops.len() == 0 {
        s
    } else {
        after_moves(after_move(s, ops[0]), ops.drop_first())
    }
}

/// A board has exactly one blank cell.
proof fn lemma_board_blank(s: Seq<u16>)
    requires
        is_board(s),
    ensures
        first_blank(s, blank_of(s)),
        forall|j: int| 0 <= j < 16 && j != blank_of(s) ==> #[trigger] s[j] != 0,
{
    assert(s.contains(0u16));
    lemma_first_blank(s);
}

/// Exchanging two cells of a board gives a board.
proof fn lemma_swap_keeps_board(s: Seq<u16>, a: int, b: int)
    requires
        is_board(s),
        0 <= a < 16,
        0 <= b < 16,
    ensures
        is_board(swapped(s, a, b)),
{
    let t = swapped(s, a, b);
    assert forall|i: int, j: int| 0 <= i < 16 && 0 <= j < 16 && i != j implies t[i] != t[j] by {
        let si = if i == b { a } else if i == a { b } else { i };
        let sj = if j == b { a } else if j == a { b } else { j };
        assert(t[i] == s[si] && t[j] == s[sj]);
    }
    assert forall|v: u16| v < 16 implies #[trigger] t.contains(v) by {
        assert(s.contains(v));
        let i = choose|i: int| 0 <= i < 16 && s[i] == v;
        let ti = if i == b { a } else if i == a { b } else { i };
        assert(t[ti] == v);
    }
    assert forall|i: int| 0 <= i < 16 implies #[trigger] t[i] < 16 by {
        let si = if i == b { a } else if i == a { b } else { i };
        assert(t[i] == s[si]);
    }
}

/// Trading the blank of a board with another cell gives a board whose blank
/// stands in that cell.
proof fn lemma_swap_blank(s: Seq<u16>, n: int)
    requires
        is_board(s),
        0 <= n < 16,
        n != blank_of(s),
    ensures
        is_board(swapped(s, blank_of(s), n)),
        blank_of(swapped(s, blank_of(s), n)) == n,
{
    let b = blank_of(s);
    let t = swapped(s, b, n);
    lemma_board_blank(s);
    lemma_swap_keeps_board(s, b, n);
    assert(first_blank(t, n));
    lemma_first_blank(t);
}

/// Exchanging two neighbouring tiles, the blank being neither, gives a board
/// that is solvable exactly where the first one is not.
pub(crate) proof fn lemma_tile_swap_flips(s: Seq<u16>, k: int)
    requires
        is_board(s),
        0 <= k,
        k + 1 < 16,
        k != blank_of(s),
        k + 1 != blank_of(s),
    ensures
        is_board(swapped(s, k, k + 1)),
        solvable(swapped(s, k, k + 1)) != solvable(s),
{
    let t = swapped(s, k, k + 1);
    lemma_board_blank(s);
    lemma_swap_keeps_board(s, k, k + 1);
    lemma_adjacent_swap_inversions(s, k);
    assert(s[k] != s[k + 1]);
    assert(first_blank(t, blank_of(s)));
    lemma_first_blank(t);
}

/// Cells that hold the values of a board, in any order, form a board.
pub(crate) proof fn lemma_permutation_keeps_board(s: Seq<u16>, t: Seq<u16>)
    requires
        is_board(s),
        t.to_multiset() == s.to_multiset(),
    ensures
        is_board(t),
{
    s.to_multiset_ensures();
    t.to_multiset_ensures();
    assert forall|v: u16| v < 16 implies #[trigger] t.contains(v) by {
        assert(s.contains(v));
        vstd::seq_lib::to_multiset_contains(s, v);
        vstd::seq_lib::to_multiset_contains(t, v);
    }
    assert forall|i: int| 0 <= i < 16 implies #[trigger] t[i] < 16 by {
        assert(t.contains(t[i]));
        vstd::seq_lib::to_multiset_contains(s, t[i]);
        vstd::seq_lib::to_multiset_contains(t, t[i]);
        assert(s.contains(t[i]));
    }
    s.lemma_multiset_has_no_duplicates();
    t.lemma_multiset_has_no_duplicates_conv();
}

/// A move of the blank leaves the board unchanged exactly where the blank
/// already stands against the wall in that direction.
pub proof fn lemma_wall_moves_are_no_ops(s: Seq<u16>, op: Operation)
    requires
        is_board(s),
    ensures
        (after_move(s, op) == s) <==> against_wall(blank_of(s), op),
{
    lemma_board_blank(s);
    let b = blank_of(s);
    match partner(b, op) {
        Some(n) => {
            assert(s[n] != 0);
            assert(after_move(s, op)[b] != s[b]);
        },
        None => {},
    }
}

/// A move that no wall stops is undone by a move in the opposite direction.
pub proof fn lemma_move_round_trip(s: Seq<u16>, op: Operation)
    requires
        is_board(s),
        !against_wall(blank_of(s), op),
    ensures
        after_move(after_move(s, op), opposite(op)) == s,
{
    lemma_board_blank(s);
    let b = blank_of(s);
    let n = partner(b, op)->Some_0;
    lemma_swap_blank(s, n);
    let t = swapped(s, b, n);
    assert(partner(n, opposite(op)) == Some(b));
    assert(swapped(t, n, b) =~= s);
}

/// Every move keeps a board a board, and keeps it solvable or unsolvable.
pub proof fn lemma_move_keeps_solvable(s: Seq<u16>, op: Operation)
    requires
        is_board(s),
    ensures
        is_board(after_move(s, op)),
        solvable(after_move(s, op)) == solvable(s),
{
    lemma_board_blank(s);
    let b = blank_of(s);
    match partner(b, op) {
        None => {},
        Some(n) => {
            lemma_swap_blank(s, n);
            let t = swapped(s, b, n);
            if n == b + 1 {
                lemma_adjacent_swap_inversions(s, b);
                assert(n / 4 == b / 4);
            } else if n == b - 1 {
                lemma_adjacent_swap_inversions(s, n);
                assert(swapped(s, n, b) =~= t);
                assert(n / 4 == b / 4);
            } else if n == b + 4 {
                lemma_vertical_swap_parity(s, b);
                assert(n / 4 == b / 4 + 1);
            } else {
                assert(n == b - 4);
                lemma_board_blank(t);
                lemma_vertical_swap_parity(t, n);
                assert(swapped(t, n, b) =~= s);
                assert(b / 4 == n / 4 + 1);
            }
        },
    }
}

/// Any sequence of moves keeps a board a board, and keeps it solvable or
/// unsolvable.
pub proof fn lemma_moves_keep_solvable(s: Seq<u16>, ops: Seq<Operation>)
    requires
        is_board(s),
    ensures
        is_board(after_moves(s, ops)),
        solvable(after_moves(s, ops)) == solvable(s),
    decreases ops.len(),
{
    if ops.len() > 0 {
        lemma_move_keeps_solvable(s, ops[0]);
        lemma_moves_keep_solvable(after_move(s, ops[0]), ops.drop_first());
    }
}


/// The pairs of cells `i < j` whose tiles stand in the wrong order.
pub open spec fn inversion_pairs(s: Seq<u16>) -> Set<(int, int)> {
    Set::new(|p: (int, int)| 0 <= p.0 < p.1 < s.len() && out_of_order(s[p.0], s[p.1]))
}

spec fn row_pairs(s: Seq<u16>, i: int, lo: int) -> Set<(int, int)> {
    Set::new(|p: (int, int)| p.0 == i && lo <= p.1 < s.len() && out_of_order(s[i], s[p.1]))
}

spec fn pairs_from(s: Seq<u16>, i: int) -> Set<(int, int)> {
    Set::new(|p: (int, int)| i <= p.0 < p.1 < s.len() && out_of_order(s[p.0], s[p.1]))
}

proof fn lemma_row_pairs(s: Seq<u16>, i: int, lo: int)
    requires
        0 <= i < s.len(),
        0 <= lo <= s.len(),
    ensures
        row_pairs(s, i, lo).finite(),
        row_pairs(s, i, lo).len() == count_below(s[i], s, lo),
    decreases s.len() - lo,
{
    if lo == s.len() {
        assert(row_pairs(s, i, lo) =~= Set::empty());
    } else {
        lemma_row_pairs(s, i, lo + 1);
        if out_of_order(s[i], s[lo]) {
            assert(row_pairs(s, i, lo) =~= row_pairs(s, i, lo + 1).insert((i, lo)));
            assert(!row_pairs(s, i, lo + 1).contains((i, lo)));
        } else {
            assert(row_pairs(s, i, lo) =~= row_pairs(s, i, lo + 1));
        }
    }
}

proof fn lemma_pairs_from(s: Seq<u16>, i: int)
    requires
        0 <= i <= s.len(),
    ensures
        pairs_from(s, i).finite(),
        pairs_from(s, i).len() == inversions_from(s, i),
    decreases s.len() - i,
{
    if i == s.len() {
        assert(pairs_from(s, i) =~= Set::empty());
    } else {
        lemma_row_pairs(s, i, i + 1);
        lemma_pairs_from(s, i + 1);
        let row = row_pairs(s, i, i + 1);
        let rest = pairs_from(s, i + 1);
        assert(pairs_from(s, i) =~= row + rest);
        assert(row.disjoint(rest));
        vstd::set_lib::lemma_set_disjoint_lens(row, rest);
    }
}

/// The inversion count is the number of pairs of cells `i < j` whose tiles
/// stand in the wrong order, the blank taking part in none.
pub proof fn lemma_inversions_count_pairs(s: Seq<u16>)
    ensures
        inversion_pairs(s).finite(),
        inversions(s) == inversion_pairs(s).len(),
{
    lemma_pairs_from(s, 0);
    assert(pairs_from(s, 0) =~= inversion_pairs(s));
}

} // verus!
