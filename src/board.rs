use vstd::prelude::*;
use crate::external::shuffle_cells;
use crate::parity::{
    inversion_pairs, lemma_inversions_count_pairs, lemma_move_keeps_solvable,
    lemma_permutation_keeps_board, lemma_tile_swap_flips,
};

verus! {

/// The direction in which the blank cell moves.
#[derive(Clone, Copy, Debug)]
pub enum Operation {
    UP,
    DOWN,
    LEFT,
    RIGHT,
}

/// Two tiles, read in index order, that stand in the wrong order (the blank
/// takes part in no such pair).
pub open spec fn out_of_order(a: u16, b: u16) -> bool {
    a != 0 && b != 0 && a > b
}

/// How many cells at index `lo` or later hold a tile that `v` should follow.
pub open spec fn count_below(v: u16, s: Seq<u16>, lo: int) -> nat
    decreases s.len() - lo,
{
    if lo < 0 || lo >= s.len() {
        0
    } else {
        (if out_of_order(v, s[lo]) { 1nat } else { 0nat }) + count_below(v, s, lo + 1)
    }
}

/// The inversions among the pairs whose first cell is at index `i` or later.
pub open spec fn inversions_from(s: Seq<u16>, i: int) -> nat
    decreases s.len() - i,
{
    if i < 0 || i >= s.len() {
        0
    } else {
        count_below(s[i], s, i + 1) + inversions_from(s, i + 1)
    }
}

/// The number of pairs of cells `i < j` whose tiles stand in the wrong order.
pub open spec fn inversions(s: Seq<u16>) -> nat {
    inversions_from(s, 0)
}

/// Counts the inversions of a board.
pub fn count_inversion(arr: &[u16; 16]) -> (r: u16)
    ensures
        r == inversions(arr@),
        r == inversion_pairs(arr@).len(),
{
    proof {
        lemma_inversions_count_pairs(arr@);
    }
    let mut count: u16 = 0;
    let mut i: usize = 0;
    while i < 16
        invariant
            i <= 16,
            count <= 16 * i,
            count + inversions_from(arr@, i as int) == inversions(arr@),
        decreases 16 - i,
    {
        let mut row: u16 = 0;
        let mut j: usize = i + 1;
        while j < 16
            invariant
                i < 16,
                i + 1 <= j <= 16,
                row <= j,
                row + count_below(arr[i as int], arr@, j as int) == count_below(
                    arr[i as int],
                    arr@,
                    i + 1,
                ),
            decreases 16 - j,
        {
            if arr[i] != 0 && arr[j] != 0 && arr[i] > arr[j] {
                row = row + 1;
            }
            j = j + 1;
        }
        count = count + row;
        i = i + 1;
    }
    count
}


/// Sixteen cells holding each of the values 0 to 15 exactly once; 0 is the blank.
pub open spec fn is_board(s: Seq<u16>) -> bool {
    &&& s.len() == 16
    &&& forall|i: int| 0 <= i < 16 ==> #[trigger] s[i] < 16
    &&& s.no_duplicates()
    &&& forall|v: u16| v < 16 ==> #[trigger] s.contains(v)
}

/// Some cell of the board is blank.
pub open spec fn has_blank(s: Seq<u16>) -> bool {
    exists|b: int| 0 <= b < s.len() && s[b] == 0
}

/// `b` is the first blank cell of the board.
pub open spec fn first_blank(s: Seq<u16>, b: int) -> bool {
    &&& 0 <= b < s.len()
    &&& s[b] == 0
    &&& forall|k: int| 0 <= k < b ==> s[k] != 0
}

/// The index of the (first) blank cell.
pub open spec fn blank_of(s: Seq<u16>) -> int {
    choose|b: int| first_blank(s, b)
}

/// The row of the blank, counted from the bottom and starting at 1.
pub open spec fn blank_row_from_bottom(s: Seq<u16>) -> int {
    4 - blank_of(s) / 4
}

/// A layout from which the solved layout can be reached: the blank's row,
/// counted from the bottom, and the inversion count have an odd sum.
pub open spec fn solvable(s: Seq<u16>) -> bool {
    (blank_row_from_bottom(s) + inversions(s)) % 2 == 1
}

/// Tiles 1 to 15 in index order, then the blank.
pub open spec fn is_solved(s: Seq<u16>) -> bool {
    &&& s.len() == 16
    &&& forall|i: int| 0 <= i < 15 ==> #[trigger] s[i] == i + 1
    &&& s[15] == 0
}

/// The cell that the blank at `b` trades places with, or `None` where a wall
/// stops the move.
pub open spec fn partner(b: int, op: Operation) -> Option<int> {
    match op {
        Operation::UP => if b + 4 < 16 { Some(b + 4) } else { None },
        Operation::DOWN => if b - 4 >= 0 { Some(b - 4) } else { None },
        Operation::LEFT => if b + 1 < 16 && b % 4 != 3 { Some(b + 1) } else { None },
        Operation::RIGHT => if b - 1 >= 0 && b % 4 != 0 { Some(b - 1) } else { None },
    }
}

/// The board with the values of cells `i` and `j` exchanged.
pub open spec fn swapped(s: Seq<u16>, i: int, j: int) -> Seq<u16> {
    s.update(i, s[j]).update(j, s[i])
}

/// The board after the blank moves in direction `op`; unchanged where a wall
/// stops it.
pub open spec fn after_move(s: Seq<u16>, op: Operation) -> Seq<u16> {
    match partner(blank_of(s), op) {
        Some(n) => swapped(s, blank_of(s), n),
        None => s,
    }
}

/// A first blank exists wherever some cell is blank.
pub proof fn lemma_first_blank(s: Seq<u16>)
    requires
        has_blank(s),
    ensures
        first_blank(s, blank_of(s)),
{
    let w = choose|w: int| 0 <= w < s.len() && s[w] == 0;
    lemma_first_blank_upto(s, w);
}

proof fn lemma_first_blank_upto(s: Seq<u16>, w: int)
    requires
        0 <= w < s.len(),
        s[w] == 0,
    ensures
        exists|b: int| first_blank(s, b),
    decreases w,
{
    if forall|k: int| 0 <= k < w ==> s[k] != 0 {
        assert(first_blank(s, w));
    } else {
        let k = choose|k: int| 0 <= k < w && s[k] == 0;
        lemma_first_blank_upto(s, k);
    }
}

/// A board has a blank cell.
pub proof fn lemma_board_has_blank(s: Seq<u16>)
    requires
        is_board(s),
    ensures
        has_blank(s),
{
    assert(s.contains(0u16));
}

/// Finds the first blank cell.
fn find_blank(arr: &[u16; 16]) -> (b: usize)
    requires
        has_blank(arr@),
    ensures
        b == blank_of(arr@),
        first_blank(arr@, b as int),
{
    let ghost w = choose|w: int| 0 <= w < 16 && arr@[w] == 0;
    let mut i: usize = 0;
    while arr[i] != 0
        invariant
            0 <= i <= w < 16,
            arr@[w] == 0,
            forall|k: int| 0 <= k < i ==> arr@[k] != 0,
        decreases w - i,
    {
        i = i + 1;
    }
    proof {
        lemma_first_blank(arr@);
    }
    i
}

/// Tells whether a board is solvable.
pub fn is_solvable(arr: &[u16; 16]) -> (r: bool)
    requires
        has_blank(arr@),
    ensures
        r == solvable(arr@),
{
    let blank_index = find_blank(arr);
    let blank_row: usize = 4 - blank_index / 4;
    let inversion_count = count_inversion(arr);
    if blank_row % 2 == 0 {
        inversion_count % 2 == 1
    } else {
        inversion_count % 2 == 0
    }
}

/// Moves the blank one cell in direction `operation`; where a wall stops it,
/// the board comes back unchanged.
pub fn move_tile(arr: &[u16; 16], operation: Operation) -> (r: [u16; 16])
    requires
        has_blank(arr@),
    ensures
        r@ == after_move(arr@, operation),
        is_board(arr@) ==> is_board(r@) && solvable(r@) == solvable(arr@),
{
    proof {
        if is_board(arr@) {
            lemma_move_keeps_solvable(arr@, operation);
        }
    }
    let mut next_arr = *arr;
    let index_blank = find_blank(arr);
    let target: Option<usize> = match operation {
        Operation::UP => if index_blank + 4 < 16 { Some(index_blank + 4) } else { None },
        Operation::DOWN => if index_blank >= 4 { Some(index_blank - 4) } else { None },
        Operation::LEFT => if index_blank % 4 != 3 { Some(index_blank + 1) } else { None },
        Operation::RIGHT => if index_blank % 4 != 0 { Some(index_blank - 1) } else { None },
    };
    if let Some(index_to_swap) = target {
        let tile = next_arr[index_to_swap];
        next_arr[index_blank] = tile;
        next_arr[index_to_swap] = 0;
        assert(next_arr@ =~= swapped(arr@, index_blank as int, index_to_swap as int));
    } else {
        assert(next_arr@ =~= arr@);
    }
    next_arr
}

/// Tells whether the board is in the solved layout.
pub fn is_done(arr_state: &[u16; 16]) -> (r: bool)
    ensures
        r == is_solved(arr_state@),
{
    let mut x: usize = 0;
    while x < 15
        invariant
            x <= 15,
            forall|i: int| 0 <= i < x ==> arr_state@[i] == i + 1,
        decreases 15 - x,
    {
        if arr_state[x] as usize != x + 1 {
            return false;
        }
        x = x + 1;
    }
    arr_state[15] == 0
}

/// Tells whether two boards hold the same value in every cell.
pub fn is_state_same(arr1: [u16; 16], arr2: [u16; 16]) -> (r: bool)
    ensures
        r == (arr1@ == arr2@),
{
    let mut i: usize = 0;
    while i < 16
        invariant
            i <= 16,
            forall|k: int| 0 <= k < i ==> arr1@[k] == arr2@[k],
        decreases 16 - i,
    {
        if arr1[i] != arr2[i] {
            return false;
        }
        i = i + 1;
    }
    assert(arr1@ =~= arr2@);
    true
}


/// How many shuffles are drawn before an unsolvable one is mended.
pub const SHUFFLE_ROUNDS: u32 = 64;

/// The first of the two neighbouring cells whose tiles are exchanged to mend
/// an unsolvable draw: cells 0 and 1, or cells 14 and 15 where the blank
/// stands in the first two.
pub open spec fn mend_at(s: Seq<u16>) -> int {
    if blank_of(s) < 2 { 14 } else { 0 }
}

/// Decides on one shuffled draw: a solvable draw is kept; an unsolvable one
/// is thrown back, unless it is the last, which is mended by exchanging the
/// tiles at `mend_at` and the cell after it.
pub fn settle_draw(draw: [u16; 16], last_round: bool) -> (r: Option<[u16; 16]>)
    requires
        is_board(draw@),
    ensures
        solvable(draw@) ==> r == Some(draw),
        !solvable(draw@) && !last_round ==> r is None,
        !solvable(draw@) && last_round ==> r is Some && r->Some_0@ == swapped(
            draw@,
            mend_at(draw@),
            mend_at(draw@) + 1,
        ),
        r is Some ==> is_board(r->Some_0@) && solvable(r->Some_0@),
{
    proof {
        lemma_board_has_blank(draw@);
    }
    if is_solvable(&draw) {
        return Some(draw);
    }
    if !last_round {
        return None;
    }
    let blank = find_blank(&draw);
    let k: usize = if blank < 2 { 14 } else { 0 };
    proof {
        lemma_tile_swap_flips(draw@, k as int);
    }
    let mut mended = draw;
    mended[k] = draw[k + 1];
    mended[k + 1] = draw[k];
    assert(mended@ =~= swapped(draw@, k as int, k as int + 1));
    Some(mended)
}

/// A random solvable board.
///
/// The cells are shuffled until the layout is solvable. Should every one of
/// `SHUFFLE_ROUNDS` draws come out unsolvable (a chance of one in 2^64), the
/// last one is mended by exchanging two neighbouring tiles. That exchange
/// pairs unsolvable layouts one to one with solvable ones, so every solvable
/// layout stays equally likely.
pub fn shuffle_arr(rng: &mut rand::rngs::ThreadRng) -> (r: [u16; 16])
    ensures
        is_board(r@),
        solvable(r@),
{
    let mut arr: [u16; 16] = [0; 16];
    let mut i: usize = 0;
    while i < 16
        invariant
            i <= 16,
            forall|k: int| 0 <= k < i ==> arr@[k] == k,
        decreases 16 - i,
    {
        arr[i] = i as u16;
        i = i + 1;
    }
    assert forall|v: u16| v < 16 implies #[trigger] arr@.contains(v) by {
        assert(arr@[v as int] == v);
    }
    let mut rounds: u32 = 1;
    loop
        invariant
            is_board(arr@),
            1 <= rounds <= SHUFFLE_ROUNDS,
        decreases SHUFFLE_ROUNDS - rounds,
    {
        let ghost before = arr@;
        shuffle_cells(&mut arr, rng);
        proof {
            lemma_permutation_keeps_board(before, arr@);
        }
        if let Some(board) = settle_draw(arr, rounds == SHUFFLE_ROUNDS) {
            return board;
        }
        rounds = rounds + 1;
    }
}

} // verus!
