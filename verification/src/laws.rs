use vstd::prelude::*;

use crate::board::dir_measure;
use crate::board::idx;
use crate::board::in_range;
use crate::board::lemma_legal_upto_elems;
use crate::board::unit_dir;
use crate::board::BanModel;
use crate::counting::count_if;
use crate::counting::lemma_count_if_ext;
use crate::counting::lemma_count_if_insert;
use crate::counting::lemma_count_if_none;
use crate::counting::lemma_count_if_or_disjoint;
use crate::search::best_spec;
use crate::search::cand_score;
use crate::search::run_upto;
use crate::search::sel_better;
use crate::stone::Stone;
use crate::{BAN_SIZE, CELL_COUNT};

verus! {

/// Where a cell with flat index `i` may lie relative to a walk that
/// starts at `(y, x)` and moves in direction `(dy, dx)`.
spec fn beyond(y: int, x: int, dy: int, dx: int, i: int) -> bool {
    let r = i / (BAN_SIZE as int);
    let c = i % (BAN_SIZE as int);
    &&& (dy == 1 ==> r > y)
    &&& (dy == -1 ==> r < y)
    &&& (dy == 0 ==> r == y)
    &&& (dx == 1 ==> c > x)
    &&& (dx == -1 ==> c < x)
    &&& (dx == 0 ==> c == x)
}

/// Run members are on-grid opponent stones strictly beyond the start
/// of the walk.
proof fn lemma_run_member_facts(m: BanModel, y: int, x: int, dy: int, dx: int)
    requires
        unit_dir(dy, dx),
        m.wf(),
    ensures
        forall|i: int| #![trigger m.run_member(y, x, dy, dx, i)]
            m.run_member(y, x, dy, dx, i) ==> 0 <= i < CELL_COUNT && m.grid[i] == Some(
                m.teban.spec_reverse(),
            ) && beyond(y, x, dy, dx, i),
    decreases dir_measure(y, x, dy, dx),
{
    let ny = y + dy;
    let nx = x + dx;
    if m.at(ny, nx) is Some {
        let s = m.at(ny, nx).unwrap();
        if s != m.teban {
            lemma_run_member_facts(m, ny, nx, dy, dx);
            assert forall|i: int| #![trigger m.run_member(y, x, dy, dx, i)]
                m.run_member(y, x, dy, dx, i) implies 0 <= i < CELL_COUNT && m.grid[i] == Some(
                m.teban.spec_reverse(),
            ) && beyond(y, x, dy, dx, i) by {
                assert(in_range(ny, nx));
                assert(idx(ny, nx) / (BAN_SIZE as int) == ny && idx(ny, nx) % (BAN_SIZE as int)
                    == nx) by {
                    vstd::arithmetic::div_mod::lemma_fundamental_div_mod_converse(
                        idx(ny, nx),
                        BAN_SIZE as int,
                        ny,
                        nx,
                    );
                }
                if i == idx(ny, nx) {
                    assert(m.grid[i] == Some(s));
                    assert(0 <= ny < BAN_SIZE && 0 <= nx < BAN_SIZE);
                    assert(i == ny * (BAN_SIZE as int) + nx);
                    assert(0 <= i < CELL_COUNT);
                } else {
                    assert(m.run_member(ny, nx, dy, dx, i));
                    assert(0 <= i < CELL_COUNT);
                }
            }
        } else {
            assert(forall|i: int| !(#[trigger] m.run_member(y, x, dy, dx, i)));
        }
    } else {
        assert(forall|i: int| !(#[trigger] m.run_member(y, x, dy, dx, i)));
    }
}

/// A closed walk flips exactly as many cells as its run is long.
proof fn lemma_count_run_member(m: BanModel, y: int, x: int, dy: int, dx: int)
    requires
        unit_dir(dy, dx),
        m.wf(),
    ensures
        count_if(|i: int| m.run_member(y, x, dy, dx, i), CELL_COUNT as int) == m.run_len(
            y,
            x,
            dy,
            dx,
        ),
    decreases dir_measure(y, x, dy, dx),
{
    let n = CELL_COUNT as int;
    let ny = y + dy;
    let nx = x + dx;
    if m.at(ny, nx) is Some && m.at(ny, nx).unwrap() != m.teban {
        lemma_count_run_member(m, ny, nx, dy, dx);
        lemma_run_member_facts(m, ny, nx, dy, dx);
        let a = idx(ny, nx);
        assert(in_range(ny, nx));
        assert(a / (BAN_SIZE as int) == ny && a % (BAN_SIZE as int) == nx) by {
            vstd::arithmetic::div_mod::lemma_fundamental_div_mod_converse(
                a,
                BAN_SIZE as int,
                ny,
                nx,
            );
        }
        assert(!m.run_member(ny, nx, dy, dx, a));
        assert(0 <= a < n);
        lemma_count_if_insert(
            |i: int| m.run_member(y, x, dy, dx, i),
            |i: int| m.run_member(ny, nx, dy, dx, i),
            a,
            n,
        );
    } else {
        lemma_count_if_none(|i: int| m.run_member(y, x, dy, dx, i), n);
    }
}

/// A direction flips exactly `flip_count_dir` cells.
proof fn lemma_count_flipped_dir(m: BanModel, y: int, x: int, dy: int, dx: int)
    requires
        unit_dir(dy, dx),
        m.wf(),
    ensures
        count_if(|i: int| m.flipped_in_dir(y, x, dy, dx, i), CELL_COUNT as int)
            == m.flip_count_dir(y, x, dy, dx),
{
    let n = CELL_COUNT as int;
    if m.dir_closed(y, x, dy, dx) {
        lemma_count_run_member(m, y, x, dy, dx);
        lemma_count_if_ext(
            |i: int| m.flipped_in_dir(y, x, dy, dx, i),
            |i: int| m.run_member(y, x, dy, dx, i),
            n,
        );
    } else {
        lemma_count_if_none(|i: int| m.flipped_in_dir(y, x, dy, dx, i), n);
    }
}

/// Every legal move of a board names a currently empty cell.
pub proof fn lemma_legal_moves_are_empty(m: BanModel)
    ensures
        forall|k: int| #![trigger m.legal_seq()[k]]
            0 <= k < m.legal_seq().len() ==> m.at(
                m.legal_seq()[k].0 as int,
                m.legal_seq()[k].1 as int,
            ) is None,
{
    lemma_legal_upto_elems(m, CELL_COUNT as int);
    assert forall|k: int|
        0 <= k < m.legal_seq().len() implies m.at(
        (#[trigger] m.legal_seq()[k]).0 as int,
        m.legal_seq()[k].1 as int,
    ) is None by {
        let p = m.legal_seq()[k];
        assert(m.is_legal(p.0 as int, p.1 as int));
        assert(m.cell_flip_count(p.0 as int, p.1 as int) > 0);
    }
}

/// On a terminal position the score is exactly 1000 or exactly 0,
/// and it is 1000 precisely on a strict stone majority for the mover.
pub proof fn lemma_terminal_score(m: BanModel)
    requires
        m.is_terminal(),
    ensures
        m.score_spec() == 1000 || m.score_spec() == 0,
        (m.score_spec() == 1000) == (m.count_stone(m.teban) > m.count_stone(
            m.teban.spec_reverse(),
        )),
{
}

/// On a non-terminal position the score is the number of legal moves
/// plus 100 for each corner cell the mover holds.
pub proof fn lemma_nonterminal_score(m: BanModel)
    requires
        !m.is_terminal(),
    ensures
        m.score_spec() == m.legal_seq().len() + 100 * m.corners_owned(),
{
}

/// With `n` candidates that all score the parent position's own score
/// under a maximising pass, the first candidate is chosen.
proof fn lemma_run_upto_all_parent(m: BanModel, cands: Seq<(usize, usize)>, n: int)
    requires
        1 <= n <= cands.len(),
    ensures
        run_upto(m, cands, 0, n) == (Some(cands[0]), m.score_spec()),
    decreases n,
{
    if n == 1 {
        assert(run_upto(m, cands, 0, 0) == (None::<(usize, usize)>, m.score_spec()));
        assert(cand_score(m, cands[0], 0) == m.score_spec());
    } else {
        lemma_run_upto_all_parent(m, cands, n - 1);
        assert(!sel_better(true, cand_score(m, cands[n - 1], 0), m.score_spec()));
    }
}

/// At depth 0 every legal move is scored with the parent position's
/// own score — the move itself is never looked at — and so the first
/// legal move is the one chosen.
pub proof fn lemma_best_move_depth_zero(m: BanModel)
    ensures
        forall|k: int| #![trigger m.legal_seq()[k]]
            0 <= k < m.legal_seq().len() ==> cand_score(m, m.legal_seq()[k], 0) == m.score_spec(),
        m.legal_seq().len() > 0 ==> best_spec(m, 0) == (
            Some(m.legal_seq()[0]),
            m.score_spec(),
        ),
{
    if m.legal_seq().len() > 0 {
        lemma_run_upto_all_parent(m, m.legal_seq(), m.legal_seq().len() as int);
    }
}

/// A move flips exactly the sum, over the 8 compass directions, of
/// the cells that direction flips: no cell is flipped through two
/// different directions.
proof fn lemma_count_flipped_cell(m: BanModel, y: int, x: int)
    requires
        m.wf(),
    ensures
        count_if(|i: int| m.flipped_cell(y, x, i), CELL_COUNT as int) == m.flip_count_dir(
            y,
            x,
            -1,
            -1,
        ) + m.flip_count_dir(y, x, -1, 0) + m.flip_count_dir(y, x, -1, 1) + m.flip_count_dir(
            y,
            x,
            0,
            -1,
        ) + m.flip_count_dir(y, x, 0, 1) + m.flip_count_dir(y, x, 1, -1) + m.flip_count_dir(
            y,
            x,
            1,
            0,
        ) + m.flip_count_dir(y, x, 1, 1),
{
    let n = CELL_COUNT as int;
    lemma_run_member_facts(m, y, x, -1, -1);
    lemma_run_member_facts(m, y, x, -1, 0);
    lemma_run_member_facts(m, y, x, -1, 1);
    lemma_run_member_facts(m, y, x, 0, -1);
    lemma_run_member_facts(m, y, x, 0, 1);
    lemma_run_member_facts(m, y, x, 1, -1);
    lemma_run_member_facts(m, y, x, 1, 0);
    lemma_run_member_facts(m, y, x, 1, 1);
    lemma_count_flipped_dir(m, y, x, -1, -1);
    lemma_count_flipped_dir(m, y, x, -1, 0);
    lemma_count_flipped_dir(m, y, x, -1, 1);
    lemma_count_flipped_dir(m, y, x, 0, -1);
    lemma_count_flipped_dir(m, y, x, 0, 1);
    lemma_count_flipped_dir(m, y, x, 1, -1);
    lemma_count_flipped_dir(m, y, x, 1, 0);
    lemma_count_flipped_dir(m, y, x, 1, 1);
    let f1 = |i: int| m.flipped_in_dir(y, x, -1, -1, i);
    let f2 = |i: int| m.flipped_in_dir(y, x, -1, 0, i);
    let f3 = |i: int| m.flipped_in_dir(y, x, -1, 1, i);
    let f4 = |i: int| m.flipped_in_dir(y, x, 0, -1, i);
    let f5 = |i: int| m.flipped_in_dir(y, x, 0, 1, i);
    let f6 = |i: int| m.flipped_in_dir(y, x, 1, -1, i);
    let f7 = |i: int| m.flipped_in_dir(y, x, 1, 0, i);
    let f8 = |i: int| m.flipped_in_dir(y, x, 1, 1, i);
    let q2 = |i: int| f1(i) || f2(i);
    let q3 = |i: int| q2(i) || f3(i);
    let q4 = |i: int| q3(i) || f4(i);
    let q5 = |i: int| q4(i) || f5(i);
    let q6 = |i: int| q5(i) || f6(i);
    let q7 = |i: int| q6(i) || f7(i);
    let q8 = |i: int| q7(i) || f8(i);
    lemma_count_if_or_disjoint(f1, f2, q2, n);
    lemma_count_if_or_disjoint(q2, f3, q3, n);
    lemma_count_if_or_disjoint(q3, f4, q4, n);
    lemma_count_if_or_disjoint(q4, f5, q5, n);
    lemma_count_if_or_disjoint(q5, f6, q6, n);
    lemma_count_if_or_disjoint(q6, f7, q7, n);
    lemma_count_if_or_disjoint(q7, f8, q8, n);
    lemma_count_if_ext(q8, |i: int| m.flipped_cell(y, x, i), n);
    lemma_count_if_ext(f1, |i: int| m.flipped_in_dir(y, x, -1, -1, i), n);
    lemma_count_if_ext(f2, |i: int| m.flipped_in_dir(y, x, -1, 0, i), n);
    lemma_count_if_ext(f3, |i: int| m.flipped_in_dir(y, x, -1, 1, i), n);
    lemma_count_if_ext(f4, |i: int| m.flipped_in_dir(y, x, 0, -1, i), n);
    lemma_count_if_ext(f5, |i: int| m.flipped_in_dir(y, x, 0, 1, i), n);
    lemma_count_if_ext(f6, |i: int| m.flipped_in_dir(y, x, 1, -1, i), n);
    lemma_count_if_ext(f7, |i: int| m.flipped_in_dir(y, x, 1, 0, i), n);
    lemma_count_if_ext(f8, |i: int| m.flipped_in_dir(y, x, 1, 1, i), n);
}

/// Applying a legal move raises the mover's stone count by one plus
/// the number of flipped cells, lowers the opponent's by exactly that
/// number of flips, and so grows the total stone count by exactly the
/// one placed stone.
pub proof fn lemma_apply_move_counts(m: BanModel, y: int, x: int)
    requires
        m.wf(),
        m.is_legal(y, x),
    ensures
        m.apply_spec(y, x).count_stone(m.teban) == m.count_stone(m.teban) + 1
            + m.cell_flip_count(y, x),
        m.apply_spec(y, x).count_stone(m.teban.spec_reverse()) + m.cell_flip_count(y, x)
            == m.count_stone(m.teban.spec_reverse()),
        m.apply_spec(y, x).count_stone(Stone::Black) + m.apply_spec(y, x).count_stone(
            Stone::White,
        ) == m.count_stone(Stone::Black) + m.count_stone(Stone::White) + 1,
{
    let n = CELL_COUNT as int;
    let mv = m.teban;
    let opp = m.teban.spec_reverse();
    let a = m.apply_spec(y, x);
    let i0 = idx(y, x);
    assert(m.at(y, x) is None);
    assert(0 <= i0 < n && m.grid[i0] is None);
    lemma_run_member_facts(m, y, x, -1, -1);
    lemma_run_member_facts(m, y, x, -1, 0);
    lemma_run_member_facts(m, y, x, -1, 1);
    lemma_run_member_facts(m, y, x, 0, -1);
    lemma_run_member_facts(m, y, x, 0, 1);
    lemma_run_member_facts(m, y, x, 1, -1);
    lemma_run_member_facts(m, y, x, 1, 0);
    lemma_run_member_facts(m, y, x, 1, 1);
    let fF = |i: int| m.flipped_cell(y, x, i);
    assert forall|i: int| #[trigger] fF(i) implies 0 <= i < n && m.grid[i] == Some(opp) by {}
    lemma_count_flipped_cell(m, y, x);
    assert(count_if(fF, n) == m.cell_flip_count(y, x)) by {
        lemma_count_if_ext(fF, |i: int| m.flipped_cell(y, x, i), n);
    }
    // the mover's stones: the placed cell, the flipped cells, and the
    // mover's old stones, pairwise distinct
    let f_old_mv = |i: int| m.grid[i] == Some(mv);
    let f_union = |i: int| fF(i) || f_old_mv(i);
    let f_new_mv = |i: int| a.grid[i] == Some(mv);
    lemma_count_if_or_disjoint(fF, f_old_mv, f_union, n);
    lemma_count_if_insert(f_new_mv, f_union, i0, n);
    assert(a.count_stone(mv) == count_if(f_new_mv, n)) by {
        lemma_count_if_ext(f_new_mv, |i: int| a.grid[i] == Some(mv), n);
    }
    assert(m.count_stone(mv) == count_if(f_old_mv, n)) by {
        lemma_count_if_ext(f_old_mv, |i: int| m.grid[i] == Some(mv), n);
    }
    // the opponent's stones: the old ones except the flipped cells
    let f_old_opp = |i: int| m.grid[i] == Some(opp);
    let f_kept_opp = |i: int| f_old_opp(i) && !fF(i);
    let f_new_opp = |i: int| a.grid[i] == Some(opp);
    lemma_count_if_ext(f_new_opp, f_kept_opp, n);
    lemma_count_if_or_disjoint(f_kept_opp, fF, f_old_opp, n);
    assert(a.count_stone(opp) == count_if(f_new_opp, n)) by {
        lemma_count_if_ext(f_new_opp, |i: int| a.grid[i] == Some(opp), n);
    }
    assert(m.count_stone(opp) == count_if(f_old_opp, n)) by {
        lemma_count_if_ext(f_old_opp, |i: int| m.grid[i] == Some(opp), n);
    }
}

/// A board without a legal move is answered, at every depth, with no
/// candidate and the board's own score.
pub proof fn lemma_best_move_without_candidates(m: BanModel, d: nat)
    requires
        m.legal_seq().len() == 0,
    ensures
        best_spec(m, d) == (None::<(usize, usize)>, m.score_spec()),
{
}

} // verus!
