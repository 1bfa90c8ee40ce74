use vstd::prelude::*;

use crate::board::decode_grid;
use crate::board::lemma_legal_upto_elems;
use crate::board::params_to_ban;
use crate::board::Ban;
use crate::board::BanModel;
use crate::stone::Stone;
use crate::{BAN_SIZE, CELL_COUNT, SEARCH_DEPTH};

verus! {

/// Whether score `s` displaces the best score seen so far under the
/// selection policy: strictly greater when maximising, strictly
/// smaller when minimising, so ties keep the earlier candidate.
pub open spec fn sel_better(maximize: bool, s: nat, best: nat) -> bool {
    if maximize {
        s > best
    } else {
        s < best
    }
}

/// The state of the search after looking at the first `n` candidate
/// moves of `cands` on `m` with `d` plies left: the best candidate so
/// far and its score, starting from no candidate and the position's
/// own score.
pub open spec fn run_upto(m: BanModel, cands: Seq<(usize, usize)>, d: nat, n: int) -> (
    Option<(usize, usize)>,
    nat,
)
    decreases d, 0int, n,
{
    if n <= 0 {
        (None, m.score_spec())
    } else {
        let prev = run_upto(m, cands, d, n - 1);
        let p = cands[n - 1];
        let s = cand_score(m, p, d);
        if prev.0 is None || sel_better(d % 2 == 0, s, prev.1) {
            (Some(p), s)
        } else {
            prev
        }
    }
}

/// The score a candidate move earns: with no plies left the parent
/// position's own score, untouched by the move itself; otherwise the
/// score of the best answer to the position the move leads to.
pub open spec fn cand_score(m: BanModel, p: (usize, usize), d: nat) -> nat
    decreases d, 0int, 0int,
{
    if d == 0 {
        m.score_spec()
    } else {
        best_spec(m.apply_spec(p.0 as int, p.1 as int), (d - 1) as nat).1
    }
}

/// The move the depth-`d` minimax search picks on `m` and its score:
/// the candidate with the greatest score when `d` is even and with the
/// smallest when `d` is odd, earliest first on ties; with no legal
/// move at all, no candidate and the position's own score.
pub open spec fn best_spec(m: BanModel, d: nat) -> (Option<(usize, usize)>, nat)
    decreases d, 1int, 0int,
{
    run_upto(m, m.legal_seq(), d, m.legal_seq().len() as int)
}

/// The search only ever picks one of the candidates it was given.
pub proof fn lemma_run_upto_pos(m: BanModel, cands: Seq<(usize, usize)>, d: nat, n: int)
    ensures
        match run_upto(m, cands, d, n).0 {
            Some(p) => exists|k: int| 0 <= k < n && p == #[trigger] cands[k],
            None => true,
        },
    decreases n,
{
    if n > 0 {
        lemma_run_upto_pos(m, cands, d, n - 1);
        let prev = run_upto(m, cands, d, n - 1);
        let s = cand_score(m, cands[n - 1], d);
        if prev.0 is None || sel_better(d % 2 == 0, s, prev.1) {
            assert(run_upto(m, cands, d, n).0 == Some(cands[n - 1]));
        }
    }
}

/// Depth-limited minimax over the legal moves of `ban`: the chosen
/// move and its score, exactly as `best_spec` describes.
pub fn get_position_score(ban: Ban, index: usize) -> (r: (Option<(usize, usize)>, usize))
    requires
        ban.wf(),
    ensures
        r.0 == best_spec(ban@, index as nat).0,
        r.1 as int == best_spec(ban@, index as nat).1,
    decreases index,
{
    let positions = ban.get_positions();
    proof {
        lemma_legal_upto_elems(ban@, CELL_COUNT as int);
    }
    let maximize = index % 2 == 0;
    let mut best_pos: Option<(usize, usize)> = None;
    let mut best_score: usize = ban.get_score();
    let mut i: usize = 0;
    while i < positions.len()
        invariant
            ban.wf(),
            positions@ == ban@.legal_seq(),
            maximize == (index % 2 == 0),
            i <= positions.len(),
            forall|k: int| #![trigger positions@[k]]
                0 <= k < positions@.len() ==> {
                    let p = positions@[k];
                    &&& p.0 < BAN_SIZE
                    &&& p.1 < BAN_SIZE
                },
            best_pos == run_upto(ban@, ban@.legal_seq(), index as nat, i as int).0,
            best_score as int == run_upto(ban@, ban@.legal_seq(), index as nat, i as int).1,
        decreases positions.len() - i,
    {
        let p = positions[i];
        let s: usize = if index == 0 {
            ban.get_score()
        } else {
            let next_ban = ban.put_stone(p);
            let deeper = get_position_score(next_ban, index - 1);
            deeper.1
        };
        proof {
            assert(s as int == cand_score(ban@, p, index as nat));
        }
        if best_pos.is_none() || (maximize && s > best_score) || (!maximize && s < best_score) {
            best_pos = Some(p);
            best_score = s;
        }
        i = i + 1;
    }
    (best_pos, best_score)
}

/// A request whose mover code names no player.
#[derive(Clone, Copy, PartialEq, Eq, Structural, Debug)]
pub enum RequestError {
    InvalidTeban,
}

/// The answer to a decoded request: the cell the search picks for the
/// mover, or `(-1, -1)` when it reports no move.
pub open spec fn response_spec(teban: i8, banmen: [[i8; BAN_SIZE]; BAN_SIZE]) -> (
    i8,
    i8,
)
    recommends
        teban == 1 || teban == -1,
{
    let m = BanModel { grid: decode_grid(banmen), teban: Stone::spec_value_of(teban).unwrap() };
    match best_spec(m, SEARCH_DEPTH as nat).0 {
        Some(p) => (p.0 as i8, p.1 as i8),
        None => (-1i8, -1i8),
    }
}

/// Answers one request: rejects the mover code `0`, and otherwise
/// searches the decoded board to the fixed depth and returns the
/// chosen cell, `(-1, -1)` when there is none.
pub fn handle_request(teban: i8, banmen: [[i8; BAN_SIZE]; BAN_SIZE]) -> (r: Result<
    (i8, i8),
    RequestError,
>)
    requires
        teban == 0 || teban == 1 || teban == -1,
    ensures
        (r is Err) == (teban == 0),
        teban == 0 ==> r == Result::<(i8, i8), RequestError>::Err(RequestError::InvalidTeban),
        teban != 0 ==> r == Result::<(i8, i8), RequestError>::Ok(response_spec(teban, banmen)),
{
    if teban == 0 {
        return Err(RequestError::InvalidTeban);
    }
    let ban = params_to_ban(teban, banmen);
    let position_score = get_position_score(ban, SEARCH_DEPTH);
    match position_score.0 {
        Some(position) => {
            proof {
                lemma_run_upto_pos(
                    ban@,
                    ban@.legal_seq(),
                    SEARCH_DEPTH as nat,
                    ban@.legal_seq().len() as int,
                );
                lemma_legal_upto_elems(ban@, CELL_COUNT as int);
            }
            Ok((position.0 as i8, position.1 as i8))
        },
        None => Ok((-1, -1)),
    }
}

} // verus!
