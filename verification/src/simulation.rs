use rand::seq::IteratorRandom;
use vstd::prelude::*;

use crate::game::{
    lemma_apply_move_fills_a_cell, lemma_apply_move_keeps_wf, lemma_running_game_has_move,
    lemma_vacant_cells_bounds,
    spec_apply_move, spec_evaluate, NoGameCache, UltTTT, UltTTTMCTSGame, UltTTTMove, UltTTTView,
};

verus! {

/// `IteratorRandom::choose` of `rand` with the thread-local generator: one of the moves at
/// random, `None` exactly when there is none. Which move comes back is left to chance.
#[verifier::external_body]
fn choose_move(moves: &Vec<UltTTTMove>) -> (r: Option<UltTTTMove>)
    ensures
        r is None <==> moves@.len() == 0,
        r matches Some(m) ==> moves@.contains(m),
{
    moves.iter().copied().choose(&mut rand::thread_rng())
}

/// The state after playing `ms` in order from `v`.
pub open spec fn play(v: UltTTTView, ms: Seq<UltTTTMove>) -> UltTTTView
    decreases ms.len(),
{
    if ms.len() == 0 {
        v
    } else {
        spec_apply_move(play(v, ms.drop_last()), ms.last())
    }
}

/// Whether every move of `ms` was allowed when it was played from `v`.
pub open spec fn legal_play(v: UltTTTView, ms: Seq<UltTTTMove>) -> bool
    decreases ms.len(),
{
    ms.len() == 0 || (legal_play(v, ms.drop_last()) && play(v, ms.drop_last()).move_allowed(
        ms.last(),
    ))
}

/// Plays random allowed moves from `state` until the game has a result. Returns the result in
/// half points for `Me` and the moves played; every move was allowed when it was played and the
/// result is that of the final state.
pub fn random_playout(state: &UltTTT, game_cache: &mut NoGameCache) -> (r: (u8, Vec<UltTTTMove>))
    requires
        state@.wf(),
    ensures
        legal_play(state@, r.1@),
        play(state@, r.1@).wf(),
        spec_evaluate(play(state@, r.1@)) == Some(r.0),
{
    let mut current = *state;
    let mut moves: Vec<UltTTTMove> = Vec::new();
    proof {
        lemma_vacant_cells_bounds(current@);
    }
    loop
        invariant
            current@ == play(state@, moves@),
            legal_play(state@, moves@),
            current@.wf(),
            current@.vacant_cells() >= 0,
        decreases current@.vacant_cells(),
    {
        if let Some(score) = UltTTTMCTSGame::evaluate(&current, game_cache) {
            return (score, moves);
        }
        let available = UltTTTMCTSGame::available_moves(&current);
        proof {
            lemma_running_game_has_move(current@);
            let m = choose|m: UltTTTMove| current@.move_allowed(m);
            assert(available@.contains(m));
        }
        let mv = match choose_move(&available) {
            Some(m) => m,
            None => {
                proof {
                    let m = choose|m: UltTTTMove| current@.move_allowed(m);
                    assert(available@.contains(m));
                    assert(false);
                }
                return (0, moves);
            },
        };
        proof {
            lemma_apply_move_keeps_wf(current@, mv);
            lemma_apply_move_fills_a_cell(current@, mv);
        }
        let ghost old_moves = moves@;
        current = UltTTTMCTSGame::apply_move(&current, &mv, game_cache);
        moves.push(mv);
        proof {
            assert(moves@.drop_last() =~= old_moves);
        }
    }
}

} // verus!
