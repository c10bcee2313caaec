use vstd::prelude::*;

use crate::tic_tac_toe::TicTacToeStatus;

verus! {

/// The earlier heuristic of ultimate tic-tac-toe positions, working on threat counts.
pub struct OldUltTTTHeuristic {}

impl OldUltTTTHeuristic {
    /// Whether `player`, who just moved, loses directly: the other player has a threat on the
    /// mini board and a threat through it on the status map.
    pub fn is_direct_loss(
        player: TicTacToeStatus,
        my_threats: usize,
        my_meta_threats: u8,
        opp_threats: usize,
        opp_meta_threats: u8,
    ) -> (r: bool)
        requires
            player.is_player_status(),
        ensures
            player == TicTacToeStatus::Me ==> r == (opp_threats > 0 && opp_meta_threats > 0),
            player == TicTacToeStatus::Opp ==> r == (my_threats > 0 && my_meta_threats > 0),
    {
        match player {
            TicTacToeStatus::Me => opp_threats > 0 && opp_meta_threats > 0,
            _ => my_threats > 0 && my_meta_threats > 0,
        }
    }
}

} // verus!
