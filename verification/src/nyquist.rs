//! Nyquist criterion: the closed-loop judgement drawn from the number of
//! encirclements of the critical point and the open-loop right-half-plane poles.

use vstd::prelude::*;

verus! {

/// Closed-loop right-half-plane poles by the Nyquist criterion, Z = N + P, from
/// the net number N of clockwise encirclements of (-1, 0) (counterclockwise ones
/// count negative) and the number P of open-loop right-half-plane poles.
pub open spec fn closed_loop_rhp_poles(encirclements: i32, open_loop_rhp_poles: nat) -> int {
    encirclements + open_loop_rhp_poles
}

/// The closed-loop judgement by the Nyquist criterion: the closed loop is stable
/// exactly when Z = N + P is zero, that is when the plot makes as many net
/// counterclockwise encirclements of (-1, 0) as the open loop has
/// right-half-plane poles (N = -P). With no open-loop right-half-plane pole this
/// means no net encirclement.
pub fn closed_loop_stable(encirclements: i32, open_loop_rhp_poles: usize) -> (stable: bool)
    ensures
        stable == (closed_loop_rhp_poles(encirclements, open_loop_rhp_poles as nat) == 0),
        open_loop_rhp_poles == 0 ==> (stable == (encirclements == 0)),
        stable == (encirclements as int + open_loop_rhp_poles as int == 0),
        stable <==> (encirclements <= 0 && -(encirclements as int) == open_loop_rhp_poles as int),
{
    if encirclements >= 0 {
        encirclements == 0 && open_loop_rhp_poles == 0
    } else {
        let counterclockwise: u64 = (0i64 - (encirclements as i64)) as u64;
        counterclockwise == (open_loop_rhp_poles as u64)
    }
}

} // verus!
