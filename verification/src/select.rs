use vstd::prelude::*;
use crate::models::DialogTurn;

verus! {

/// Calls `rand::seq::SliceRandom::choose` on the turns, with the generator of the
/// thread. Which turn comes back is left open: it is one of those given, and `None`
/// comes back only where none was given.
#[verifier::external_body]
fn choose_turn(turns: &Vec<DialogTurn>) -> (chosen: Option<&DialogTurn>)
    ensures
        match chosen {
            Some(turn) => turns@.contains(*turn),
            None => turns@.len() == 0,
        },
{
    rand::seq::SliceRandom::choose(turns.as_slice(), &mut rand::thread_rng())
}

/// The response of a chosen turn.
pub fn response_of(chosen: Option<&DialogTurn>) -> (response: Option<String>)
    ensures
        match chosen {
            Some(turn) => response is Some && response->0@ == turn.response@,
            None => response is None,
        },
{
    match chosen {
        Some(turn) => Some(turn.response.clone()),
        None => None,
    }
}

/// Picks the response of one of the turns at random. `None` where there is no turn.
pub fn pick_response(turns: &Vec<DialogTurn>) -> (response: Option<String>)
    ensures
        match response {
            Some(text) => exists|i: int|
                0 <= i < turns@.len() && (#[trigger] turns@[i]).response@ == text@,
            None => turns@.len() == 0,
        },
{
    let chosen = choose_turn(turns);
    response_of(chosen)
}

} // verus!
