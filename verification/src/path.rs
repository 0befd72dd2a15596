use vstd::prelude::*;

use crate::errors::ContractError;
use crate::types::Hop;

verus! {

/// The efficiency that [`PathFinder::calculate_efficiency`] gives every non-empty path.
pub const NONEMPTY_PATH_EFFICIENCY: i128 = 100;

/// Path construction and checks over sequences of hops.
pub struct PathFinder;

impl PathFinder {
    /// A path between two assets: the empty path.
    pub fn build_path(source: String, destination: String) -> (r: Result<Vec<Hop>, ContractError>)
        ensures
            r is Ok,
            r matches Ok(hops) ==> hops@.len() == 0,
    {
        let hops: Vec<Hop> = Vec::new();
        Ok(hops)
    }

    /// Refuses an empty path with `RoutingError` and accepts any other.
    pub fn validate_path(hops: &Vec<Hop>) -> (r: Result<(), ContractError>)
        ensures
            hops@.len() == 0 ==> r == Err::<(), ContractError>(ContractError::RoutingError),
            hops@.len() > 0 ==> r is Ok,
    {
        if hops.len() == 0 {
            return Err(ContractError::RoutingError);
        }
        Ok(())
    }

    /// The efficiency of a path, higher being better: 0 for the empty path, 100 for any other.
    pub fn calculate_efficiency(hops: &Vec<Hop>) -> (r: i128)
        ensures
            r == (if hops@.len() == 0 { 0 } else { NONEMPTY_PATH_EFFICIENCY }),
    {
        if hops.len() == 0 {
            return 0;
        }
        NONEMPTY_PATH_EFFICIENCY
    }
}

} // verus!
