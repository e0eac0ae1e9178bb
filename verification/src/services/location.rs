//! Locations as clients read them.

use vstd::prelude::*;

use crate::proto::{Location, Side};
use crate::services::parse_side;
use crate::state::StateCache;
use crate::status::{Status, StatusView};

verus! {

/// Answers a request for the locations that a side owns, or for all.
pub fn list_locations(state: &StateCache, side: Option<i32>) -> (answer: Result<Vec<Location>, Status>)
    ensures
        match answer {
            Ok(locations) => crate::services::requested_side(side) is Ok && crate::proto::locations_view(
                locations@,
            ) == crate::model::listed_locations(state@, crate::services::requested_side(side)->Ok_0),
            Err(status) => crate::services::requested_side(side) == Err::<Option<Side>, StatusView>(status@),
        },
{
    match parse_side(side) {
        Ok(side) => Ok(state.list_locations(side)),
        Err(status) => Err(status),
    }
}

} // verus!
