//! Units as clients read them.

use vstd::prelude::*;

use crate::ids::{GroupId, UnitId};
use crate::proto::{Side, Unit};
use crate::services::parse_side;
use crate::state::StateCache;
use crate::status::{Code, Status, StatusView};

verus! {

/// The refusal of a request for a unit that is not cached.
pub open spec fn unit_not_found(id: Seq<char>) -> StatusView {
    StatusView { code: Code::NotFound, message: "unit "@ + id + " not found"@ }
}

/// Answers a request for one unit.
pub fn get_unit(state: &StateCache, id: &str) -> (answer: Result<Unit, Status>)
    ensures
        match answer {
            Ok(unit) => crate::model::unit_at(state@.stored, id@) == Some(unit@),
            Err(status) => crate::model::unit_at(state@.stored, id@) is None && status@ == unit_not_found(id@),
        },
{
    match state.get_unit(&UnitId::from(id)) {
        Some(unit) => Ok(unit),
        None => {
            let mut message = "unit ".to_owned();
            message.append(id);
            message.append(" not found");
            Err(Status::new(Code::NotFound, message))
        },
    }
}

/// Answers a request for the units of a side and of a group, or of any.
pub fn list_units(state: &StateCache, side: Option<i32>, group_id: Option<String>) -> (answer: Result<
    Vec<Unit>,
    Status,
>)
    ensures
        match answer {
            Ok(units) => crate::services::requested_side(side) is Ok && crate::proto::units_view(units@)
                == crate::model::listed_units(
                state@.stored,
                crate::services::requested_side(side)->Ok_0,
                match group_id {
                    Some(id) => Some(id@),
                    None => None,
                },
            ),
            Err(status) => crate::services::requested_side(side) == Err::<Option<Side>, StatusView>(status@),
        },
{
    let side = match parse_side(side) {
        Ok(side) => side,
        Err(status) => {
            return Err(status);
        },
    };
    match group_id {
        Some(id) => {
            let group_id = GroupId::from(id);
            Ok(state.list_units(side, Some(&group_id)))
        },
        None => Ok(state.list_units(side, None)),
    }
}

} // verus!
