//! What the service directory hands to the dashboard, and what the dashboard
//! asks of it.

use vstd::prelude::*;
use crate::service::{ServiceRecord, ServiceRecordView};

verus! {

/// Why the directory could not do what was asked of it.
#[derive(Clone, Copy, Debug, PartialEq, Eq, Structural)]
pub enum DirectoryError {
    /// The units could not be enumerated.
    QueryFailure,
    /// An enumerated unit could not be described.
    Unresolvable,
    /// A unit could not be started, stopped, restarted, enabled or disabled.
    ActionFailure,
}

/// What can be done to a unit.
#[derive(Clone, Copy, Debug, PartialEq, Eq, Structural)]
pub enum Action {
    Start,
    Stop,
    Restart,
    Enable,
    Disable,
}

/// The record of one enumerated unit, or the reason why there is none.
pub type Resolution = Result<ServiceRecord, DirectoryError>;

/// One answer of the directory to a query for all units.
pub type Listing = Result<Vec<Resolution>, DirectoryError>;

/// The record that a resolution stands for: the one the directory gave, or
/// the placeholder where it gave none.
pub open spec fn resolved(outcome: Resolution) -> ServiceRecordView {
    match outcome {
        Ok(record) => record@,
        Err(_) => ServiceRecordView::placeholder(),
    }
}

/// The records that a listing stands for: none where the query failed.
pub open spec fn listed(listing: Listing) -> Seq<ServiceRecordView> {
    match listing {
        Ok(units) => Seq::new(units.len() as nat, |i: int| resolved(units[i])),
        Err(_) => Seq::empty(),
    }
}

/// Turns a resolution into a record, putting the placeholder where the unit
/// could not be described.
pub fn resolve(outcome: Resolution) -> (record: ServiceRecord)
    ensures
        record@ == resolved(outcome),
{
    match outcome {
        Ok(record) => record,
        Err(_) => ServiceRecord::default(),
    }
}

} // verus!
