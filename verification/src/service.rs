//! Service records: what the dashboard knows about one unit.

use vstd::prelude::*;
use vstd::std_specs::cmp::PartialEqSpecImpl;

verus! {

/// Whether a unit is configured to start at boot.
#[derive(Clone, Copy, Debug, PartialEq, Eq, Structural)]
pub enum AutoStartStatus {
    /// Cannot be enabled; started only by what depends on it.
    Static,
    /// Started at boot.
    Enabled,
    /// Started at boot until the next reboot.
    EnabledRuntime,
    /// Not started at boot.
    Disabled,
    /// Made by a generator at run time.
    Generated,
    /// Enabled through another unit.
    Indirect,
    /// Made at run time, gone with the next reboot.
    Transient,
    /// Not known.
    Unknown,
}

/// One service unit as the directory describes it.
#[derive(Debug)]
pub struct ServiceRecord {
    /// Unit name; empty only in the placeholder of an unresolved unit.
    pub name: String,
    /// Whether the unit is running.
    pub active: bool,
    /// Auto-start state.
    pub auto_start: AutoStartStatus,
    /// Free-text description, where the directory gives one.
    pub description: Option<String>,
}

/// The mathematical value of a [`ServiceRecord`].
pub struct ServiceRecordView {
    pub name: Seq<char>,
    pub active: bool,
    pub auto_start: AutoStartStatus,
    pub description: Option<Seq<char>>,
}

impl View for ServiceRecord {
    type V = ServiceRecordView;

    open spec fn view(&self) -> ServiceRecordView {
        ServiceRecordView {
            name: self.name@,
            active: self.active,
            auto_start: self.auto_start,
            description: match self.description {
                Some(d) => Some(d@),
                None => None,
            },
        }
    }
}

impl Clone for ServiceRecord {
    fn clone(&self) -> (copy: Self)
        ensures
            copy@ == self@,
    {
        ServiceRecord {
            name: self.name.clone(),
            active: self.active,
            auto_start: self.auto_start,
            description: match &self.description {
                Some(d) => Some(d.clone()),
                None => None,
            },
        }
    }
}

impl PartialEq for ServiceRecord {
    /// Two records are equal when all their fields are.
    fn eq(&self, other: &Self) -> (equal: bool) {
        let same_description = match (&self.description, &other.description) {
            (Some(a), Some(b)) => *a == *b,
            (None, None) => true,
            _ => false,
        };
        self.name == other.name && self.active == other.active && self.auto_start
            == other.auto_start && same_description
    }
}

impl PartialEqSpecImpl for ServiceRecord {
    open spec fn obeys_eq_spec() -> bool {
        true
    }

    open spec fn eq_spec(&self, other: &Self) -> bool {
        self@ == other@
    }
}

impl Eq for ServiceRecord {}

impl ServiceRecordView {
    /// The record that stands in for a unit the directory could not describe.
    pub open spec fn placeholder() -> ServiceRecordView {
        ServiceRecordView {
            name: Seq::empty(),
            active: false,
            auto_start: AutoStartStatus::Disabled,
            description: None,
        }
    }

    /// A record is usable only when it carries a name.
    pub open spec fn is_named(self) -> bool {
        self.name.len() > 0
    }
}

impl Default for ServiceRecord {
    /// The placeholder record: no name, not running, not started at boot.
    fn default() -> (record: Self)
        ensures
            record@ == ServiceRecordView::placeholder(),
    {
        ServiceRecord {
            name: String::new(),
            active: false,
            auto_start: AutoStartStatus::Disabled,
            description: None,
        }
    }
}

/// The views of a sequence of records, element by element.
pub open spec fn views(records: Seq<ServiceRecord>) -> Seq<ServiceRecordView> {
    Seq::new(records.len(), |i: int| records[i]@)
}

} // verus!
