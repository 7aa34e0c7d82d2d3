//! The table that is shown: one row of four cells for each service.

use vstd::prelude::*;
use crate::app::App;
use crate::selection::selection_view;
use crate::service::{AutoStartStatus, ServiceRecord, ServiceRecordView};

verus! {

/// What is drawn: the rows of the table and the row that is highlighted.
#[derive(Debug)]
pub struct Table {
    /// The column titles.
    pub header: Vec<String>,
    /// One row for each service, in the order of the list.
    pub rows: Vec<Vec<String>>,
    /// The highlighted row; none while there is no row.
    pub selected: Option<usize>,
}

/// How the running state is shown.
pub open spec fn status_text(active: bool) -> Seq<char> {
    if active {
        "running"@
    } else {
        "stopped"@
    }
}

/// How the auto-start state is shown: only `Enabled` counts as enabled.
pub open spec fn enabled_text(auto_start: AutoStartStatus) -> Seq<char> {
    if auto_start == AutoStartStatus::Enabled {
        "true"@
    } else {
        "false"@
    }
}

/// How the description is shown: as it is, or as nothing where there is none.
pub open spec fn description_text(description: Option<Seq<char>>) -> Seq<char> {
    match description {
        Some(text) => text,
        None => Seq::empty(),
    }
}

/// The cells of the row that shows a record: its name, whether it runs,
/// whether it is enabled, and its description.
pub open spec fn row_cells(record: ServiceRecordView) -> Seq<Seq<char>> {
    seq![
        record.name,
        status_text(record.active),
        enabled_text(record.auto_start),
        description_text(record.description),
    ]
}

/// The column titles.
pub open spec fn header_cells() -> Seq<Seq<char>> {
    seq!["Service"@, "Status"@, "Enabled"@, "Description"@]
}

/// The texts of a row of cells.
pub open spec fn cell_texts(cells: Seq<String>) -> Seq<Seq<char>> {
    Seq::new(cells.len(), |i: int| cells[i]@)
}

/// The cells of the row that shows `service`.
pub fn row(service: &ServiceRecord) -> (cells: Vec<String>)
    ensures
        cell_texts(cells@) == row_cells(service@),
{
    let status = if service.active {
        "running"
    } else {
        "stopped"
    };
    let auto_start = match service.auto_start {
        AutoStartStatus::Enabled => "true",
        _ => "false",
    };
    let description = match &service.description {
        Some(text) => text.clone(),
        None => String::new(),
    };
    let mut cells: Vec<String> = Vec::new();
    cells.push(service.name.clone());
    cells.push(status.to_owned());
    cells.push(auto_start.to_owned());
    cells.push(description);
    assert(cell_texts(cells@) =~= row_cells(service@));
    cells
}

/// The column titles.
pub fn header() -> (cells: Vec<String>)
    ensures
        cell_texts(cells@) == header_cells(),
{
    let mut cells: Vec<String> = Vec::new();
    cells.push("Service".to_owned());
    cells.push("Status".to_owned());
    cells.push("Enabled".to_owned());
    cells.push("Description".to_owned());
    assert(cell_texts(cells@) =~= header_cells());
    cells
}

/// Renders the user interface: the table of all services with the selected
/// row highlighted.
pub fn render(app: &App) -> (table: Table)
    ensures
        cell_texts(table.header@) == header_cells(),
        table.rows.len() == app@.services.len(),
        forall|i: int|
            0 <= i < table.rows.len() ==> cell_texts(#[trigger] table.rows[i]@) == row_cells(
                app@.services[i],
            ),
        selection_view(table.selected) == app@.selected,
{
    let services = app.services();
    let mut rows: Vec<Vec<String>> = Vec::new();
    let mut i: usize = 0;
    while i < services.len()
        invariant
            i <= services.len(),
            rows.len() == i,
            forall|j: int|
                0 <= j < i ==> cell_texts(#[trigger] rows[j]@) == row_cells(services[j]@),
        decreases services.len() - i,
    {
        rows.push(row(&services[i]));
        i += 1;
    }
    Table { header: header(), rows, selected: app.selected() }
}

} // verus!
