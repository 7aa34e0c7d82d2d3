//! The application state: whether the dashboard runs, the canonical list of
//! services, and the row that is selected in it.

use vstd::prelude::*;
use crate::directory::{listed, Listing};
use crate::list::{canonical, get_services, is_canonical};
use crate::list_lemmas::lemma_canonical;
use crate::selection::{
    lemma_next_round_trip, lemma_previous_round_trip, lemma_reconciled, next_index, next_row,
    next_row_times, previous_index, previous_row, previous_row_times, reconcile, reconciled,
    selection_view, valid_selection,
};
use crate::service::{views, ServiceRecord, ServiceRecordView};

verus! {

/// What the application is waiting for.
#[derive(Clone, Copy, Debug, PartialEq, Eq, Structural)]
pub enum Phase {
    /// Nothing is under way: keys are handled.
    Idle,
    /// An action was asked of the directory and its outcome is awaited.
    Acting,
    /// The action was attempted and the listing that replaces the list is
    /// awaited.
    Rebuilding,
}

/// Application.
#[derive(Debug)]
pub struct App {
    /// Is the application running?
    pub(crate) running: bool,
    /// What the application is waiting for.
    pub(crate) phase: Phase,
    /// The canonical list of services.
    pub(crate) services: Vec<ServiceRecord>,
    /// The selected row of the list; none while the list is empty.
    pub(crate) selected: Option<usize>,
}

/// The mathematical value of an [`App`].
pub struct AppView {
    pub running: bool,
    pub phase: Phase,
    pub services: Seq<ServiceRecordView>,
    pub selected: Option<nat>,
}

impl AppView {
    /// What holds of every application state: the list is canonical, and the
    /// selection names one of its rows, or none where it has no row.
    pub open spec fn wf(self) -> bool {
        &&& is_canonical(self.services)
        &&& valid_selection(self.selected, self.services.len())
    }

    /// The state in which the application starts, given the records that the
    /// directory listed: running, idle, with the first row selected where
    /// there is one.
    pub open spec fn initial(records: Seq<ServiceRecordView>) -> AppView {
        AppView {
            running: true,
            phase: Phase::Idle,
            services: canonical(records),
            selected: reconciled(None, canonical(records).len()),
        }
    }

    /// The state after the application was told to stop.
    pub open spec fn quit(self) -> AppView {
        AppView { running: false, ..self }
    }

    /// The state after the selection moved one row down. Nothing moves in an
    /// empty list.
    pub open spec fn next(self) -> AppView {
        AppView {
            selected: match self.selected {
                Some(i) => Some(next_row(self.services.len(), i)),
                None => None,
            },
            ..self
        }
    }

    /// The state after the selection moved one row up. Nothing moves in an
    /// empty list.
    pub open spec fn previous(self) -> AppView {
        AppView {
            selected: match self.selected {
                Some(i) => Some(previous_row(self.services.len(), i)),
                None => None,
            },
            ..self
        }
    }

    /// The selected record, if any.
    pub open spec fn current(self) -> Option<ServiceRecordView> {
        match self.selected {
            Some(i) if i < self.services.len() => Some(self.services[i as int]),
            _ => None,
        }
    }

    /// The state after the list was rebuilt from the records that the
    /// directory listed. The selection keeps its row number where the new
    /// list is long enough, and is fitted to the list otherwise.
    pub open spec fn rebuilt(self, records: Seq<ServiceRecordView>) -> AppView {
        AppView {
            services: canonical(records),
            selected: reconciled(self.selected, canonical(records).len()),
            ..self
        }
    }

    /// The state with another phase.
    pub open spec fn in_phase(self, phase: Phase) -> AppView {
        AppView { phase, ..self }
    }

    /// The state after the selection moved down `k` times.
    pub open spec fn next_times(self, k: nat) -> AppView
        decreases k,
    {
        if k == 0 {
            self
        } else {
            self.next_times((k - 1) as nat).next()
        }
    }

    /// The state after the selection moved up `k` times.
    pub open spec fn previous_times(self, k: nat) -> AppView
        decreases k,
    {
        if k == 0 {
            self
        } else {
            self.previous_times((k - 1) as nat).previous()
        }
    }
}

/// Moving the selection changes nothing but the selected row, which is the
/// one that as many single moves lead to.
proof fn lemma_moves(s: AppView, k: nat)
    requires
        s.wf(),
        s.selected is Some,
    ensures
        s.next_times(k) == (AppView {
            selected: Some(next_row_times(s.services.len(), s.selected->0, k)),
            ..s
        }),
        s.previous_times(k) == (AppView {
            selected: Some(previous_row_times(s.services.len(), s.selected->0, k)),
            ..s
        }),
    decreases k,
{
    if k > 0 {
        lemma_moves(s, (k - 1) as nat);
    }
}

/// In a list of `n` rows, moving the selection down `n` times, or up `n`
/// times, leads back to the state one started from, and no fewer moves do.
/// In an empty list no move changes anything.
pub proof fn lemma_selection_round_trip(s: AppView)
    requires
        s.wf(),
    ensures
        s.next_times(s.services.len()) == s,
        s.previous_times(s.services.len()) == s,
        forall|k: nat| 0 < k < s.services.len() ==> #[trigger] s.next_times(k) != s,
        forall|k: nat| 0 < k < s.services.len() ==> #[trigger] s.previous_times(k) != s,
        s.services.len() == 0 ==> s.next() == s && s.previous() == s,
{
    let n = s.services.len();
    if n > 0 {
        let i = s.selected->0;
        lemma_moves(s, n);
        lemma_next_round_trip(n, i);
        lemma_previous_round_trip(n, i);
        assert forall|k: nat| 0 < k < n implies #[trigger] s.next_times(k) != s by {
            lemma_moves(s, k);
        }
        assert forall|k: nat| 0 < k < n implies #[trigger] s.previous_times(k) != s by {
            lemma_moves(s, k);
        }
    }
}

/// Every move of the selection leaves a well-formed state well formed and
/// the list as it is.
pub proof fn lemma_moves_keep_wf(s: AppView)
    requires
        s.wf(),
    ensures
        s.next().wf(),
        s.previous().wf(),
        s.quit().wf(),
        s.next().services == s.services,
        s.previous().services == s.services,
{
}

/// Rebuilding gives a well-formed state whose list is canonical, whatever
/// the state before and whatever the directory listed.
pub proof fn lemma_rebuilt_wf(s: AppView, records: Seq<ServiceRecordView>)
    ensures
        s.rebuilt(records).wf(),
        AppView::initial(records).wf(),
{
    lemma_canonical(records);
    lemma_reconciled(s.selected, canonical(records).len());
    lemma_reconciled(None, canonical(records).len());
}

impl View for App {
    type V = AppView;

    closed spec fn view(&self) -> AppView {
        AppView {
            running: self.running,
            phase: self.phase,
            services: views(self.services@),
            selected: selection_view(self.selected),
        }
    }
}

impl App {
    /// Every application state is well formed.
    #[verifier::type_invariant]
    pub open spec fn inv(self) -> bool {
        self@.wf()
    }

    /// Constructs a new instance of [`App`] from the directory's first answer.
    pub fn new(listing: Listing) -> (app: Self)
        ensures
            app@ == AppView::initial(listed(listing)),
            app@.wf(),
    {
        let services = get_services(listing);
        let selected = reconcile(None, services.len());
        App { running: true, phase: Phase::Idle, services, selected }
    }

    /// Handles the tick event of the terminal.
    pub fn tick(&self) {
    }

    /// Set running to false to quit the application.
    pub fn quit(&mut self)
        ensures
            final(self)@ == old(self)@.quit(),
            final(self)@.wf(),
    {
        proof {
            use_type_invariant(&*self);
        }
        self.running = false;
    }

    /// Moves the selection one row down, from the last row to the first.
    pub fn next(&mut self)
        ensures
            final(self)@ == old(self)@.next(),
            final(self)@.wf(),
    {
        proof {
            use_type_invariant(&*self);
        }
        if let Some(index) = self.selected {
            self.selected = Some(next_index(self.services.len(), index));
        }
    }

    /// Moves the selection one row up, from the first row to the last.
    pub fn previous(&mut self)
        ensures
            final(self)@ == old(self)@.previous(),
            final(self)@.wf(),
    {
        proof {
            use_type_invariant(&*self);
        }
        if let Some(index) = self.selected {
            self.selected = Some(previous_index(self.services.len(), index));
        }
    }

    /// The selected record; none while the list is empty.
    pub fn current(&self) -> (record: Option<&ServiceRecord>)
        ensures
            self@.wf(),
            match record {
                Some(r) => self@.current() == Some(r@),
                None => self@.current() is None,
            },
            record is Some <==> self@.services.len() > 0,
    {
        proof {
            use_type_invariant(self);
        }
        match self.selected {
            Some(index) => Some(&self.services[index]),
            None => None,
        }
    }

    /// Is the application running?
    pub fn running(&self) -> (running: bool)
        ensures
            running == self@.running,
    {
        self.running
    }

    /// What the application is waiting for.
    pub fn phase(&self) -> (phase: Phase)
        ensures
            phase == self@.phase,
    {
        self.phase
    }

    /// The canonical list of services.
    pub fn services(&self) -> (services: &Vec<ServiceRecord>)
        ensures
            views(services@) == self@.services,
            self@.wf(),
    {
        proof {
            use_type_invariant(self);
        }
        &self.services
    }

    /// The selected row; none while the list is empty.
    pub fn selected(&self) -> (selected: Option<usize>)
        ensures
            selection_view(selected) == self@.selected,
            self@.wf(),
    {
        proof {
            use_type_invariant(self);
        }
        self.selected
    }

    /// Enters another phase.
    pub(crate) fn enter(&mut self, phase: Phase)
        ensures
            final(self)@ == old(self)@.in_phase(phase),
            final(self)@.wf(),
    {
        proof {
            use_type_invariant(&*self);
        }
        self.phase = phase;
    }

    /// Replaces the list by the one built from `listing` and fits the
    /// selection to it.
    pub(crate) fn rebuild(&mut self, listing: Listing)
        ensures
            final(self)@ == old(self)@.rebuilt(listed(listing)),
            final(self)@.wf(),
    {
        let services = get_services(listing);
        let selected = reconcile(self.selected, services.len());
        *self = App { running: self.running, phase: self.phase, services, selected };
    }
}

} // verus!
