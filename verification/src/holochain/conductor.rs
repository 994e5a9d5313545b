//! A conductor: its apps and cells, and the whole of Holochain as a
//! conductor that is or is not yet initialized.
//!
//! Only refusals are defined so far: an event that the apps accept leaves
//! effects that nothing handles yet, and of the admin events only app
//! installation is handled at all, so such events are outside the
//! `requires` of the transitions below.

use vstd::prelude::*;
use crate::holochain::AgentKey;
use crate::holochain::app::{app_next, AppEvent, AppManifest};
use crate::holochain::app_store::{AppEntry, AppStore, AppStoreError, AppStoreEvent};
use crate::holochain::cell::CellState;
use crate::holochain::cell_store::CellStore;
use crate::holochain::CellId;

verus! {

/// What installing an app takes.
#[derive(Debug)]
pub struct InstallAppPayload {
    pub app_id: String,
    pub agent_key: AgentKey,
    pub manifest: AppManifest,
}

/// What creating a clone cell takes.
#[derive(Debug)]
pub struct CreateCloneCellPayload {
    pub role_name: String,
}

/// An administrative request to the conductor.
#[derive(Debug)]
pub enum AdminEvent {
    InstallApp(InstallAppPayload),
    UninstallApp(String),
    EnableApp { app_id: String },
    DisableApp { app_id: String },
    GenerateAgentKey,
}

/// What can happen at a conductor.
#[derive(Debug)]
pub enum ConductorEvent {
    Admin(AdminEvent),
    /// An event for the app of this id.
    App(String, AppEvent),
}

/// Why the conductor refused an event.
#[derive(Debug)]
pub enum ConductorError {
    /// The apps refused it.
    Apps(AppStoreError),
}

/// The error with which the apps `m` refuse `e` for app `id`, or `None`
/// if they accept it.
pub open spec fn app_refusal(m: Map<Seq<char>, AppEntry>, id: String, e: AppEvent) -> Option<AppStoreError> {
    if !m.contains_key(id@) {
        Some(AppStoreError::AppNotFound(id))
    } else {
        match app_next(m[id@].0, e, m[id@].1) {
            Ok(_) => None,
            Err(err) => Some(AppStoreError::App(err)),
        }
    }
}

/// The events a conductor with apps `m` answers: those for an app that
/// the apps refuse.
pub open spec fn conductor_refuses(m: Map<Seq<char>, AppEntry>, event: ConductorEvent) -> bool {
    event matches ConductorEvent::App(id, e) && app_refusal(m, id, e) is Some
}

/// The error a conductor with apps `m` answers `event` with.
pub open spec fn conductor_error(m: Map<Seq<char>, AppEntry>, event: ConductorEvent) -> ConductorError {
    match event {
        ConductorEvent::App(id, e) => ConductorError::Apps(app_refusal(m, id, e)->Some_0),
        ConductorEvent::Admin(_) => arbitrary(),
    }
}

/// The apps and the cells of a conductor.
pub struct ConductorState {
    pub apps: AppStore,
    pub cells: CellStore,
}

impl ConductorState {
    /// A conductor with no apps and no cells.
    pub fn new() -> (s: Self)
        ensures
            s.apps@ == Map::<Seq<char>, AppEntry>::empty(),
            s.cells.0@ == Map::<CellId, CellState>::empty(),
    {
        ConductorState { apps: AppStore::new(), cells: CellStore::new() }
    }

    /// Apply `event`, which the apps refuse: the conductor answers with
    /// their error.
    pub fn transition(self, event: ConductorEvent) -> (r: Result<(ConductorState, ()), ConductorError>)
        requires
            conductor_refuses(self.apps@, event),
        ensures
            r matches Err(e) && e == conductor_error(self.apps@, event),
    {
        let ghost m = self.apps@;
        let ConductorState { apps, cells: _ } = self;
        match event {
            ConductorEvent::App(id, e) => {
                let ghost gid = id;
                let ghost ge = e;
                match apps.transition(AppStoreEvent::AppEvent(id, e)) {
                    Err(err) => {
                        proof {
                            assert(app_refusal(m, gid, ge) == Some(err));
                        }
                        Err(ConductorError::Apps(err))
                    },
                    Ok(_) => {
                        proof {
                            assert(false);
                        }
                        Err(ConductorError::Apps(AppStoreError::AppNotFound(String::new())))
                    },
                }
            },
            ConductorEvent::Admin(_) => {
                proof {
                    assert(false);
                }
                Err(ConductorError::Apps(AppStoreError::AppNotFound(String::new())))
            },
        }
    }
}

impl Default for ConductorState {
    fn default() -> (s: Self)
        ensures
            s.apps@ == Map::<Seq<char>, AppEntry>::empty(),
            s.cells.0@ == Map::<CellId, CellState>::empty(),
    {
        ConductorState::new()
    }
}

/// What can happen to Holochain.
#[derive(Debug)]
pub enum HolochainEvent {
    /// Start the conductor.
    Init,
    Conductor(ConductorEvent),
}

/// Holochain: a conductor, once initialized.
pub enum HolochainState {
    Uninitialized,
    ConductorInitialized(ConductorState),
}

/// Why Holochain refused an event.
#[derive(Debug)]
pub enum HolochainError {
    /// A conductor event came before `Init`.
    NotInitialized,
    Conductor(ConductorError),
}

impl Default for HolochainState {
    fn default() -> (s: Self)
        ensures
            s is Uninitialized,
    {
        HolochainState::Uninitialized
    }
}

impl HolochainState {
    /// Apply `event`: `Init` starts a fresh conductor (replacing any), and
    /// a conductor event before that is refused.
    pub fn transition(self, event: HolochainEvent) -> (r: Result<(HolochainState, ()), HolochainError>)
        requires
            event matches HolochainEvent::Conductor(e) ==> (self matches HolochainState::ConductorInitialized(c)
                ==> conductor_refuses(c.apps@, e)),
        ensures
            match event {
                HolochainEvent::Init => r matches Ok((HolochainState::ConductorInitialized(c), _))
                    && c.apps@ == Map::<Seq<char>, AppEntry>::empty() && c.cells.0@ == Map::<
                    CellId,
                    CellState,
                >::empty(),
                HolochainEvent::Conductor(e) => match self {
                    HolochainState::Uninitialized => r matches Err(HolochainError::NotInitialized),
                    HolochainState::ConductorInitialized(c) => r matches Err(HolochainError::Conductor(x))
                        && x == conductor_error(c.apps@, e),
                },
            },
    {
        match event {
            HolochainEvent::Init => Ok((HolochainState::ConductorInitialized(ConductorState::new()), ())),
            HolochainEvent::Conductor(e) => match self {
                HolochainState::ConductorInitialized(c) => match c.transition(e) {
                    Ok(_) => {
                        proof {
                            assert(false);
                        }
                        Err(HolochainError::NotInitialized)
                    },
                    Err(err) => Err(HolochainError::Conductor(err)),
                },
                HolochainState::Uninitialized => Err(HolochainError::NotInitialized),
            },
        }
    }
}

} // verus!
