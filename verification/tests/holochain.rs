use std::sync::Arc;

use polestar_models::holochain::app::{
    AppContext, AppError, AppEvent, AppFx, AppManifest, AppMachine, AppState, AppStatus,
};
use polestar_models::holochain::app_store::{AppStore, AppStoreError, AppStoreEvent, AppStoreFx};
use polestar_models::holochain::cell::CellState;
use polestar_models::holochain::conductor::{
    ConductorError, ConductorEvent, ConductorState, HolochainError, HolochainEvent, HolochainState,
};
use polestar_models::holochain::cell_store::{CellStore, CellStoreEvent, CellStoreFx};
use polestar_models::holochain::{AgentKey, CellId, DnaHash};
use polestar_models::machine::Machine;

fn context() -> Arc<AppContext> {
    let manifest = AppManifest::new(vec![
        ("chat".to_string(), DnaHash(10)),
        ("files".to_string(), DnaHash(20)),
        ("chat".to_string(), DnaHash(11)),
    ]);
    Arc::new(AppContext::new(AgentKey(7), manifest))
}

fn apply(s: AppState, e: AppEvent) -> Result<AppState, AppError> {
    match s.transition((e, context())) {
        Ok((next, fx)) => {
            assert_eq!(fx, Some(AppFx::AdjustCells));
            Ok(next)
        },
        Err(e) => Err(e),
    }
}

#[test]
fn an_app_starts_disabled_and_can_be_enabled() {
    let s = AppState::default();
    assert_eq!(s.status(), AppStatus::Disabled);
    let s = apply(s, AppEvent::Enable).unwrap();
    assert_eq!(s.status(), AppStatus::Running);
    let s = apply(s, AppEvent::Disable).unwrap();
    assert_eq!(s.status(), AppStatus::Disabled);
    assert_eq!(AppStatus::default(), AppStatus::Disabled);
}

#[test]
fn a_clone_is_created_disabled_and_then_enabled() {
    let ctx = context();
    let s = apply(AppState::new(), AppEvent::CreateCloneCell { role_name: "chat".to_string() }).unwrap();
    // The last entry of a role name counts.
    let cell = ctx.cell_id(&DnaHash(11));
    assert_eq!(cell, CellId(DnaHash(11), AgentKey(7)));
    assert_eq!(s.clone_state(&cell), Some(false));
    assert!(s.required_cells().is_empty());
    let s = apply(s, AppEvent::EnableCloneCell { id: DnaHash(11) }).unwrap();
    assert_eq!(s.clone_state(&cell), Some(true));
    assert_eq!(s.required_cells(), vec![cell]);
    let s = apply(s, AppEvent::DisableCloneCell { id: DnaHash(11) }).unwrap();
    assert_eq!(s.clone_state(&cell), Some(false));
}

#[test]
fn unknown_roles_and_clones_are_refused() {
    let r = apply(AppState::new(), AppEvent::CreateCloneCell { role_name: "mail".to_string() });
    assert!(matches!(r, Err(AppError::RoleNotFound(name)) if name == "mail"));
    let r = apply(AppState::new(), AppEvent::EnableCloneCell { id: DnaHash(10) });
    assert!(matches!(r, Err(AppError::CloneNotFound(DnaHash(10)))));
    let r = apply(AppState::new(), AppEvent::DisableCloneCell { id: DnaHash(3) });
    assert!(matches!(r, Err(AppError::CloneNotFound(DnaHash(3)))));
}

#[test]
fn the_app_machine_takes_the_same_steps() {
    let m = AppMachine;
    let (s, fx) = m.transition(AppState::new(), (AppEvent::Enable, context())).unwrap();
    assert_eq!(s.status(), AppStatus::Running);
    assert_eq!(fx, Some(AppFx::AdjustCells));
    assert!(!m.is_terminal(&s));
}

#[test]
fn manifest_lookup_takes_the_last_entry_of_a_name() {
    let ctx = context();
    assert_eq!(ctx.manifest.get_role(&"chat".to_string()), Some(DnaHash(11)));
    assert_eq!(ctx.manifest.get_role(&"files".to_string()), Some(DnaHash(20)));
    assert_eq!(ctx.manifest.get_role(&"none".to_string()), None);
    assert!(ctx.cells.is_empty());
}

#[test]
fn cells_are_added_and_removed() {
    let a = CellId(DnaHash(1), AgentKey(2));
    let b = CellId(DnaHash(1), AgentKey(3));
    let (s, fx) = CellStore::default().transition(CellStoreEvent::AddCell(a)).unwrap();
    assert_eq!(fx, CellStoreFx);
    let (s, _) = s.transition(CellStoreEvent::AddCell(b)).unwrap();
    assert_eq!(s.0.get(&a), Some(&CellState::Uninit));
    assert_eq!(s.0.len(), 2);
    let (s, _) = s.transition(CellStoreEvent::RemoveCell(a)).unwrap();
    assert_eq!(s.0.get(&a), None);
    assert_eq!(s.0.len(), 1);
    let (s, _) = s.transition(CellStoreEvent::RemoveCell(a)).unwrap();
    assert_eq!(s.0.len(), 1);
    assert_eq!(CellState::default(), CellState::Uninit);
}

fn plain_context() -> AppContext {
    AppContext::new(AgentKey(7), AppManifest::new(vec![("chat".to_string(), DnaHash(10))]))
}

#[test]
fn the_app_store_routes_events_to_installed_apps() {
    let store = AppStore::default();
    let r = store.transition(AppStoreEvent::AppEvent("a".to_string(), AppEvent::Enable));
    assert!(matches!(r, Err(AppStoreError::AppNotFound(ref id)) if id == "a"));

    let store = AppStore::new();
    let (store, fx) = store
        .transition(AppStoreEvent::InstallApp("a".to_string(), plain_context()))
        .unwrap();
    assert!(fx.is_none());
    assert_eq!(store.len(), 1);
    assert_eq!(store.app_state(&"a".to_string()).unwrap().status(), AppStatus::Disabled);

    let (store, fx) = store
        .transition(AppStoreEvent::AppEvent("a".to_string(), AppEvent::Enable))
        .unwrap();
    match fx {
        Some(AppStoreFx::AppFx(id, f)) => {
            assert_eq!(id, "a");
            assert_eq!(f, AppFx::AdjustCells);
        }
        None => panic!("an accepted app event has an effect"),
    }
    assert_eq!(store.app_state(&"a".to_string()).unwrap().status(), AppStatus::Running);

    let r = store.transition(AppStoreEvent::AppEvent(
        "a".to_string(),
        AppEvent::CreateCloneCell { role_name: "files".to_string() },
    ));
    assert!(matches!(r, Err(AppStoreError::App(AppError::RoleNotFound(ref n))) if n == "files"));
}

#[test]
fn installing_again_resets_an_app_and_removing_forgets_it() {
    let store = AppStore::new();
    let (store, _) = store
        .transition(AppStoreEvent::InstallApp("a".to_string(), plain_context()))
        .unwrap();
    let (store, _) = store
        .transition(AppStoreEvent::InstallApp("b".to_string(), plain_context()))
        .unwrap();
    let (store, _) = store
        .transition(AppStoreEvent::AppEvent("a".to_string(), AppEvent::Enable))
        .unwrap();
    let (store, _) = store
        .transition(AppStoreEvent::InstallApp("a".to_string(), plain_context()))
        .unwrap();
    assert_eq!(store.len(), 2);
    assert_eq!(store.app_state(&"a".to_string()).unwrap().status(), AppStatus::Disabled);
    let (store, fx) = store.transition(AppStoreEvent::RemoveApp("a".to_string())).unwrap();
    assert!(fx.is_none());
    assert_eq!(store.len(), 1);
    assert!(store.app_state(&"a".to_string()).is_none());
    assert!(store.app_state(&"b".to_string()).is_some());
    let (store, _) = store.transition(AppStoreEvent::RemoveApp("zz".to_string())).unwrap();
    assert_eq!(store.len(), 1);
}

#[test]
fn holochain_answers_conductor_events_only_once_initialized() {
    let h = HolochainState::default();
    let r = h.transition(HolochainEvent::Conductor(ConductorEvent::App(
        "a".to_string(),
        AppEvent::Enable,
    )));
    assert!(matches!(r, Err(HolochainError::NotInitialized)));

    let (h, ()) = HolochainState::default().transition(HolochainEvent::Init).unwrap();
    match &h {
        HolochainState::ConductorInitialized(c) => {
            assert_eq!(c.apps.len(), 0);
            assert_eq!(c.cells.0.len(), 0);
        }
        HolochainState::Uninitialized => panic!("init starts the conductor"),
    }
    let r = h.transition(HolochainEvent::Conductor(ConductorEvent::App(
        "a".to_string(),
        AppEvent::Enable,
    )));
    assert!(matches!(
        r,
        Err(HolochainError::Conductor(ConductorError::Apps(AppStoreError::AppNotFound(ref id)))) if id == "a"
    ));
}

#[test]
fn a_conductor_passes_on_what_its_apps_refuse() {
    let c = ConductorState::default();
    let (apps, _) = c
        .apps
        .transition(AppStoreEvent::InstallApp("a".to_string(), plain_context()))
        .unwrap();
    let c = ConductorState { apps, cells: CellStore::new() };
    let r = c.transition(ConductorEvent::App(
        "a".to_string(),
        AppEvent::EnableCloneCell { id: DnaHash(10) },
    ));
    assert!(matches!(
        r,
        Err(ConductorError::Apps(AppStoreError::App(AppError::CloneNotFound(DnaHash(10)))))
    ));
}
