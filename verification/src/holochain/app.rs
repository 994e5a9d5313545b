//! The lifecycle of one installed app: its status and its clone cells.

use vstd::prelude::*;
use std::sync::Arc;
use crate::holochain::{AgentKey, CellId, DnaHash};
use crate::machine::Machine;
use crate::sorted_map::SortedMap;

verus! {

/// What can happen to an app.
#[derive(Debug)]
pub enum AppEvent {
    Enable,
    Disable,
    /// Create a clone of the DNA that the manifest gives for this role.
    CreateCloneCell { role_name: String },
    EnableCloneCell { id: DnaHash },
    DisableCloneCell { id: DnaHash },
}

/// The effect of a step of an app.
#[derive(Clone, Copy, Debug, PartialEq, Eq, Hash, Structural)]
pub enum AppFx {
    /// The set of cells the app needs may have changed.
    AdjustCells,
}

/// Whether an app runs.
#[derive(Clone, Copy, Debug, PartialEq, Eq, Hash, Structural)]
pub enum AppStatus {
    Disabled,
    Paused,
    Running,
}

impl Default for AppStatus {
    fn default() -> (s: Self)
        ensures
            s == AppStatus::Disabled,
    {
        AppStatus::Disabled
    }
}

/// Why an app event was refused.
#[derive(Debug)]
pub enum AppError {
    /// The manifest has no role of this name.
    RoleNotFound(String),
    /// The app has no clone of this DNA.
    CloneNotFound(DnaHash),
}

/// The DNA that the role entries give for `name`: the last entry of that
/// name wins, as when the entries are collected into a map.
pub open spec fn role_lookup(roles: Seq<(String, DnaHash)>, name: Seq<char>) -> Option<DnaHash>
    decreases roles.len(),
{
    if roles.len() == 0 {
        None
    } else if roles.last().0@ == name {
        Some(roles.last().1)
    } else {
        role_lookup(roles.drop_last(), name)
    }
}

/// The roles of an app and the DNA each one runs.
#[derive(Debug)]
pub struct AppManifest {
    roles: Vec<(String, DnaHash)>,
}

impl AppManifest {
    /// The role entries the manifest was made from.
    pub closed spec fn entries(&self) -> Seq<(String, DnaHash)> {
        self.roles@
    }

    /// The DNA of role `name`, if the manifest has that role.
    pub open spec fn role(&self, name: Seq<char>) -> Option<DnaHash> {
        role_lookup(self.entries(), name)
    }

    /// A manifest with the given roles; where a name occurs more than once,
    /// its last entry counts.
    pub fn new(roles: Vec<(String, DnaHash)>) -> (m: Self)
        ensures
            m.entries() == roles@,
    {
        AppManifest { roles }
    }

    /// The DNA of role `name`, if the manifest has that role.
    pub fn get_role(&self, name: &String) -> (r: Option<DnaHash>)
        ensures
            r == self.role(name@),
    {
        let ghost s = self.roles@;
        let mut i = self.roles.len();
        proof {
            assert(s.take(s.len() as int) =~= s);
        }
        while i > 0
            invariant
                i <= s.len(),
                s == self.roles@,
                role_lookup(s, name@) == role_lookup(s.take(i as int), name@),
            decreases i,
        {
            let ghost t = s.take(i as int);
            proof {
                assert(t.drop_last() =~= s.take(i - 1));
            }
            if self.roles[i - 1].0 == *name {
                return Some(self.roles[i - 1].1);
            }
            i = i - 1;
        }
        proof {
            assert(s.take(0) =~= Seq::<(String, DnaHash)>::empty());
        }
        None
    }
}

/// What an app is set up with when it is installed.
#[derive(Debug)]
pub struct AppContext {
    /// The agent key bound to this app.
    pub agent_key: AgentKey,
    /// The manifest of the app when it was installed.
    pub manifest: AppManifest,
    /// Cells bound to this app.
    pub cells: Vec<CellId>,
}

impl AppContext {
    /// A context for an app of this agent and manifest, with no cells yet.
    pub fn new(agent_key: AgentKey, manifest: AppManifest) -> (c: Self)
        ensures
            c.agent_key == agent_key,
            c.manifest == manifest,
            c.cells@ == Seq::<CellId>::empty(),
    {
        AppContext { agent_key, manifest, cells: Vec::new() }
    }

    /// The cell of `dna_hash` run by this app's agent.
    pub fn cell_id(&self, dna_hash: &DnaHash) -> (c: CellId)
        ensures
            c == CellId(*dna_hash, self.agent_key),
    {
        CellId(*dna_hash, self.agent_key)
    }
}

/// The state of an app: its status, and its clone cells with whether each
/// one is enabled.
pub struct AppState {
    status: AppStatus,
    clones: SortedMap<CellId, bool>,
}

/// The abstract state of an app.
pub struct AppStateView {
    pub status: AppStatus,
    pub clones: Map<CellId, bool>,
}

impl View for AppState {
    type V = AppStateView;

    closed spec fn view(&self) -> AppStateView {
        AppStateView { status: self.status, clones: self.clones@ }
    }
}

/// The state after `event`, or the error that refuses it.
pub open spec fn app_next(s: AppStateView, event: AppEvent, ctx: AppContext) -> Result<
    AppStateView,
    AppError,
> {
    match event {
        AppEvent::Enable => Ok(AppStateView { status: AppStatus::Running, clones: s.clones }),
        AppEvent::Disable => Ok(AppStateView { status: AppStatus::Disabled, clones: s.clones }),
        AppEvent::CreateCloneCell { role_name } => match ctx.manifest.role(role_name@) {
            Some(dna) => Ok(
                AppStateView {
                    status: s.status,
                    clones: s.clones.insert(CellId(dna, ctx.agent_key), false),
                },
            ),
            None => Err(AppError::RoleNotFound(role_name)),
        },
        AppEvent::EnableCloneCell { id } => {
            let c = CellId(id, ctx.agent_key);
            if s.clones.contains_key(c) {
                Ok(AppStateView { status: s.status, clones: s.clones.insert(c, true) })
            } else {
                Err(AppError::CloneNotFound(id))
            }
        },
        AppEvent::DisableCloneCell { id } => {
            let c = CellId(id, ctx.agent_key);
            if s.clones.contains_key(c) {
                Ok(AppStateView { status: s.status, clones: s.clones.insert(c, false) })
            } else {
                Err(AppError::CloneNotFound(id))
            }
        },
    }
}

/// A clone created for a role of the manifest starts disabled; enabling it
/// then makes it enabled, and disabling it again makes it disabled, while
/// the app's status is left as it was throughout. A role the manifest lacks
/// is refused.
pub proof fn lemma_clone_lifecycle(s: AppStateView, ctx: AppContext, role_name: String)
    ensures
        ctx.manifest.role(role_name@) is None ==> app_next(
            s,
            AppEvent::CreateCloneCell { role_name },
            ctx,
        ) == Err::<AppStateView, AppError>(AppError::RoleNotFound(role_name)),
        ctx.manifest.role(role_name@) matches Some(dna) ==> {
            let c = CellId(dna, ctx.agent_key);
            let s1 = app_next(s, AppEvent::CreateCloneCell { role_name }, ctx)->Ok_0;
            let s2 = app_next(s1, AppEvent::EnableCloneCell { id: dna }, ctx)->Ok_0;
            let s3 = app_next(s2, AppEvent::DisableCloneCell { id: dna }, ctx)->Ok_0;
            &&& app_next(s, AppEvent::CreateCloneCell { role_name }, ctx) is Ok
            &&& s1.clones.contains_key(c) && !s1.clones[c]
            &&& app_next(s1, AppEvent::EnableCloneCell { id: dna }, ctx) is Ok
            &&& s2.clones[c]
            &&& app_next(s2, AppEvent::DisableCloneCell { id: dna }, ctx) is Ok
            &&& s3.clones.contains_key(c) && !s3.clones[c]
            &&& s1.status == s.status && s2.status == s.status && s3.status == s.status
        },
{
}

impl AppState {
    /// A disabled app with no clones.
    pub fn new() -> (s: Self)
        ensures
            s@.status == AppStatus::Disabled,
            s@.clones == Map::<CellId, bool>::empty(),
    {
        AppState { status: AppStatus::Disabled, clones: SortedMap::new() }
    }

    /// The status of the app.
    pub fn status(&self) -> (s: AppStatus)
        ensures
            s == self@.status,
    {
        self.status
    }

    /// Whether the app has a clone cell `id`, and if so whether it is
    /// enabled.
    pub fn clone_state(&self, id: &CellId) -> (r: Option<bool>)
        ensures
            r == (if self@.clones.contains_key(*id) {
                Some(self@.clones[*id])
            } else {
                None
            }),
    {
        match self.clones.get(id) {
            Some(b) => Some(*b),
            None => None,
        }
    }

    /// Apply `event` with the app's context. Every accepted event asks for
    /// the cells to be adjusted.
    pub fn transition(self, action: (AppEvent, Arc<AppContext>)) -> (r: Result<
        (AppState, Option<AppFx>),
        AppError,
    >)
        ensures
            match app_next(self@, action.0, *action.1) {
                Ok(next) => r is Ok && r->Ok_0.0@ == next && r->Ok_0.1 == Some(AppFx::AdjustCells),
                Err(e) => r is Err && r->Err_0 == e,
            },
    {
        let (event, context) = action;
        self.apply(event, &*context)
    }

    /// Apply `event` with the context `context`.
    pub fn apply(self, event: AppEvent, context: &AppContext) -> (r: Result<
        (AppState, Option<AppFx>),
        AppError,
    >)
        ensures
            match app_next(self@, event, *context) {
                Ok(next) => r is Ok && r->Ok_0.0@ == next && r->Ok_0.1 == Some(AppFx::AdjustCells),
                Err(e) => r is Err && r->Err_0 == e,
            },
    {
        let AppState { status, clones } = self;
        let mut status = status;
        let mut clones = clones;
        match event {
            AppEvent::Enable => {
                status = AppStatus::Running;
            },
            AppEvent::Disable => {
                status = AppStatus::Disabled;
            },
            AppEvent::CreateCloneCell { role_name } => {
                match context.manifest.get_role(&role_name) {
                    Some(dna_hash) => {
                        let _ = clones.insert(context.cell_id(&dna_hash), false);
                    },
                    None => {
                        return Err(AppError::RoleNotFound(role_name));
                    },
                }
            },
            AppEvent::EnableCloneCell { id } => {
                let c = context.cell_id(&id);
                if clones.contains_key(&c) {
                    let _ = clones.insert(c, true);
                } else {
                    return Err(AppError::CloneNotFound(id));
                }
            },
            AppEvent::DisableCloneCell { id } => {
                let c = context.cell_id(&id);
                if clones.contains_key(&c) {
                    let _ = clones.insert(c, false);
                } else {
                    return Err(AppError::CloneNotFound(id));
                }
            },
        }
        Ok((AppState { status, clones }, Some(AppFx::AdjustCells)))
    }

    /// The clone cells that are enabled, each once, in key order.
    pub fn required_cells(&self) -> (r: Vec<CellId>)
        ensures
            forall|c: CellId| r@.contains(c) <==> (self@.clones.contains_key(c) && self@.clones[c]),
            r@.no_duplicates(),
    {
        let n = self.clones.len();
        let ghost es = self.clones.entries();
        let mut r: Vec<CellId> = Vec::new();
        let mut i: usize = 0;
        while i < n
            invariant
                n == es.len(),
                es == self.clones.entries(),
                self.clones.wf(),
                i <= n,
                r@.no_duplicates(),
                forall|c: CellId|
                    r@.contains(c) <==> (exists|j: int| 0 <= j < i && es[j].0 == c && es[j].1),
            decreases n - i,
        {
            let e = self.clones.entry_at(i);
            let ghost r0 = r@;
            if e.1 {
                proof {
                    if r0.contains(e.0) {
                        let j = choose|j: int| 0 <= j < i && es[j].0 == e.0 && es[j].1;
                        crate::sorted_map::lemma_sorted_key_unique(es, j, i as int);
                    }
                }
                r.push(e.0);
            }
            proof {
                assert forall|c: CellId|
                    r@.contains(c) <==> (exists|j: int| 0 <= j < i + 1 && es[j].0 == c && es[j].1) by {
                    if e.1 {
                        assert(r@ == r0.push(e.0));
                        if r@.contains(c) {
                            let k = choose|k: int| 0 <= k < r@.len() && r@[k] == c;
                            if k < r0.len() {
                                assert(r0.contains(c));
                            } else {
                                assert(es[i as int].0 == c);
                            }
                        }
                        if exists|j: int| 0 <= j < i + 1 && es[j].0 == c && es[j].1 {
                            let j = choose|j: int| 0 <= j < i + 1 && es[j].0 == c && es[j].1;
                            if j == i {
                                assert(r@[r0.len() as int] == c);
                            } else {
                                assert(r0.contains(c));
                                let k = choose|k: int| 0 <= k < r0.len() && r0[k] == c;
                                assert(r@[k] == c);
                            }
                        }
                    } else {
                        if exists|j: int| 0 <= j < i + 1 && es[j].0 == c && es[j].1 {
                            let j = choose|j: int| 0 <= j < i + 1 && es[j].0 == c && es[j].1;
                            assert(j != i);
                        }
                    }
                }
            }
            i = i + 1;
        }
        proof {
            assert forall|c: CellId|
                r@.contains(c) <==> (self@.clones.contains_key(c) && self@.clones[c]) by {
                if self@.clones.contains_key(c) {
                    let j = choose|j: int| 0 <= j < es.len() && es[j].0 == c;
                    crate::sorted_map::lemma_entries_map_at(es, j);
                }
                if exists|j: int| 0 <= j < n && es[j].0 == c && es[j].1 {
                    let j = choose|j: int| 0 <= j < n && es[j].0 == c && es[j].1;
                    crate::sorted_map::lemma_entries_map_at(es, j);
                }
            }
        }
        r
    }
}

impl Default for AppState {
    fn default() -> (s: Self)
        ensures
            s@.status == AppStatus::Disabled,
            s@.clones == Map::<CellId, bool>::empty(),
    {
        AppState::new()
    }
}

/// The app lifecycle as a machine.
pub struct AppMachine;

impl Machine for AppMachine {
    type State = AppState;
    type Action = (AppEvent, Arc<AppContext>);
    type Fx = Option<AppFx>;
    type Error = AppError;

    open spec fn admissible(&self, state: AppState, action: (AppEvent, Arc<AppContext>)) -> bool {
        true
    }

    fn is_admissible(&self, state: &AppState, action: &(AppEvent, Arc<AppContext>)) -> (b: bool) {
        true
    }

    open spec fn outcome(
        &self,
        state: AppState,
        action: (AppEvent, Arc<AppContext>),
        r: Result<(AppState, Option<AppFx>), AppError>,
    ) -> bool {
        match app_next(state@, action.0, *action.1) {
            Ok(next) => r is Ok && r->Ok_0.0@ == next && r->Ok_0.1 == Some(AppFx::AdjustCells),
            Err(e) => r is Err && r->Err_0 == e,
        }
    }

    fn transition(&self, state: AppState, action: (AppEvent, Arc<AppContext>)) -> (r: Result<
        (AppState, Option<AppFx>),
        AppError,
    >)
    {
        state.transition(action)
    }

    fn is_terminal(&self, state: &AppState) -> (b: bool)
        ensures
            !b,
    {
        false
    }
}

} // verus!
