//! The apps a conductor has installed, each with its state and the context
//! it was installed with.

use vstd::prelude::*;
use crate::holochain::app::{app_next, AppContext, AppError, AppEvent, AppFx, AppState, AppStateView};
use crate::holochain::app::AppStatus;

verus! {

/// An installed app: its id, its state and its context.
pub struct InstalledApp {
    pub id: String,
    pub state: AppState,
    pub context: AppContext,
}

/// What the store knows of an app: its state and its context.
pub type AppEntry = (AppStateView, AppContext);

/// No id occurs twice.
pub open spec fn ids_distinct(s: Seq<InstalledApp>) -> bool {
    forall|i: int, j: int| 0 <= i < j < s.len() ==> (#[trigger] s[i]).id@ != (#[trigger] s[j]).id@
}

/// The apps of `s` by id.
pub open spec fn apps_map(s: Seq<InstalledApp>) -> Map<Seq<char>, AppEntry>
    decreases s.len(),
{
    if s.len() == 0 {
        Map::empty()
    } else {
        apps_map(s.drop_last()).insert(s.last().id@, (s.last().state@, s.last().context))
    }
}

/// The state of a newly installed app.
pub open spec fn fresh_app() -> AppStateView {
    AppStateView { status: AppStatus::Disabled, clones: Map::empty() }
}

proof fn lemma_apps_map_contains(s: Seq<InstalledApp>, k: Seq<char>)
    ensures
        apps_map(s).contains_key(k) <==> exists|i: int| 0 <= i < s.len() && (#[trigger] s[i]).id@ == k,
    decreases s.len(),
{
    if s.len() > 0 {
        lemma_apps_map_contains(s.drop_last(), k);
        if exists|i: int| 0 <= i < s.len() - 1 && (#[trigger] s.drop_last()[i]).id@ == k {
            let i = choose|i: int| 0 <= i < s.len() - 1 && (#[trigger] s.drop_last()[i]).id@ == k;
            assert(s[i] == s.drop_last()[i]);
        }
        if exists|i: int| 0 <= i < s.len() && (#[trigger] s[i]).id@ == k {
            let i = choose|i: int| 0 <= i < s.len() && (#[trigger] s[i]).id@ == k;
            if i < s.len() - 1 {
                assert(s.drop_last()[i] == s[i]);
            }
        }
    }
}

proof fn lemma_apps_map_at(s: Seq<InstalledApp>, i: int)
    requires
        ids_distinct(s),
        0 <= i < s.len(),
    ensures
        apps_map(s).contains_key(s[i].id@),
        apps_map(s)[s[i].id@] == (s[i].state@, s[i].context),
    decreases s.len(),
{
    if i < s.len() - 1 {
        let t = s.drop_last();
        assert(t[i] == s[i]);
        assert(ids_distinct(t)) by {
            assert forall|a: int, b: int| 0 <= a < b < t.len() implies (#[trigger] t[a]).id@ != (#[trigger] t[b]).id@ by {
                assert(t[a] == s[a] && t[b] == s[b]);
            }
        }
        lemma_apps_map_at(t, i);
        assert(s[i].id@ != s[s.len() - 1].id@);
    }
}

proof fn lemma_distinct_remove(s: Seq<InstalledApp>, i: int)
    requires
        ids_distinct(s),
        0 <= i < s.len(),
    ensures
        ids_distinct(s.remove(i)),
{
    let t = s.remove(i);
    assert forall|a: int, b: int| 0 <= a < b < t.len() implies (#[trigger] t[a]).id@ != (#[trigger] t[b]).id@ by {
        let a2 = if a < i { a } else { a + 1 };
        let b2 = if b < i { b } else { b + 1 };
        assert(t[a] == s[a2] && t[b] == s[b2]);
    }
}

proof fn lemma_apps_map_remove(s: Seq<InstalledApp>, i: int)
    requires
        ids_distinct(s),
        0 <= i < s.len(),
    ensures
        apps_map(s.remove(i)) == apps_map(s).remove(s[i].id@),
{
    let t = s.remove(i);
    let k0 = s[i].id@;
    lemma_distinct_remove(s, i);
    assert forall|k: Seq<char>| #[trigger] apps_map(t).contains_key(k) <==> apps_map(s).remove(k0).contains_key(k) by {
        lemma_apps_map_contains(t, k);
        lemma_apps_map_contains(s, k);
        if apps_map(t).contains_key(k) {
            let j = choose|j: int| 0 <= j < t.len() && (#[trigger] t[j]).id@ == k;
            let j2 = if j < i { j } else { j + 1 };
            assert(t[j] == s[j2]);
            assert(j2 != i);
            if j2 < i {
                assert(s[j2].id@ != s[i].id@);
            } else {
                assert(s[i].id@ != s[j2].id@);
            }
        }
        if apps_map(s).remove(k0).contains_key(k) {
            let j = choose|j: int| 0 <= j < s.len() && (#[trigger] s[j]).id@ == k;
            assert(j != i);
            let j2 = if j < i { j } else { j - 1 };
            assert(t[j2] == s[j]);
        }
    }
    assert forall|k: Seq<char>| #[trigger] apps_map(t).contains_key(k) implies apps_map(t)[k] == apps_map(s).remove(k0)[k] by {
        lemma_apps_map_contains(t, k);
        let j = choose|j: int| 0 <= j < t.len() && (#[trigger] t[j]).id@ == k;
        let j2 = if j < i { j } else { j + 1 };
        assert(t[j] == s[j2]);
        lemma_apps_map_at(t, j);
        lemma_apps_map_at(s, j2);
    }
    assert(apps_map(t) =~= apps_map(s).remove(k0));
}

/// What can happen to the set of apps.
pub enum AppStoreEvent {
    /// An event for one app.
    AppEvent(String, AppEvent),
    /// Install an app with this context, replacing one of the same id.
    InstallApp(String, AppContext),
    /// Uninstall an app.
    RemoveApp(String),
}

/// An effect of one app, with the app's id.
pub enum AppStoreFx {
    AppFx(String, AppFx),
}

/// Why an app store event was refused.
#[derive(Debug)]
pub enum AppStoreError {
    /// No app has this id.
    AppNotFound(String),
    /// The app refused the event.
    App(AppError),
}

/// The installed apps, by id.
pub struct AppStore {
    apps: Vec<InstalledApp>,
}

impl View for AppStore {
    type V = Map<Seq<char>, AppEntry>;

    closed spec fn view(&self) -> Map<Seq<char>, AppEntry> {
        apps_map(self.apps@)
    }
}

impl AppStore {
    #[verifier::type_invariant]
    spec fn wf(&self) -> bool {
        ids_distinct(self.apps@)
    }

    /// No apps.
    pub fn new() -> (s: Self)
        ensures
            s@ == Map::<Seq<char>, AppEntry>::empty(),
    {
        AppStore { apps: Vec::new() }
    }

    /// The number of installed apps.
    pub fn len(&self) -> (n: usize)
        ensures
            n == self@.len(),
    {
        proof {
            use_type_invariant(self);
            self.lemma_len();
        }
        self.apps.len()
    }

    proof fn lemma_len(&self)
        requires
            ids_distinct(self.apps@),
        ensures
            self@.len() == self.apps@.len(),
    {
        lemma_apps_map_len(self.apps@);
    }

    /// The state of app `id`, if it is installed.
    pub fn app_state(&self, id: &String) -> (r: Option<&AppState>)
        ensures
            r is Some <==> self@.contains_key(id@),
            r matches Some(st) ==> st@ == self@[id@].0,
    {
        proof {
            use_type_invariant(self);
        }
        match self.find(id) {
            Some(i) => {
                proof {
                    lemma_apps_map_at(self.apps@, i as int);
                }
                Some(&self.apps[i].state)
            },
            None => None,
        }
    }

    fn find(&self, id: &String) -> (r: Option<usize>)
        ensures
            r matches Some(i) ==> i < self.apps@.len() && self.apps@[i as int].id@ == id@,
            r is Some <==> apps_map(self.apps@).contains_key(id@),
    {
        let mut i: usize = 0;
        while i < self.apps.len()
            invariant
                i <= self.apps@.len(),
                forall|j: int| 0 <= j < i ==> (#[trigger] self.apps@[j]).id@ != id@,
            decreases self.apps.len() - i,
        {
            if self.apps[i].id == *id {
                proof {
                    lemma_apps_map_contains(self.apps@, id@);
                }
                return Some(i);
            }
            i = i + 1;
        }
        proof {
            lemma_apps_map_contains(self.apps@, id@);
        }
        None
    }

    /// Take the app at `i` out of the store.
    fn take_at(&mut self, i: usize) -> (app: InstalledApp)
        requires
            i < old(self).apps@.len(),
        ensures
            app == old(self).apps@[i as int],
            final(self)@ == old(self)@.remove(app.id@),
            old(self)@.contains_key(app.id@),
            old(self)@[app.id@] == (app.state@, app.context),
    {
        proof {
            use_type_invariant(&*self);
            lemma_apps_map_remove(self.apps@, i as int);
            lemma_apps_map_at(self.apps@, i as int);
            lemma_distinct_remove(self.apps@, i as int);
        }
        let mut apps: Vec<InstalledApp> = Vec::new();
        std::mem::swap(&mut apps, &mut self.apps);
        let app = apps.remove(i);
        self.apps = apps;
        app
    }

    /// Put an app whose id is not installed into the store.
    fn put(&mut self, app: InstalledApp)
        requires
            !old(self)@.contains_key(app.id@),
        ensures
            final(self)@ == old(self)@.insert(app.id@, (app.state@, app.context)),
    {
        proof {
            use_type_invariant(&*self);
            let s = self.apps@;
            lemma_apps_map_contains(s, app.id@);
            assert forall|a: int, b: int| 0 <= a < b < s.push(app).len() implies (#[trigger] s.push(app)[a]).id@
                != (#[trigger] s.push(app)[b]).id@ by {
                assert(s.push(app)[a] == s[a]);
                if b < s.len() {
                    assert(s.push(app)[b] == s[b]);
                } else {
                    assert(s[a].id@ != app.id@);
                }
            }
            assert(s.push(app).drop_last() =~= s);
        }
        let mut apps: Vec<InstalledApp> = Vec::new();
        std::mem::swap(&mut apps, &mut self.apps);
        apps.push(app);
        self.apps = apps;
    }

    /// Apply `event`. An event for an app goes to that app with its
    /// context, and its effect comes back tagged with the app's id.
    pub fn transition(self, event: AppStoreEvent) -> (r: Result<(AppStore, Option<AppStoreFx>), AppStoreError>)
        ensures
            match event {
                AppStoreEvent::AppEvent(id, e) => if !self@.contains_key(id@) {
                    r matches Err(AppStoreError::AppNotFound(x)) && x == id
                } else {
                    match app_next(self@[id@].0, e, self@[id@].1) {
                        Ok(next) => r matches Ok((store, Some(AppStoreFx::AppFx(x, fx))))
                            && store@ == self@.insert(id@, (next, self@[id@].1))
                            && x@ == id@ && fx == AppFx::AdjustCells,
                        Err(err) => r matches Err(AppStoreError::App(x)) && x == err,
                    }
                },
                AppStoreEvent::InstallApp(id, context) => r matches Ok((store, None))
                    && store@ == self@.insert(id@, (fresh_app(), context)),
                AppStoreEvent::RemoveApp(id) => r matches Ok((store, None)) && store@ == self@.remove(id@),
            },
    {
        let mut store = self;
        match event {
            AppStoreEvent::AppEvent(id, e) => {
                match store.find(&id) {
                    None => Err(AppStoreError::AppNotFound(id)),
                    Some(i) => {
                        let app = store.take_at(i);
                        let InstalledApp { id: key, state, context } = app;
                        match state.apply(e, &context) {
                            Ok((next, fx)) => {
                                store.put(InstalledApp { id: key, state: next, context });
                                match fx {
                                    Some(f) => Ok((store, Some(AppStoreFx::AppFx(id, f)))),
                                    None => Ok((store, None)),
                                }
                            },
                            Err(err) => Err(AppStoreError::App(err)),
                        }
                    },
                }
            },
            AppStoreEvent::InstallApp(id, context) => {
                if let Some(i) = store.find(&id) {
                    let _ = store.take_at(i);
                }
                store.put(InstalledApp { id, state: AppState::new(), context });
                Ok((store, None))
            },
            AppStoreEvent::RemoveApp(id) => {
                match store.find(&id) {
                    Some(i) => {
                        let _ = store.take_at(i);
                    },
                    None => {
                        proof {
                            assert(store@ =~= store@.remove(id@));
                        }
                    },
                }
                Ok((store, None))
            },
        }
    }
}

proof fn lemma_apps_map_len(s: Seq<InstalledApp>)
    requires
        ids_distinct(s),
    ensures
        apps_map(s).len() == s.len(),
        apps_map(s).dom().finite(),
    decreases s.len(),
{
    if s.len() > 0 {
        let t = s.drop_last();
        assert(ids_distinct(t)) by {
            assert forall|a: int, b: int| 0 <= a < b < t.len() implies (#[trigger] t[a]).id@ != (#[trigger] t[b]).id@ by {
                assert(t[a] == s[a] && t[b] == s[b]);
            }
        }
        lemma_apps_map_len(t);
        lemma_apps_map_contains(t, s.last().id@);
        if apps_map(t).contains_key(s.last().id@) {
            let j = choose|j: int| 0 <= j < t.len() && (#[trigger] t[j]).id@ == s.last().id@;
            assert(t[j] == s[j]);
        }
    }
}

impl Default for AppStore {
    fn default() -> (s: Self)
        ensures
            s@ == Map::<Seq<char>, AppEntry>::empty(),
    {
        AppStore::new()
    }
}

} // verus!
