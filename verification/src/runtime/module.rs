//! Transparent hot-reloading with a blue-green module swap.
//!
//! A new version of a module is staged, and `swap` makes it the active one
//! while the old version drains its in-flight calls.
use vstd::prelude::*;

verus! {

/// The lifecycle state of a module.
#[derive(Debug, Clone, Copy, PartialEq, Eq, Structural)]
pub enum ModuleState {
    /// Module is loading/compiling
    Loading,
    /// Module is compiled and ready to accept calls
    Ready,
    /// Module is actively handling calls
    Running,
    /// Module is idle (no active calls)
    Idle,
    /// Module is being replaced: draining active calls
    Draining,
    /// Module has been replaced and is waiting for cleanup
    Retired,
    /// Module encountered an error
    Error,
}

/// A point in time, used to record when a module last changed state.
#[verifier::external_type_specification]
#[verifier::external_body]
pub struct ExInstant(std::time::Instant);

/// Reads the monotonic clock (`std::time::Instant::now`). Nothing is
/// stated of the value: it depends on the time of the call.
#[verifier::external_body]
fn clock_now() -> std::time::Instant {
    std::time::Instant::now()
}

/// A single module in the Nova runtime.
#[derive(Debug)]
pub struct Module {
    /// Unique module identifier (derived from source location)
    pub id: String,
    /// Current lifecycle state
    pub state: ModuleState,
    /// Number of currently active calls into this module
    pub active_calls: usize,
    /// Module version (incremented on each reload)
    pub version: u64,
    /// Timestamp of last state change
    pub last_changed: std::time::Instant,
    /// Dependencies: other module IDs this module calls
    pub dependencies: Vec<String>,
}

/// The state a module is in after its active-call count drops to zero.
pub open spec fn state_after_last_exit(s: ModuleState) -> ModuleState {
    match s {
        ModuleState::Running => ModuleState::Idle,
        ModuleState::Draining => ModuleState::Retired,
        other => other,
    }
}

impl Module {
    /// A fresh module: loading, no active calls, version 1, no dependencies.
    pub fn new(id: String) -> (m: Self)
        ensures
            m.id@ == id@,
            m.state == ModuleState::Loading,
            m.active_calls == 0,
            m.version == 1,
            m.dependencies@.len() == 0,
    {
        Module {
            id,
            state: ModuleState::Loading,
            active_calls: 0,
            version: 1,
            last_changed: clock_now(),
            dependencies: Vec::new(),
        }
    }

    /// Record that a call has entered this module.
    pub fn enter_call(&mut self)
        requires
            old(self).active_calls < usize::MAX,
        ensures
            final(self).active_calls == old(self).active_calls + 1,
            final(self).state == (if old(self).state == ModuleState::Idle {
                ModuleState::Running
            } else {
                old(self).state
            }),
            final(self).id@ == old(self).id@,
            final(self).version == old(self).version,
            final(self).dependencies@ == old(self).dependencies@,
    {
        self.active_calls = self.active_calls + 1;
        if self.state == ModuleState::Idle {
            self.transition(ModuleState::Running);
        }
    }

    /// Record that a call has exited this module.
    pub fn exit_call(&mut self)
        ensures
            final(self).active_calls == (if old(self).active_calls == 0 {
                0
            } else {
                (old(self).active_calls - 1) as usize
            }),
            final(self).state == (if final(self).active_calls == 0 {
                state_after_last_exit(old(self).state)
            } else {
                old(self).state
            }),
            final(self).id@ == old(self).id@,
            final(self).version == old(self).version,
            final(self).dependencies@ == old(self).dependencies@,
    {
        self.active_calls = self.active_calls.saturating_sub(1);
        if self.active_calls == 0 {
            match self.state {
                ModuleState::Running => self.transition(ModuleState::Idle),
                ModuleState::Draining => self.transition(ModuleState::Retired),
                _ => {},
            }
        }
    }

    /// Transition to a new state.
    fn transition(&mut self, new_state: ModuleState)
        ensures
            final(self).state == new_state,
            final(self).active_calls == old(self).active_calls,
            final(self).id@ == old(self).id@,
            final(self).version == old(self).version,
            final(self).dependencies@ == old(self).dependencies@,
    {
        self.state = new_state;
        self.last_changed = clock_now();
    }

    /// Begin draining: no new calls, wait for existing ones to finish.
    pub fn begin_drain(&mut self)
        ensures
            final(self).state == (if old(self).active_calls == 0 {
                ModuleState::Retired
            } else {
                ModuleState::Draining
            }),
            final(self).active_calls == old(self).active_calls,
            final(self).id@ == old(self).id@,
            final(self).version == old(self).version,
            final(self).dependencies@ == old(self).dependencies@,
    {
        if self.active_calls == 0 {
            self.transition(ModuleState::Retired);
        } else {
            self.transition(ModuleState::Draining);
        }
    }

    /// Check if this module can be safely removed.
    pub fn is_drained(&self) -> (b: bool)
        ensures
            b == (self.state == ModuleState::Retired && self.active_calls == 0),
    {
        self.state == ModuleState::Retired && self.active_calls == 0
    }
}


/// The module with identifier `id` in `mods`, if any (the last one wins,
/// though identifiers are kept unique).
pub open spec fn find_module(mods: Seq<Module>, id: Seq<char>) -> Option<Module>
    decreases mods.len(),
{
    if mods.len() == 0 {
        None
    } else if mods.last().id@ == id {
        Some(mods.last())
    } else {
        find_module(mods.drop_last(), id)
    }
}

/// No two modules in `mods` share an identifier.
pub open spec fn ids_unique(mods: Seq<Module>) -> bool {
    forall|i: int, j: int|
        0 <= i < mods.len() && 0 <= j < mods.len() && i != j ==> #[trigger] mods[i].id@
            != #[trigger] mods[j].id@
}

proof fn lemma_find_absent(mods: Seq<Module>, id: Seq<char>)
    requires
        forall|i: int| 0 <= i < mods.len() ==> #[trigger] mods[i].id@ != id,
    ensures
        find_module(mods, id) is None,
    decreases mods.len(),
{
    if mods.len() > 0 {
        assert(mods.last().id@ == mods[mods.len() - 1].id@);
        assert forall|i: int| 0 <= i < mods.drop_last().len() implies #[trigger] mods.drop_last()[i].id@
            != id by {
            assert(mods.drop_last()[i] == mods[i]);
        }
        lemma_find_absent(mods.drop_last(), id);
    }
}

proof fn lemma_find_present(mods: Seq<Module>, k: int)
    requires
        ids_unique(mods),
        0 <= k < mods.len(),
    ensures
        find_module(mods, mods[k].id@) == Some(mods[k]),
    decreases mods.len(),
{
    if k < mods.len() - 1 {
        let d = mods.drop_last();
        assert(mods[mods.len() - 1].id@ != mods[k].id@);
        assert(d[k] == mods[k]);
        assert forall|i: int, j: int|
            0 <= i < d.len() && 0 <= j < d.len() && i != j implies #[trigger] d[i].id@
                != #[trigger] d[j].id@ by {
            assert(d[i] == mods[i] && d[j] == mods[j]);
        }
        lemma_find_present(d, k);
    }
}

proof fn lemma_find_update(mods: Seq<Module>, k: int, m: Module, id: Seq<char>)
    requires
        ids_unique(mods),
        0 <= k < mods.len(),
        mods[k].id@ == m.id@,
    ensures
        ids_unique(mods.update(k, m)),
        find_module(mods.update(k, m), id) == (if id == m.id@ {
            Some(m)
        } else {
            find_module(mods, id)
        }),
    decreases mods.len(),
{
    let u = mods.update(k, m);
    assert forall|i: int, j: int|
        0 <= i < u.len() && 0 <= j < u.len() && i != j implies #[trigger] u[i].id@
            != #[trigger] u[j].id@ by {
        assert(u[i].id@ == mods[i].id@ && u[j].id@ == mods[j].id@);
    }
    if id == m.id@ {
        assert(u[k] == m);
        lemma_find_present(u, k);
    } else if k == mods.len() - 1 {
        assert(u.drop_last() =~= mods.drop_last());
    } else {
        let d = mods.drop_last();
        assert(u.drop_last() =~= d.update(k, m));
        assert forall|i: int, j: int|
            0 <= i < d.len() && 0 <= j < d.len() && i != j implies #[trigger] d[i].id@
                != #[trigger] d[j].id@ by {
            assert(d[i] == mods[i] && d[j] == mods[j]);
        }
        lemma_find_update(d, k, m, id);
    }
}

proof fn lemma_find_push(mods: Seq<Module>, m: Module, id: Seq<char>)
    requires
        ids_unique(mods),
        forall|i: int| 0 <= i < mods.len() ==> #[trigger] mods[i].id@ != m.id@,
    ensures
        ids_unique(mods.push(m)),
        find_module(mods.push(m), id) == (if id == m.id@ {
            Some(m)
        } else {
            find_module(mods, id)
        }),
{
    let p = mods.push(m);
    assert(p.drop_last() =~= mods);
    assert forall|i: int, j: int|
        0 <= i < p.len() && 0 <= j < p.len() && i != j implies #[trigger] p[i].id@
            != #[trigger] p[j].id@ by {
        if i < mods.len() {
            assert(p[i] == mods[i]);
        }
        if j < mods.len() {
            assert(p[j] == mods[j]);
        }
    }
}

proof fn lemma_find_remove(mods: Seq<Module>, k: int, id: Seq<char>)
    requires
        ids_unique(mods),
        0 <= k < mods.len(),
    ensures
        ids_unique(mods.remove(k)),
        find_module(mods.remove(k), id) == (if id == mods[k].id@ {
            None
        } else {
            find_module(mods, id)
        }),
    decreases mods.len(),
{
    let r = mods.remove(k);
    assert forall|i: int, j: int|
        0 <= i < r.len() && 0 <= j < r.len() && i != j implies #[trigger] r[i].id@
            != #[trigger] r[j].id@ by {
        let ii = if i < k { i } else { i + 1 };
        let jj = if j < k { j } else { j + 1 };
        assert(r[i] == mods[ii] && r[j] == mods[jj]);
    }
    if id == mods[k].id@ {
        assert forall|i: int| 0 <= i < r.len() implies #[trigger] r[i].id@ != id by {
            let ii = if i < k { i } else { i + 1 };
            assert(r[i] == mods[ii]);
        }
        lemma_find_absent(r, id);
    } else if k == mods.len() - 1 {
        assert(r =~= mods.drop_last());
    } else {
        let d = mods.drop_last();
        assert(r.drop_last() =~= d.remove(k));
        assert(r.last() == mods.last());
        assert forall|i: int, j: int|
            0 <= i < d.len() && 0 <= j < d.len() && i != j implies #[trigger] d[i].id@
                != #[trigger] d[j].id@ by {
            assert(d[i] == mods[i] && d[j] == mods[j]);
        }
        lemma_find_remove(d, k, id);
    }
}

proof fn lemma_first_named(mods: Seq<Module>, id: Seq<char>, i: int)
    requires
        0 <= i <= mods.len(),
        forall|j: int| 0 <= j < i ==> #[trigger] mods[j].id@ != id,
        i < mods.len() ==> mods[i].id@ == id,
    ensures
        first_named(mods, id) == (if i < mods.len() {
            Some(i)
        } else {
            None::<int>
        }),
    decreases mods.len(),
{
    if mods.len() > 0 {
        let d = mods.drop_last();
        if i < mods.len() - 1 {
            assert forall|j: int| 0 <= j < i implies #[trigger] d[j].id@ != id by {
                assert(d[j] == mods[j]);
            }
            assert(d[i] == mods[i]);
            lemma_first_named(d, id, i);
        } else {
            assert forall|j: int| 0 <= j < d.len() implies #[trigger] d[j].id@ != id by {
                assert(d[j] == mods[j]);
            }
            lemma_first_named(d, id, d.len() as int);
            assert(mods.last() == mods[mods.len() - 1]);
        }
    }
}

/// Index of the module named `id`, if present.
fn position_of(mods: &Vec<Module>, id: &String) -> (r: Option<usize>)
    ensures
        match r {
            Some(i) => i < mods@.len() && mods@[i as int].id@ == id@,
            None => forall|i: int| 0 <= i < mods@.len() ==> #[trigger] mods@[i].id@ != id@,
        },
{
    let mut i: usize = 0;
    while i < mods.len()
        invariant
            i <= mods@.len(),
            forall|j: int| 0 <= j < i ==> #[trigger] mods@[j].id@ != id@,
        decreases mods@.len() - i,
    {
        if mods[i].id == *id {
            return Some(i);
        }
        i = i + 1;
    }
    None
}

/// Replace the module with the same identifier, or append it.
fn put_module(mods: &mut Vec<Module>, m: Module)
    requires
        ids_unique(old(mods)@),
    ensures
        ids_unique(final(mods)@),
        forall|id: Seq<char>|
            #[trigger] find_module(final(mods)@, id) == (if id == m.id@ {
                Some(m)
            } else {
                find_module(old(mods)@, id)
            }),
{
    match position_of(mods, &m.id) {
        Some(i) => {
            let ghost old_mods = mods@;
            let ghost mm = m;
            mods.set(i, m);
            proof {
                assert forall|id: Seq<char>|
                    #[trigger] find_module(mods@, id) == (if id == mm.id@ {
                        Some(mm)
                    } else {
                        find_module(old_mods, id)
                    }) by {
                    lemma_find_update(old_mods, i as int, mm, id);
                }
                lemma_find_update(old_mods, i as int, mm, mm.id@);
            }
        },
        None => {
            let ghost old_mods = mods@;
            let ghost mm = m;
            mods.push(m);
            proof {
                assert forall|id: Seq<char>|
                    #[trigger] find_module(mods@, id) == (if id == mm.id@ {
                        Some(mm)
                    } else {
                        find_module(old_mods, id)
                    }) by {
                    lemma_find_push(old_mods, mm, id);
                }
                lemma_find_push(old_mods, mm, mm.id@);
            }
        },
    }
}

/// `d` is `m` after it began draining with calls still in flight: the same
/// module, in state `Draining`, with the same number of active calls.
pub open spec fn draining_version_of(d: Module, m: Module) -> bool {
    &&& d.id@ == m.id@
    &&& d.state == ModuleState::Draining
    &&& d.active_calls == m.active_calls
    &&& d.version == m.version
    &&& d.dependencies@ == m.dependencies@
}

/// The position of the first module named `id` in `mods`, if any.
pub open spec fn first_named(mods: Seq<Module>, id: Seq<char>) -> Option<int>
    decreases mods.len(),
{
    if mods.len() == 0 {
        None
    } else {
        match first_named(mods.drop_last(), id) {
            Some(k) => Some(k),
            None => if mods.last().id@ == id {
                Some(mods.len() - 1)
            } else {
                None
            },
        }
    }
}

/// The module manager handles all loaded modules and orchestrates
/// hot-reloading via blue-green swaps.
pub struct ModuleManager {
    modules: Vec<Module>,
    /// Staged modules waiting to replace active ones
    staged: Vec<Module>,
    /// Replaced versions that still have calls in flight, oldest first
    retiring: Vec<Module>,
}

/// Errors of a hot-swap.
#[derive(Debug)]
pub enum ModuleSwapError {
    /// no staged version available for swap
    NoStagedVersion,
    /// module is in an invalid state for swapping
    InvalidState(ModuleState),
}

impl ModuleManager {
    /// Both tables keep module identifiers unique, and every version kept
    /// as draining is in state `Draining` with calls in flight.
    #[verifier::type_invariant]
    spec fn inv(self) -> bool {
        &&& ids_unique(self.modules@)
        &&& ids_unique(self.staged@)
        &&& forall|k: int|
            0 <= k < self.retiring@.len() ==> (#[trigger] self.retiring@[k]).state == ModuleState::Draining
                && self.retiring@[k].active_calls > 0
    }

    /// The active module registered under `id`.
    pub closed spec fn active(self, id: Seq<char>) -> Option<Module> {
        find_module(self.modules@, id)
    }

    /// The module staged to replace `id`.
    pub closed spec fn staged_for(self, id: Seq<char>) -> Option<Module> {
        find_module(self.staged@, id)
    }

    /// The replaced versions that are still draining, oldest first.
    pub closed spec fn draining(self) -> Seq<Module> {
        self.retiring@
    }

    /// An empty manager.
    pub fn new() -> (m: Self)
        ensures
            forall|id: Seq<char>| #[trigger] m.active(id) is None && m.staged_for(id) is None,
            m.draining() == Seq::<Module>::empty(),
    {
        ModuleManager { modules: Vec::new(), staged: Vec::new(), retiring: Vec::new() }
    }

    /// Register a new module; it becomes the active, idle version of its id.
    pub fn register(&mut self, module: Module)
        ensures
            forall|id: Seq<char>| #[trigger] final(self).staged_for(id) == old(self).staged_for(id),
            forall|id: Seq<char>|
                id != module.id@ ==> #[trigger] final(self).active(id) == old(self).active(id),
            final(self).active(module.id@) matches Some(m) && m.id@ == module.id@ && m.state
                == ModuleState::Idle && m.active_calls == module.active_calls && m.version
                == module.version && m.dependencies@ == module.dependencies@,
            final(self).draining() == old(self).draining(),
            registered_from(*old(self), *final(self), module),
    {
        proof { use_type_invariant(&*self); }
        let mut module = module;
        module.state = ModuleState::Idle;
        let ghost m = module;
        let mut modules = Vec::new();
        std::mem::swap(&mut modules, &mut self.modules);
        put_module(&mut modules, module);
        self.modules = modules;
        assert(self.active(m.id@) == Some(m));
    }

    /// Stage a new version of a module for hot-swap; it is marked ready.
    pub fn stage_update(&mut self, new_module: Module)
        ensures
            forall|id: Seq<char>| #[trigger] final(self).active(id) == old(self).active(id),
            forall|id: Seq<char>|
                id != new_module.id@ ==> #[trigger] final(self).staged_for(id) == old(
                    self,
                ).staged_for(id),
            final(self).staged_for(new_module.id@) matches Some(m) && m.id@ == new_module.id@
                && m.state == ModuleState::Ready && m.active_calls == new_module.active_calls
                && m.version == new_module.version && m.dependencies@
                == new_module.dependencies@,
            final(self).draining() == old(self).draining(),
            staged_from(*old(self), *final(self), new_module),
    {
        proof { use_type_invariant(&*self); }
        let mut new_module = new_module;
        new_module.state = ModuleState::Ready;
        let ghost m = new_module;
        let mut staged = Vec::new();
        std::mem::swap(&mut staged, &mut self.staged);
        put_module(&mut staged, new_module);
        self.staged = staged;
        assert(self.staged_for(m.id@) == Some(m));
    }

    /// Execute the hot-swap for a staged module: the old version begins
    /// draining, new calls go to the staged version, which becomes the
    /// active one, and the old version is kept among the draining versions
    /// until its last call exits (one with no call in flight is retired at
    /// once).
    pub fn swap(&mut self, module_id: &str) -> (r: Result<(), ModuleSwapError>)
        ensures
            r is Err ==> final(self).draining() == old(self).draining(),
            r is Ok ==> match old(self).active(module_id@) {
                Some(om) => if om.active_calls == 0 {
                    final(self).draining() == old(self).draining()
                } else {
                    final(self).draining().len() == old(self).draining().len() + 1
                        && final(self).draining().drop_last() == old(self).draining()
                        && draining_version_of(final(self).draining().last(), om)
                },
                None => final(self).draining() == old(self).draining(),
            },
            r is Ok <==> old(self).staged_for(module_id@) is Some,
            r is Ok ==> final(self).active(module_id@) == old(self).staged_for(module_id@)
                && final(self).staged_for(module_id@) is None,
            r is Err ==> r == Err::<(), ModuleSwapError>(ModuleSwapError::NoStagedVersion),
            forall|id: Seq<char>|
                id != module_id@ ==> #[trigger] final(self).active(id) == old(self).active(id)
                    && final(self).staged_for(id) == old(self).staged_for(id),
            r is Err ==> forall|id: Seq<char>|
                #[trigger] final(self).active(id) == old(self).active(id)
                    && final(self).staged_for(id) == old(self).staged_for(id),
            swapped_from(*old(self), *final(self), module_id@, r is Ok),
    {
        proof { use_type_invariant(&*self); }
        let key = module_id.to_owned();
        let pos = position_of(&self.staged, &key);
        let i = match pos {
            Some(i) => i,
            None => {
                proof {
                    lemma_find_absent(self.staged@, module_id@);
                }
                return Err(ModuleSwapError::NoStagedVersion);
            },
        };
        let ghost old_staged = self.staged@;
        let ghost old_modules = self.modules@;
        proof {
            lemma_find_present(old_staged, i as int);
        }
        let mut staged = Vec::new();
        std::mem::swap(&mut staged, &mut self.staged);
        let new_module = staged.remove(i);
        proof {
            assert forall|id: Seq<char>|
                #[trigger] find_module(staged@, id) == (if id == module_id@ {
                    None
                } else {
                    find_module(old_staged, id)
                }) by {
                lemma_find_remove(old_staged, i as int, id);
            }
            lemma_find_remove(old_staged, i as int, module_id@);
        }
        self.staged = staged;
        let mut modules = Vec::new();
        std::mem::swap(&mut modules, &mut self.modules);
        // The old version begins draining; while calls are in flight it is
        // kept among the draining versions, otherwise it is retired.
        match position_of(&modules, &key) {
            Some(j) => {
                let ghost before = modules@;
                proof {
                    lemma_find_present(before, j as int);
                }
                let mut old_module = modules.remove(j);
                let ghost om0 = old_module;
                assert(om0 == before[j as int]);
                proof {
                    assert forall|id: Seq<char>|
                        id != module_id@ implies #[trigger] find_module(modules@, id)
                        == find_module(before, id) by {
                        lemma_find_remove(before, j as int, id);
                    }
                    lemma_find_remove(before, j as int, module_id@);
                }
                old_module.begin_drain();
                if !old_module.is_drained() {
                    let mut retiring = Vec::new();
                    std::mem::swap(&mut retiring, &mut self.retiring);
                    let ghost r0 = retiring@;
                    let ghost om1 = old_module;
                    retiring.push(old_module);
                    assert(retiring@.drop_last() =~= r0);
                    assert(draining_version_of(retiring@.last(), om0));
                    self.retiring = retiring;
                }
                assert(old(self).active(module_id@) == Some(om0));
            },
            None => {
                proof {
                    lemma_find_absent(modules@, module_id@);
                }
            },
        }
        put_module(&mut modules, new_module);
        self.modules = modules;
        Ok(())
    }

    /// The state and active-call count of every registered module.
    pub fn status(&self) -> (r: Vec<(String, ModuleState, usize)>)
        ensures
            forall|i: int|
                0 <= i < r@.len() ==> ((#[trigger] self.active(r@[i].0@)) matches Some(m)
                    && m.state == r@[i].1 && m.active_calls == r@[i].2),
            forall|i: int, j: int|
                0 <= i < r@.len() && 0 <= j < r@.len() && i != j ==> #[trigger] r@[i].0@
                    != #[trigger] r@[j].0@,
            forall|id: Seq<char>|
                #[trigger] self.active(id) is Some ==> exists|i: int|
                    0 <= i < r@.len() && #[trigger] r@[i].0@ == id,
    {
        proof { use_type_invariant(self); }
        let mut r: Vec<(String, ModuleState, usize)> = Vec::new();
        let mut i: usize = 0;
        while i < self.modules.len()
            invariant
                i <= self.modules@.len(),
                ids_unique(self.modules@),
                r@.len() == i,
                forall|k: int|
                    0 <= k < i ==> ((#[trigger] r@[k]).0@ == self.modules@[k].id@ && r@[k].1
                        == self.modules@[k].state && r@[k].2 == self.modules@[k].active_calls),
            decreases self.modules@.len() - i,
        {
            let m = &self.modules[i];
            r.push((m.id.clone(), m.state, m.active_calls));
            i = i + 1;
        }
        proof {
            assert forall|k: int|
                0 <= k < r@.len() implies ((#[trigger] self.active(r@[k].0@)) matches Some(m)
                && m.state == r@[k].1 && m.active_calls == r@[k].2) by {
                assert(r@[k].0@ == self.modules@[k].id@);
                lemma_find_present(self.modules@, k);
            }
            assert forall|a: int, b: int|
                0 <= a < r@.len() && 0 <= b < r@.len() && a != b implies #[trigger] r@[a].0@
                != #[trigger] r@[b].0@ by {
                assert(r@[a].0@ == self.modules@[a].id@ && r@[b].0@ == self.modules@[b].id@);
            }
            assert forall|id: Seq<char>| #[trigger] self.active(id) is Some implies exists|k: int|
                0 <= k < r@.len() && #[trigger] r@[k].0@ == id by {
                if forall|k: int| 0 <= k < self.modules@.len() ==> #[trigger] self.modules@[k].id@ != id {
                    lemma_find_absent(self.modules@, id);
                } else {
                    let k = choose|k: int| 0 <= k < self.modules@.len() && #[trigger] self.modules@[k].id@ == id;
                    assert(r@[k].0@ == id);
                }
            }
        }
        r
    }
}

impl ModuleManager {
    /// Record that a call into the oldest draining version of `module_id`
    /// has exited; that version is retired and dropped once its last call
    /// exits. Returns whether a draining version of `module_id` was found.
    pub fn exit_draining_call(&mut self, module_id: &str) -> (r: bool)
        ensures
            r == first_named(old(self).draining(), module_id@) is Some,
            forall|id: Seq<char>|
                #[trigger] final(self).active(id) == old(self).active(id) && final(self).staged_for(id)
                    == old(self).staged_for(id),
            match first_named(old(self).draining(), module_id@) {
                None => final(self).draining() == old(self).draining(),
                Some(k) => if old(self).draining()[k].active_calls <= 1 {
                    final(self).draining() == old(self).draining().remove(k)
                } else {
                    &&& final(self).draining().len() == old(self).draining().len()
                    &&& forall|j: int|
                        0 <= j < old(self).draining().len() && j != k ==> #[trigger] final(self).draining()[j]
                            == old(self).draining()[j]
                    &&& final(self).draining()[k].active_calls == old(self).draining()[k].active_calls - 1
                    &&& final(self).draining()[k].state == old(self).draining()[k].state
                    &&& final(self).draining()[k].id@ == old(self).draining()[k].id@
                    &&& final(self).draining()[k].version == old(self).draining()[k].version
                },
            },
    {
        proof { use_type_invariant(&*self); }
        let mut i: usize = 0;
        while i < self.retiring.len() && !crate::check::types::spells(&self.retiring[i].id, module_id)
            invariant
                i <= self.retiring@.len(),
                forall|j: int| 0 <= j < i ==> #[trigger] self.retiring@[j].id@ != module_id@,
            decreases self.retiring@.len() - i,
        {
            i = i + 1;
        }
        proof {
            lemma_first_named(self.retiring@, module_id@, i as int);
        }
        if i == self.retiring.len() {
            return false;
        }
        let mut retiring = Vec::new();
        std::mem::swap(&mut retiring, &mut self.retiring);
        let ghost before = retiring@;
        let mut m = retiring.remove(i);
        m.exit_call();
        if !m.is_drained() {
            retiring.insert(i, m);
            proof {
                assert(retiring@ =~= before.update(i as int, m));
            }
        } else {
            assert(retiring@ =~= before.remove(i as int));
        }
        self.retiring = retiring;
        true
    }

    /// The identifier, state and active-call count of every draining
    /// version, oldest first.
    pub fn draining_status(&self) -> (r: Vec<(String, ModuleState, usize)>)
        ensures
            r@.len() == self.draining().len(),
            forall|i: int|
                0 <= i < r@.len() ==> (#[trigger] r@[i]).0@ == self.draining()[i].id@ && r@[i].1
                    == self.draining()[i].state && r@[i].2 == self.draining()[i].active_calls,
    {
        let mut r: Vec<(String, ModuleState, usize)> = Vec::new();
        let mut i: usize = 0;
        while i < self.retiring.len()
            invariant
                i <= self.retiring@.len(),
                r@.len() == i,
                forall|k: int|
                    0 <= k < i ==> (#[trigger] r@[k]).0@ == self.retiring@[k].id@ && r@[k].1
                        == self.retiring@[k].state && r@[k].2 == self.retiring@[k].active_calls,
            decreases self.retiring@.len() - i,
        {
            let m = &self.retiring[i];
            r.push((m.id.clone(), m.state, m.active_calls));
            i = i + 1;
        }
        r
    }
}

/// What `status` reports of a manager, as a map from the identifier of
/// each active module to its state and number of active calls.
pub open spec fn status_map(mgr: ModuleManager) -> Map<Seq<char>, (ModuleState, usize)> {
    Map::new(
        |id: Seq<char>| mgr.active(id) is Some,
        |id: Seq<char>| (mgr.active(id)->0.state, mgr.active(id)->0.active_calls),
    )
}

/// `after` is what registering `m` leaves of `before`: `m` is active and
/// idle under its identifier, in place of any module there before; the
/// other active modules, the staged ones and the draining ones are
/// untouched.
pub open spec fn registered_from(before: ModuleManager, after: ModuleManager, m: Module) -> bool {
    &&& forall|id: Seq<char>| #[trigger] after.staged_for(id) == before.staged_for(id)
    &&& forall|id: Seq<char>| id != m.id@ ==> #[trigger] after.active(id) == before.active(id)
    &&& after.active(m.id@) matches Some(x) && x.id@ == m.id@ && x.state == ModuleState::Idle
        && x.active_calls == m.active_calls && x.version == m.version && x.dependencies@ == m.dependencies@
    &&& after.draining() == before.draining()
}

/// Registering a module puts its identifier into the status as idle with
/// the module's active calls, replacing what was there; the rest of the
/// status stays as it was.
pub proof fn lemma_register_status(m0: ModuleManager, m1: ModuleManager, m: Module)
    requires
        registered_from(m0, m1, m),
    ensures
        status_map(m1) == status_map(m0).insert(m.id@, (ModuleState::Idle, m.active_calls)),
{
    assert(status_map(m1) =~= status_map(m0).insert(m.id@, (ModuleState::Idle, m.active_calls)));
}

/// `after` is what staging `m` leaves of `before`: the active modules are
/// untouched and a ready copy of `m` is staged under its identifier.
pub open spec fn staged_from(before: ModuleManager, after: ModuleManager, m: Module) -> bool {
    &&& forall|id: Seq<char>| #[trigger] after.active(id) == before.active(id)
    &&& forall|id: Seq<char>| id != m.id@ ==> #[trigger] after.staged_for(id) == before.staged_for(id)
    &&& after.staged_for(m.id@) matches Some(x) && x.id@ == m.id@ && x.state == ModuleState::Ready
        && x.active_calls == m.active_calls && x.version == m.version && x.dependencies@ == m.dependencies@
    &&& after.draining() == before.draining()
}

/// `after` is what swapping `id` leaves of `before`, the swap having
/// succeeded when `ok`: it succeeds exactly when a version is staged,
/// makes that version active and consumes it; other identifiers, and
/// everything on failure, are untouched.
pub open spec fn swapped_from(before: ModuleManager, after: ModuleManager, id: Seq<char>, ok: bool) -> bool {
    &&& ok <==> before.staged_for(id) is Some
    &&& ok ==> after.active(id) == before.staged_for(id) && after.staged_for(id) is None
    &&& forall|k: Seq<char>|
        k != id ==> #[trigger] after.active(k) == before.active(k) && after.staged_for(k) == before.staged_for(k)
    &&& !ok ==> forall|k: Seq<char>|
        #[trigger] after.active(k) == before.active(k) && after.staged_for(k) == before.staged_for(k)
}

/// Staging a module and then swapping its identifier succeeds, and the
/// staged version is then the active one, ready, with the calls it was
/// staged with; every other active module is as before the staging.
pub proof fn lemma_stage_then_swap(
    m0: ModuleManager,
    m1: ModuleManager,
    m2: ModuleManager,
    m: Module,
    ok: bool,
)
    requires
        staged_from(m0, m1, m),
        swapped_from(m1, m2, m.id@, ok),
    ensures
        ok,
        m2.active(m.id@) matches Some(x) && x.state == ModuleState::Ready && x.active_calls == m.active_calls,
        forall|k: Seq<char>| k != m.id@ ==> #[trigger] m2.active(k) == m0.active(k),
{
    assert forall|k: Seq<char>| k != m.id@ implies #[trigger] m2.active(k) == m0.active(k) by {
        assert(m2.active(k) == m1.active(k));
        assert(m1.active(k) == m0.active(k));
    }
}

/// A swap consumes the staged version: a second swap of the same
/// identifier fails and changes nothing.
pub proof fn lemma_swap_consumes(
    m0: ModuleManager,
    m1: ModuleManager,
    m2: ModuleManager,
    id: Seq<char>,
    ok1: bool,
    ok2: bool,
)
    requires
        swapped_from(m0, m1, id, ok1),
        swapped_from(m1, m2, id, ok2),
        ok1,
    ensures
        !ok2,
        forall|k: Seq<char>| #[trigger] m2.active(k) == m1.active(k) && m2.staged_for(k) == m1.staged_for(k),
{
}

/// Swapping an identifier with no staged version fails and changes no
/// active or staged module.
pub proof fn lemma_swap_unstaged(m0: ModuleManager, m1: ModuleManager, id: Seq<char>, ok: bool)
    requires
        swapped_from(m0, m1, id, ok),
        m0.staged_for(id) is None,
    ensures
        !ok,
        forall|k: Seq<char>| #[trigger] m1.active(k) == m0.active(k) && m1.staged_for(k) == m0.staged_for(k),
{
}

impl Default for ModuleManager {
    /// An empty manager.
    fn default() -> (m: Self)
        ensures
            forall|id: Seq<char>| #[trigger] m.active(id) is None && m.staged_for(id) is None,
            m.draining() == Seq::<Module>::empty(),
    {
        Self::new()
    }
}

/// The name of a module state, as it is written in messages.
pub open spec fn state_name(s: ModuleState) -> Seq<char> {
    match s {
        ModuleState::Loading => "Loading"@,
        ModuleState::Ready => "Ready"@,
        ModuleState::Running => "Running"@,
        ModuleState::Idle => "Idle"@,
        ModuleState::Draining => "Draining"@,
        ModuleState::Retired => "Retired"@,
        ModuleState::Error => "Error"@,
    }
}

impl ModuleSwapError {
    /// The error's message.
    pub fn message(&self) -> (r: String)
        ensures
            r@ == match self {
                ModuleSwapError::NoStagedVersion => "no staged version available for swap"@,
                ModuleSwapError::InvalidState(s) => "module is in an invalid state for swapping: "@
                    + state_name(*s),
            },
    {
        proof {
            reveal_strlit("no staged version available for swap");
            reveal_strlit("module is in an invalid state for swapping: ");
            reveal_strlit("Loading");
            reveal_strlit("Ready");
            reveal_strlit("Running");
            reveal_strlit("Idle");
            reveal_strlit("Draining");
            reveal_strlit("Retired");
            reveal_strlit("Error");
        }
        match self {
            ModuleSwapError::NoStagedVersion => String::from_str("no staged version available for swap"),
            ModuleSwapError::InvalidState(s) => {
                let mut m = String::from_str("module is in an invalid state for swapping: ");
                let name = match s {
                    ModuleState::Loading => "Loading",
                    ModuleState::Ready => "Ready",
                    ModuleState::Running => "Running",
                    ModuleState::Idle => "Idle",
                    ModuleState::Draining => "Draining",
                    ModuleState::Retired => "Retired",
                    ModuleState::Error => "Error",
                };
                m.append(name);
                m
            },
        }
    }
}

} // verus!
