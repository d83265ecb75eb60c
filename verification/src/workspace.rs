//! The workspace: projects, the active-project pointer, configuration and
//! the remote reference.
//!
//! A [`Workspace`] is the root container of the engine. It owns any number
//! of named, isolated [`Project`]s, exactly one of which is active; a
//! key/value configuration under dotted keys; at most one remote
//! reference; and the clock value that mutations stamp their commits with.
//! Every operation of the command surface is a method here (the sync
//! protocol's methods live in [`crate::sync`]).

use vstd::prelude::*;
use vstd::string::StrSliceExecFns;
use vstd::string::StringExecFns;
use crate::error::{ConfigError, InitResult, ProjectsError, SwitchError, SwitchResult, TixError};
use crate::history::{CommitModel, Project, ProjectModel};
use crate::sync::{Remote, RemoteModel, RemoteState, SyncProjectModel};
use crate::text::{is_config_key, is_config_key_str, is_url, str_eq};

verus! {

/// The sequence of project models behind a vector of projects.
pub open spec fn projects_model(ps: Seq<Project>) -> Seq<ProjectModel> {
    ps.map_values(|p: Project| p@)
}

/// The sequence of key/value pairs behind a configuration vector.
pub open spec fn config_model(c: Seq<(String, String)>) -> Seq<(Seq<char>, Seq<char>)> {
    c.map_values(|kv: (String, String)| (kv.0@, kv.1@))
}

/// Pushing a project commutes with taking models.
pub proof fn lemma_projects_model_push(ps: Seq<Project>, p: Project)
    ensures
        projects_model(ps.push(p)) == projects_model(ps).push(p@),
{
    assert forall|k: int| 0 <= k < ps.len() + 1 implies projects_model(ps.push(p))[k]
        == projects_model(ps).push(p@)[k] by {}
    assert(projects_model(ps.push(p)) =~= projects_model(ps).push(p@));
}

/// Updating a project commutes with taking models.
pub proof fn lemma_projects_model_update(ps: Seq<Project>, i: int, p: Project)
    requires
        0 <= i < ps.len(),
    ensures
        projects_model(ps.update(i, p)) == projects_model(ps).update(i, p@),
{
    assert forall|k: int| 0 <= k < ps.len() implies projects_model(ps.update(i, p))[k]
        == projects_model(ps).update(i, p@)[k] by {}
    assert(projects_model(ps.update(i, p)) =~= projects_model(ps).update(i, p@));
}

/// Pushing an entry commutes with taking the configuration model.
pub proof fn lemma_config_model_push(c: Seq<(String, String)>, kv: (String, String))
    ensures
        config_model(c.push(kv)) == config_model(c).push((kv.0@, kv.1@)),
{
    assert forall|k: int| 0 <= k < c.len() + 1 implies config_model(c.push(kv))[k]
        == config_model(c).push((kv.0@, kv.1@))[k] by {}
    assert(config_model(c.push(kv)) =~= config_model(c).push((kv.0@, kv.1@)));
}

/// Updating an entry commutes with taking the configuration model.
pub proof fn lemma_config_model_update(c: Seq<(String, String)>, i: int, kv: (String, String))
    requires
        0 <= i < c.len(),
    ensures
        config_model(c.update(i, kv)) == config_model(c).update(i, (kv.0@, kv.1@)),
{
    assert forall|k: int| 0 <= k < c.len() implies config_model(c.update(i, kv))[k]
        == config_model(c).update(i, (kv.0@, kv.1@))[k] by {}
    assert(config_model(c.update(i, kv)) =~= config_model(c).update(i, (kv.0@, kv.1@)));
}

/// Taking an element out of a sequence and putting another back at the
/// same position is an update.
pub proof fn lemma_reinsert<A>(s: Seq<A>, i: int, x: A)
    requires
        0 <= i < s.len(),
    ensures
        s.remove(i).insert(i, x) == s.update(i, x),
{
    assert forall|k: int| 0 <= k < s.len() implies s.remove(i).insert(i, x)[k] == s.update(
        i,
        x,
    )[k] by {}
    assert(s.remove(i).insert(i, x) =~= s.update(i, x));
}

/// The mathematical value of a workspace.
#[verifier::ext_equal]
pub ghost struct WorkspaceModel {
    /// Whether `init` has run; nothing else works before it has.
    pub initialized: bool,
    pub projects: Seq<ProjectModel>,
    /// Index of the active project (meaningful only when initialized).
    pub active: nat,
    /// Key/value configuration entries, keys unique.
    pub config: Seq<(Seq<char>, Seq<char>)>,
    pub remote: Option<RemoteModel>,
    /// The remote state as last observed by a successful push, pull or
    /// clone; what `push --force-with-lease` compares against.
    pub lease: Option<Seq<SyncProjectModel>>,
    /// The clock value commits are stamped with.
    pub now: u64,
}

/// The value a configuration key holds, if any.
pub open spec fn config_lookup(c: Seq<(Seq<char>, Seq<char>)>, k: Seq<char>) -> Option<Seq<char>>
    decreases c.len(),
{
    if c.len() == 0 {
        None
    } else if c.last().0 == k {
        Some(c.last().1)
    } else {
        config_lookup(c.drop_last(), k)
    }
}

/// The configuration after setting `k` to `v`: the existing entry is
/// replaced in place, or a new entry is appended.
pub open spec fn config_with(
    c: Seq<(Seq<char>, Seq<char>)>,
    k: Seq<char>,
    v: Seq<char>,
) -> Seq<(Seq<char>, Seq<char>)> {
    if exists|j: int| 0 <= j < c.len() && (#[trigger] c[j]).0 == k {
        c.update(choose|j: int| 0 <= j < c.len() && (#[trigger] c[j]).0 == k, (k, v))
    } else {
        c.push((k, v))
    }
}

impl WorkspaceModel {
    /// The active project.
    pub open spec fn active_project(self) -> ProjectModel {
        self.projects[self.active as int]
    }

    /// The active project's current ticket store.
    pub open spec fn tickets(self) -> Seq<crate::ticket::TicketModel> {
        self.active_project().tickets()
    }

    /// The workspace with the active project replaced by `p`.
    pub open spec fn with_active(self, p: ProjectModel) -> WorkspaceModel {
        WorkspaceModel { projects: self.projects.update(self.active as int, p), ..self }
    }

    /// Whether some project bears `name`.
    pub open spec fn has_project(self, name: Seq<char>) -> bool {
        exists|i: int| 0 <= i < self.projects.len() && (#[trigger] self.projects[i]).name == name
    }

    /// The index of the project named `name` (unique under [`Self::wf`]).
    pub open spec fn project_index(self, name: Seq<char>) -> int {
        choose|i: int| 0 <= i < self.projects.len() && (#[trigger] self.projects[i]).name == name
    }

    /// Well-formedness: the active index is in range, every project is well
    /// formed, project names are unique, configuration keys are unique and
    /// well formed, and a configured remote carries a well-formed URL.
    pub open spec fn wf(self) -> bool {
        &&& self.initialized ==> self.active < self.projects.len()
        &&& !self.initialized ==> self.projects.len() == 0
        &&& forall|i: int| 0 <= i < self.projects.len() ==> (#[trigger] self.projects[i]).wf()
        &&& forall|i: int, j: int|
            0 <= i < j < self.projects.len() ==> (#[trigger] self.projects[i]).name != (
            #[trigger] self.projects[j]).name
        &&& forall|i: int|
            0 <= i < self.config.len() ==> is_config_key((#[trigger] self.config[i]).0)
        &&& forall|i: int, j: int|
            0 <= i < j < self.config.len() ==> (#[trigger] self.config[i]).0 != (
            #[trigger] self.config[j]).0
        &&& self.remote is Some ==> is_url(self.remote->0.url) && self.remote->0.name
            == "origin"@
    }

    /// The project a fresh `init` creates: `main`, holding one `init`
    /// commit with an empty ticket store.
    pub open spec fn init_project(now: u64) -> ProjectModel {
        ProjectModel {
            name: "main"@,
            commits: seq![
                CommitModel { message: "init"@, time: now, tickets: Seq::empty() },
            ],
            cursor: 1nat,
            next_seq: 0nat,
        }
    }

    /// The workspace a fresh `init` produces.
    pub open spec fn spec_init(self) -> WorkspaceModel {
        WorkspaceModel {
            initialized: true,
            projects: seq![Self::init_project(self.now)],
            active: 0nat,
            ..self
        }
    }

    /// The workspace after creating project `name` and switching to it.
    pub open spec fn spec_create_project(self, name: Seq<char>) -> WorkspaceModel {
        WorkspaceModel {
            projects: self.projects.push(
                ProjectModel { name, commits: Seq::empty(), cursor: 0nat, next_seq: 0nat },
            ),
            active: self.projects.len(),
            ..self
        }
    }

    /// The workspace after switching to the existing project `name`.
    pub open spec fn spec_switch_to(self, name: Seq<char>) -> WorkspaceModel {
        WorkspaceModel { active: self.project_index(name) as nat, ..self }
    }

    /// The project names with the active project's name first, then the
    /// others in creation order.
    pub open spec fn names_active_first(self) -> Seq<Seq<char>> {
        let names = self.projects.map_values(|p: ProjectModel| p.name);
        seq![self.active_project().name] + names.take(self.active as int) + names.skip(
            self.active as int + 1,
        )
    }
}

/// If `c[i]` bears key `k` and keys are unique, looking `k` up yields
/// exactly that entry's value.
proof fn lemma_config_lookup_found(c: Seq<(Seq<char>, Seq<char>)>, k: Seq<char>, i: int)
    requires
        forall|p: int, q: int| 0 <= p < q < c.len() ==> (#[trigger] c[p]).0 != (#[trigger] c[q]).0,
        0 <= i < c.len(),
        c[i].0 == k,
    ensures
        config_lookup(c, k) == Some(c[i].1),
    decreases c.len(),
{
    if i == c.len() - 1 {
    } else {
        assert(c.drop_last()[i] == c[i]);
        lemma_config_lookup_found(c.drop_last(), k, i);
    }
}

/// A key no entry bears looks up to nothing.
proof fn lemma_config_lookup_absent(c: Seq<(Seq<char>, Seq<char>)>, k: Seq<char>)
    requires
        forall|j: int| 0 <= j < c.len() ==> (#[trigger] c[j]).0 != k,
    ensures
        config_lookup(c, k) is None,
    decreases c.len(),
{
    if c.len() > 0 {
        assert forall|j: int| 0 <= j < c.drop_last().len() implies (#[trigger] c.drop_last()[j]).0
            != k by {
            assert(c.drop_last()[j] == c[j]);
        }
        lemma_config_lookup_absent(c.drop_last(), k);
    }
}

/// The root container of the engine.
///
/// All fields are plain data; the operations maintain
/// [`WorkspaceModel::wf`] over the view.
#[derive(Debug)]
pub struct Workspace {
    pub initialized: bool,
    pub projects: Vec<Project>,
    pub active: usize,
    pub config: Vec<(String, String)>,
    pub remote: Option<Remote>,
    pub lease: Option<RemoteState>,
    pub now: u64,
}

impl View for Workspace {
    type V = WorkspaceModel;

    open spec fn view(&self) -> WorkspaceModel {
        WorkspaceModel {
            initialized: self.initialized,
            projects: projects_model(self.projects@),
            active: self.active as nat,
            config: config_model(self.config@),
            remote: match self.remote {
                Some(r) => Some(r@),
                None => None,
            },
            lease: match self.lease {
                Some(l) => Some(l@),
                None => None,
            },
            now: self.now,
        }
    }
}

impl Workspace {
    /// A fresh, uninitialized workspace: no projects, no configuration, no
    /// remote, the clock at zero.
    pub fn new() -> (w: Workspace)
        ensures
            w@ == (WorkspaceModel {
                initialized: false,
                projects: Seq::<ProjectModel>::empty(),
                active: 0nat,
                config: Seq::<(Seq<char>, Seq<char>)>::empty(),
                remote: None::<RemoteModel>,
                lease: None::<Seq<SyncProjectModel>>,
                now: 0u64,
            }),
            w@.wf(),
    {
        let w = Workspace {
            initialized: false,
            projects: Vec::new(),
            active: 0,
            config: Vec::new(),
            remote: None,
            lease: None,
            now: 0,
        };
        proof {
            assert(w@ =~= WorkspaceModel {
                initialized: false,
                projects: Seq::<ProjectModel>::empty(),
                active: 0nat,
                config: Seq::<(Seq<char>, Seq<char>)>::empty(),
                remote: None::<RemoteModel>,
                lease: None::<Seq<SyncProjectModel>>,
                now: 0u64,
            });
        }
        w
    }

    /// Set the clock value that subsequent mutations stamp their commits
    /// with.
    pub fn set_clock(&mut self, now: u64)
        ensures
            final(self)@ == (WorkspaceModel { now, ..old(self)@ }),
    {
        self.now = now;
        proof {
            assert(self@ =~= WorkspaceModel { now, ..old(self)@ });
        }
    }

    /// Initialize the workspace: create the `main` project and make it
    /// active. Re-running on an initialized workspace changes nothing and
    /// reports [`InitResult::Reinitialized`]; initialization is idempotent
    /// and never fails at the engine level (the taxonomy's access and
    /// creation failures arise from the caller's storage, not from here).
    pub fn init(&mut self) -> (r: Result<InitResult, TixError>)
        requires
            old(self)@.wf(),
        ensures
            final(self)@.wf(),
            old(self)@.initialized ==> r == Ok::<InitResult, TixError>(InitResult::Reinitialized)
                && final(self)@ == old(self)@,
            !old(self)@.initialized ==> r == Ok::<InitResult, TixError>(InitResult::Initialized)
                && final(self)@ == old(self)@.spec_init(),
    {
        if self.initialized {
            return Ok(InitResult::Reinitialized);
        }
        let mut p = Project::empty(String::from_str("main"));
        p.record(String::from_str("init"), self.now, Vec::new());
        proof {
            crate::history::lemma_record_wf(
                ProjectModel {
                    name: "main"@,
                    commits: Seq::<CommitModel>::empty(),
                    cursor: 0nat,
                    next_seq: 0nat,
                },
                CommitModel { message: "init"@, time: self.now, tickets: Seq::empty() },
            );
            assert(crate::ticket::tickets_model(Seq::<crate::ticket::Ticket>::empty())
                =~= Seq::<crate::ticket::TicketModel>::empty());
        }
        self.projects.push(p);
        self.active = 0;
        self.initialized = true;
        proof {
            assert(p@.commits =~= WorkspaceModel::init_project(old(self).now).commits);
            assert(p@ =~= WorkspaceModel::init_project(old(self).now));
            assert(self@.projects =~= seq![p@]);
            assert(self@ =~= old(self)@.spec_init());
        }
        Ok(InitResult::Initialized)
    }

    /// Find the index of the project named `name`.
    pub(crate) fn find_project(&self, name: &str) -> (r: Option<usize>)
        ensures
            match r {
                Some(i) => 0 <= i < self@.projects.len() && self@.projects[i as int].name == name@,
                None => !self@.has_project(name@),
            },
    {
        let mut i: usize = 0;
        while i < self.projects.len()
            invariant
                i <= self@.projects.len(),
                self@.projects.len() == self.projects@.len(),
                forall|j: int| 0 <= j < i ==> (#[trigger] self@.projects[j]).name != name@,
            decreases self@.projects.len() - i,
        {
            if str_eq(self.projects[i].name.as_str(), name) {
                return Some(i);
            }
            i = i + 1;
        }
        None
    }

    /// Switch the active project, optionally creating the target first.
    ///
    /// With `create` set, the target must not exist yet: it is created
    /// empty and becomes active, even if the name is the active project's
    /// (that case fails with `SwitchProjectAlreadyExists`). Without
    /// `create`, the target must exist and must not already be active.
    pub fn switch(&mut self, project: &str, create: bool) -> (r: Result<SwitchResult, SwitchError>)
        requires
            old(self)@.wf(),
        ensures
            final(self)@.wf(),
            !old(self)@.initialized ==> r == Err::<SwitchResult, SwitchError>(
                SwitchError::TixError(TixError::NotARepository),
            ) && final(self)@ == old(self)@,
            old(self)@.initialized && create && old(self)@.has_project(project@) ==> (r matches Err(
                SwitchError::TixError(TixError::SwitchProjectAlreadyExists(n)),
            ) && n@ == project@) && final(self)@ == old(self)@,
            old(self)@.initialized && create && !old(self)@.has_project(project@) ==> (r matches Ok(
                SwitchResult::Created(n),
            ) && n@ == project@) && final(self)@ == old(self)@.spec_create_project(project@),
            old(self)@.initialized && !create && old(self)@.active_project().name == project@ ==> (
            r matches Err(SwitchError::TixError(TixError::SwitchAlreadyOnProject(n))) && n@
                == project@) && final(self)@ == old(self)@,
            old(self)@.initialized && !create && old(self)@.active_project().name != project@
                && !old(self)@.has_project(project@) ==> (r matches Err(
                SwitchError::TixError(TixError::SwitchProjectNotFound(n)),
            ) && n@ == project@) && final(self)@ == old(self)@,
            old(self)@.initialized && !create && old(self)@.active_project().name != project@
                && old(self)@.has_project(project@) ==> (r matches Ok(SwitchResult::Switched(n))
                && n@ == project@) && final(self)@ == old(self)@.spec_switch_to(project@),
    {
        if !self.initialized {
            return Err(SwitchError::TixError(TixError::NotARepository));
        }
        if create {
            match self.find_project(project) {
                Some(_) => Err(
                    SwitchError::TixError(
                        TixError::SwitchProjectAlreadyExists(String::from_str(project)),
                    ),
                ),
                None => {
                    let p = Project::empty(String::from_str(project));
                    self.projects.push(p);
                    self.active = self.projects.len() - 1;
                    proof {
                        assert(self@.projects =~= old(self)@.projects.push(p@));
                        assert(self@ =~= old(self)@.spec_create_project(project@));
                    }
                    Ok(SwitchResult::Created(String::from_str(project)))
                },
            }
        } else {
            if str_eq(self.projects[self.active].name.as_str(), project) {
                return Err(
                    SwitchError::TixError(
                        TixError::SwitchAlreadyOnProject(String::from_str(project)),
                    ),
                );
            }
            match self.find_project(project) {
                Some(i) => {
                    self.active = i;
                    proof {
                        let j = old(self)@.project_index(project@);
                        assert(0 <= j < old(self)@.projects.len() && old(self)@.projects[j].name
                            == project@);
                        assert(j == i as int);
                        assert(self@ =~= old(self)@.spec_switch_to(project@));
                    }
                    Ok(SwitchResult::Switched(String::from_str(project)))
                },
                None => Err(
                    SwitchError::TixError(
                        TixError::SwitchProjectNotFound(String::from_str(project)),
                    ),
                ),
            }
        }
    }

    /// List the project names, the active project first, the rest in
    /// creation order.
    pub fn projects(&self) -> (r: Result<Vec<String>, ProjectsError>)
        requires
            self@.wf(),
        ensures
            !self@.initialized ==> r == Err::<Vec<String>, ProjectsError>(
                ProjectsError::TixError(TixError::NotARepository),
            ),
            self@.initialized ==> r is Ok && (r->Ok_0)@.map_values(|s: String| s@)
                == self@.names_active_first(),
    {
        if !self.initialized {
            return Err(ProjectsError::TixError(TixError::NotARepository));
        }
        let ghost names = self@.projects.map_values(|p: ProjectModel| p.name);
        let mut r: Vec<String> = Vec::new();
        r.push(self.projects[self.active].name.clone());
        let mut i: usize = 0;
        while i < self.projects.len()
            invariant
                self@.initialized,
                self@.active < self@.projects.len(),
                self@.active == self.active as nat,
                names == self@.projects.map_values(|p: ProjectModel| p.name),
                i <= self.projects@.len(),
                self@.projects.len() == self.projects@.len(),
                r@.len() == if i <= self.active {
                    i + 1
                } else {
                    i as int
                },
                r@[0]@ == self@.active_project().name,
                forall|k: int|
                    1 <= k < r@.len() ==> (#[trigger] r@[k])@ == if k <= self.active {
                        names[k - 1]
                    } else {
                        names[k]
                    },
            decreases self.projects@.len() - i,
        {
            if i != self.active {
                r.push(self.projects[i].name.clone());
            }
            i = i + 1;
        }
        proof {
            let f = |s: String| s@;
            let goal = self@.names_active_first();
            let n = names.len() as int;
            assert(r@.len() == n);
            assert(goal.len() == n);
            assert forall|k: int| 0 <= k < n implies r@.map_values(f)[k] == goal[k] by {
                if k == 0 {
                } else if k <= self.active {
                    assert(r@[k]@ == names[k - 1]);
                    assert(goal[k] == names.take(self.active as int)[k - 1]);
                } else {
                    assert(r@[k]@ == names[k]);
                    assert(goal[k] == names.skip(self.active as int + 1)[k - 1 - self.active]);
                }
            }
            assert(r@.map_values(f) =~= goal);
        }
        Ok(r)
    }

    /// Set configuration key `key` to `value`, replacing any prior value.
    pub fn config_set(&mut self, key: &str, value: &str) -> (r: Result<(), ConfigError>)
        requires
            old(self)@.wf(),
        ensures
            final(self)@.wf(),
            !old(self)@.initialized ==> r == Err::<(), ConfigError>(
                ConfigError::TixError(TixError::NotARepository),
            ) && final(self)@ == old(self)@,
            old(self)@.initialized && !is_config_key(key@) ==> r == Err::<(), ConfigError>(
                ConfigError::TixError(TixError::ConfigInvalidKey),
            ) && final(self)@ == old(self)@,
            old(self)@.initialized && is_config_key(key@) ==> r == Ok::<(), ConfigError>(())
                && final(self)@ == (WorkspaceModel {
                config: config_with(old(self)@.config, key@, value@),
                ..old(self)@
            }),
    {
        if !self.initialized {
            return Err(ConfigError::TixError(TixError::NotARepository));
        }
        if !is_config_key_str(key) {
            return Err(ConfigError::TixError(TixError::ConfigInvalidKey));
        }
        let ghost cfg = self@.config;
        let mut i: usize = 0;
        while i < self.config.len()
            invariant
                *self == *old(self),
                self@.wf(),
                self@.initialized,
                is_config_key(key@),
                cfg == self@.config,
                self.config@.len() == cfg.len(),
                i <= cfg.len(),
                forall|j: int| 0 <= j < i ==> (#[trigger] cfg[j]).0 != key@,
            decreases cfg.len() - i,
        {
            if str_eq(self.config[i].0.as_str(), key) {
                let ghost iv = i as int;
                let newval = String::from_str(value);
                let e = &mut self.config[i];
                e.1 = newval;
                proof {
                    assert(cfg[iv].0 == key@);
                    lemma_config_model_update(
                        old(self).config@,
                        iv,
                        self.config@[iv],
                    );
                    assert(self.config@[iv].0@ == key@);
                    assert(self.config@[iv].1@ == value@);
                    assert(self@.config =~= cfg.update(iv, (key@, value@)));
                    assert(exists|j: int| 0 <= j < cfg.len() && (#[trigger] cfg[j]).0 == key@)
                        by {
                        assert(cfg[iv].0 == key@);
                    }
                    let w = choose|j: int| 0 <= j < cfg.len() && (#[trigger] cfg[j]).0 == key@;
                    assert(w == iv);
                    assert(self@ =~= WorkspaceModel {
                        config: config_with(old(self)@.config, key@, value@),
                        ..old(self)@
                    });
                }
                return Ok(());
            }
            i = i + 1;
        }
        let kv = (String::from_str(key), String::from_str(value));
        self.config.push(kv);
        proof {
            lemma_config_model_push(old(self).config@, self.config@.last());
            assert(self@.config =~= cfg.push((key@, value@)));
            assert(!(exists|j: int| 0 <= j < cfg.len() && (#[trigger] cfg[j]).0 == key@));
            assert(self@ =~= WorkspaceModel {
                config: config_with(old(self)@.config, key@, value@),
                ..old(self)@
            });
        }
        Ok(())
    }

    /// Read the value of configuration key `key`. An unset (but well
    /// formed) key is an operational failure, not an invalid one.
    pub fn config_get(&self, key: &str) -> (r: Result<String, ConfigError>)
        requires
            self@.wf(),
        ensures
            !self@.initialized ==> r == Err::<String, ConfigError>(
                ConfigError::TixError(TixError::NotARepository),
            ),
            self@.initialized && !is_config_key(key@) ==> r == Err::<String, ConfigError>(
                ConfigError::TixError(TixError::ConfigInvalidKey),
            ),
            self@.initialized && is_config_key(key@) ==> match config_lookup(self@.config, key@) {
                Some(v) => r is Ok && (r->Ok_0)@ == v,
                None => r == Err::<String, ConfigError>(
                    ConfigError::TixError(TixError::CommandFailed),
                ),
            },
    {
        if !self.initialized {
            return Err(ConfigError::TixError(TixError::NotARepository));
        }
        if !is_config_key_str(key) {
            return Err(ConfigError::TixError(TixError::ConfigInvalidKey));
        }
        let ghost cfg = self@.config;
        let mut i: usize = 0;
        while i < self.config.len()
            invariant
                self@.wf(),
                self@.initialized,
                is_config_key(key@),
                cfg == self@.config,
                self.config@.len() == cfg.len(),
                i <= cfg.len(),
                forall|j: int| 0 <= j < i ==> (#[trigger] cfg[j]).0 != key@,
            decreases cfg.len() - i,
        {
            if str_eq(self.config[i].0.as_str(), key) {
                proof {
                    lemma_config_lookup_found(cfg, key@, i as int);
                }
                return Ok(self.config[i].1.clone());
            }
            i = i + 1;
        }
        proof {
            lemma_config_lookup_absent(cfg, key@);
        }
        Err(ConfigError::TixError(TixError::CommandFailed))
    }
}

} // verus!
