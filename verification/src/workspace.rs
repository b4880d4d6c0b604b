//! Workspaces: named collections of folders scanned for projects, the
//! registry of known workspaces, and the fixed on-disk locations of their
//! configuration files. Reading and writing those files is the embedding
//! application's work.

use vstd::prelude::*;
use vstd::string::StringExecFns;
use crate::config::ConfigMap;
use crate::errors::LauncherError;
use crate::models::ProjectInfo;
use crate::shims;
use crate::text;

verus! {

/// How ports are assigned inside one workspace.
#[derive(Debug, Clone, Copy, PartialEq, Eq, Structural)]
pub enum PortStrategy {
    Sequential,
    Fixed,
}

/// Per-workspace policy.
#[derive(Debug, Clone, Copy, PartialEq, Eq, Structural)]
pub struct WorkspaceSettings {
    pub auto_start_all: bool,
    pub port_strategy: PortStrategy,
    pub port_range_start: u16,
    pub port_range_end: u16,
}

impl Default for WorkspaceSettings {
    /// The policy a fresh workspace starts with.
    fn default() -> (r: WorkspaceSettings)
        ensures
            !r.auto_start_all,
            r.port_strategy == PortStrategy::Sequential,
            r.port_range_start == 8000,
            r.port_range_end == 9000,
    {
        WorkspaceSettings {
            auto_start_all: false,
            port_strategy: PortStrategy::Sequential,
            port_range_start: 8000,
            port_range_end: 9000,
        }
    }
}

/// `s` holds a folder with these characters.
pub open spec fn has_folder(s: Seq<String>, folder: Seq<char>) -> bool {
    exists|i: int| 0 <= i < s.len() && (#[trigger] s[i])@ == folder
}

/// `s` with every folder of these characters removed, order kept.
pub open spec fn without_folder(s: Seq<String>, folder: Seq<char>) -> Seq<String>
    decreases s.len(),
{
    if s.len() == 0 {
        Seq::empty()
    } else {
        let rest = without_folder(s.drop_last(), folder);
        if s.last()@ == folder {
            rest
        } else {
            rest.push(s.last())
        }
    }
}

/// A project is launched by "start all" when it is valid and not
/// explicitly disabled.
pub open spec fn startable(p: ProjectInfo) -> bool {
    p.is_valid && p.enabled != Some(false)
}

/// The startable projects, in declaration order.
pub open spec fn startable_of(s: Seq<ProjectInfo>) -> Seq<ProjectInfo>
    decreases s.len(),
{
    if s.len() == 0 {
        Seq::empty()
    } else {
        let rest = startable_of(s.drop_last());
        if startable(s.last()) {
            rest.push(s.last())
        } else {
            rest
        }
    }
}

/// A named collection of folders and the projects discovered in them.
#[derive(Debug, Clone, PartialEq, Eq)]
pub struct Workspace {
    pub id: String,
    pub name: String,
    /// Where the workspace was created from; display only.
    pub root_path: String,
    pub folders: Vec<String>,
    /// Milliseconds since the Unix epoch.
    pub created_at: i64,
    /// Milliseconds since the Unix epoch.
    pub last_modified: i64,
    pub projects: Vec<ProjectInfo>,
    pub settings: WorkspaceSettings,
}

impl Workspace {
    /// A fresh workspace with no folders, no projects and the default
    /// settings, under a freshly generated id.
    pub fn new(name: String, root_path: String) -> (w: Workspace)
        ensures
            w.id@.len() == 36,
            w.name@ == name@,
            w.root_path@ == root_path@,
            w.folders@.len() == 0,
            w.projects@.len() == 0,
            w.created_at == w.last_modified,
            !w.settings.auto_start_all,
            w.settings.port_strategy == PortStrategy::Sequential,
            w.settings.port_range_start == 8000,
            w.settings.port_range_end == 9000,
    {
        let now = shims::now_millis();
        Workspace {
            id: shims::fresh_id(),
            name,
            root_path,
            folders: Vec::new(),
            created_at: now,
            last_modified: now,
            projects: Vec::new(),
            settings: Default::default(),
        }
    }

    /// Adds a folder unless it is already present; adding touches the
    /// modification time, a duplicate changes nothing at all.
    pub fn add_folder(&mut self, folder_path: String)
        ensures
            has_folder(old(self).folders@, folder_path@) ==> *final(self) == *old(self),
            !has_folder(old(self).folders@, folder_path@) ==> {
                &&& final(self).folders@ == old(self).folders@.push(folder_path)
                &&& final(self).id == old(self).id
                &&& final(self).name == old(self).name
                &&& final(self).root_path == old(self).root_path
                &&& final(self).created_at == old(self).created_at
                &&& final(self).projects == old(self).projects
                &&& final(self).settings == old(self).settings
            },
    {
        let n = self.folders.len();
        let mut i: usize = 0;
        while i < n
            invariant
                i <= n,
                n == self.folders@.len(),
                *self == *old(self),
                forall|j: int| 0 <= j < i ==> (#[trigger] self.folders@[j])@ != folder_path@,
            decreases n - i,
        {
            if text::str_eq(self.folders[i].as_str(), folder_path.as_str()) {
                return ;
            }
            i = i + 1;
        }
        self.folders.push(folder_path);
        self.last_modified = shims::now_millis();
    }

    /// Removes every occurrence of the folder and touches the
    /// modification time.
    pub fn remove_folder(&mut self, folder_path: &str)
        ensures
            final(self).folders@ == without_folder(old(self).folders@, folder_path@),
            !has_folder(final(self).folders@, folder_path@),
            final(self).id == old(self).id,
            final(self).name == old(self).name,
            final(self).root_path == old(self).root_path,
            final(self).created_at == old(self).created_at,
            final(self).projects == old(self).projects,
            final(self).settings == old(self).settings,
    {
        let n = self.folders.len();
        let mut kept: Vec<String> = Vec::new();
        let mut i: usize = 0;
        while i < n
            invariant
                i <= n,
                n == self.folders@.len(),
                *self == *old(self),
                kept@ == without_folder(self.folders@.subrange(0, i as int), folder_path@),
                forall|j: int| 0 <= j < kept@.len() ==> (#[trigger] kept@[j])@ != folder_path@,
            decreases n - i,
        {
            let ghost prefix = self.folders@.subrange(0, i as int);
            proof {
                let next = self.folders@.subrange(0, i + 1);
                assert(next.drop_last() =~= prefix);
                assert(next.last() == self.folders@[i as int]);
            }
            if !text::str_eq(self.folders[i].as_str(), folder_path) {
                kept.push(self.folders[i].clone());
            }
            i = i + 1;
        }
        proof {
            assert(self.folders@.subrange(0, n as int) =~= self.folders@);
        }
        self.folders = kept;
        self.last_modified = shims::now_millis();
    }

    /// Flags whether "start all" launches the named project; fails with
    /// `NotFound` when no project carries the id. The first project with
    /// the id is the one updated.
    pub fn set_project_enabled(&mut self, project_id: &str, enabled: bool) -> (r: Result<
        (),
        LauncherError,
    >)
        ensures
            (exists|i: int|
                0 <= i < old(self).projects@.len() && (#[trigger] old(self).projects@[i]).id@
                    == project_id@) <==> r is Ok,
            r matches Err(e) ==> e == LauncherError::NotFound && *final(self) == *old(self),
            r is Ok ==> exists|i: int|
                #![auto]
                {
                    &&& 0 <= i < old(self).projects@.len()
                    &&& old(self).projects@[i].id@ == project_id@
                    &&& forall|j: int|
                        0 <= j < i ==> (#[trigger] old(self).projects@[j]).id@ != project_id@
                    &&& final(self).projects@ == old(self).projects@.update(
                        i,
                        ProjectInfo { enabled: Some(enabled), ..old(self).projects@[i] },
                    )
                    &&& final(self).id == old(self).id
                    &&& final(self).name == old(self).name
                    &&& final(self).root_path == old(self).root_path
                    &&& final(self).folders == old(self).folders
                    &&& final(self).created_at == old(self).created_at
                    &&& final(self).last_modified == old(self).last_modified
                    &&& final(self).settings == old(self).settings
                },
    {
        let n = self.projects.len();
        let mut i: usize = 0;
        while i < n
            invariant
                i <= n,
                n == self.projects@.len(),
                *self == *old(self),
                forall|j: int| 0 <= j < i ==> (#[trigger] self.projects@[j]).id@ != project_id@,
            decreases n - i,
        {
            if text::str_eq(self.projects[i].id.as_str(), project_id) {
                let ghost before = self.projects@;
                let p = self.projects.remove(i);
                let updated = ProjectInfo { enabled: Some(enabled), ..p };
                self.projects.insert(i, updated);
                proof {
                    assert(self.projects@ =~= before.update(
                        i as int,
                        self.projects@[i as int],
                    ));
                }
                return Ok(());
            }
            i = i + 1;
        }
        Err(LauncherError::NotFound)
    }

    /// Copies of the projects that "start all" launches: the valid ones
    /// not explicitly disabled, in declaration order. A project that fails
    /// to start is skipped by the caller; it never blocks the others.
    pub fn projects_to_start(&self) -> (r: Vec<ProjectInfo>)
        ensures
            r@.len() == startable_of(self.projects@).len(),
            forall|k: int|
                0 <= k < r@.len() ==> crate::models::same_project(
                    #[trigger] r@[k],
                    startable_of(self.projects@)[k],
                ),
    {
        let n = self.projects.len();
        let mut out: Vec<ProjectInfo> = Vec::new();
        let mut i: usize = 0;
        while i < n
            invariant
                i <= n,
                n == self.projects@.len(),
                out@.len() == startable_of(self.projects@.subrange(0, i as int)).len(),
                forall|k: int|
                    0 <= k < out@.len() ==> crate::models::same_project(
                        #[trigger] out@[k],
                        startable_of(self.projects@.subrange(0, i as int))[k],
                    ),
            decreases n - i,
        {
            let ghost prefix = self.projects@.subrange(0, i as int);
            proof {
                let next = self.projects@.subrange(0, i + 1);
                assert(next.drop_last() =~= prefix);
                assert(next.last() == self.projects@[i as int]);
            }
            let p = &self.projects[i];
            let enabled_off = match p.enabled {
                Some(false) => true,
                _ => false,
            };
            if p.is_valid && !enabled_off {
                out.push(crate::models::duplicate_project(p));
            }
            i = i + 1;
        }
        proof {
            assert(self.projects@.subrange(0, n as int) =~= self.projects@);
        }
        out
    }
}

/// One entry of the workspace registry.
#[derive(Debug, Clone, PartialEq, Eq)]
pub struct WorkspaceRef {
    pub id: String,
    pub name: String,
    pub config_path: String,
    /// An RFC 3339 timestamp.
    pub last_opened: Option<String>,
}

/// `s` holds a registry entry with this id.
pub open spec fn has_ref(s: Seq<WorkspaceRef>, id: Seq<char>) -> bool {
    exists|i: int| 0 <= i < s.len() && (#[trigger] s[i]).id@ == id
}

/// `s` with every entry of this id removed, order kept.
pub open spec fn without_ref(s: Seq<WorkspaceRef>, id: Seq<char>) -> Seq<WorkspaceRef>
    decreases s.len(),
{
    if s.len() == 0 {
        Seq::empty()
    } else {
        let rest = without_ref(s.drop_last(), id);
        if s.last().id@ == id {
            rest
        } else {
            rest.push(s.last())
        }
    }
}

/// The registry of known workspaces; persisting it is the embedding
/// application's work.
#[derive(Debug, Clone, PartialEq, Eq)]
pub struct WorkspaceList {
    pub workspaces: Vec<WorkspaceRef>,
}

impl WorkspaceList {
    /// An empty registry.
    pub fn new() -> (r: WorkspaceList)
        ensures
            r.workspaces@.len() == 0,
    {
        WorkspaceList { workspaces: Vec::new() }
    }

    /// Registers a workspace under the given configuration path, stamped
    /// as opened now; a workspace already present is not added twice.
    pub fn add_workspace(&mut self, workspace: &Workspace, config_path: String)
        ensures
            has_ref(old(self).workspaces@, workspace.id@) ==> *final(self) == *old(self),
            !has_ref(old(self).workspaces@, workspace.id@) ==> {
                &&& final(self).workspaces@.len() == old(self).workspaces@.len() + 1
                &&& forall|j: int|
                    0 <= j < old(self).workspaces@.len() ==> final(self).workspaces@[j] == old(
                        self,
                    ).workspaces@[j]
                &&& final(self).workspaces@.last().id@ == workspace.id@
                &&& final(self).workspaces@.last().name@ == workspace.name@
                &&& final(self).workspaces@.last().config_path@ == config_path@
                &&& final(self).workspaces@.last().last_opened is Some
            },
    {
        let n = self.workspaces.len();
        let mut i: usize = 0;
        while i < n
            invariant
                i <= n,
                n == self.workspaces@.len(),
                *self == *old(self),
                forall|j: int| 0 <= j < i ==> (#[trigger] self.workspaces@[j]).id@ != workspace.id@,
            decreases n - i,
        {
            if text::str_eq(self.workspaces[i].id.as_str(), workspace.id.as_str()) {
                return ;
            }
            i = i + 1;
        }
        self.workspaces.push(
            WorkspaceRef {
                id: workspace.id.clone(),
                name: workspace.name.clone(),
                config_path,
                last_opened: Some(shims::now_rfc3339()),
            },
        );
    }

    /// Unregisters every entry of this workspace id, order kept.
    pub fn remove_workspace(&mut self, workspace_id: &str)
        ensures
            final(self).workspaces@ == without_ref(old(self).workspaces@, workspace_id@),
            !has_ref(final(self).workspaces@, workspace_id@),
    {
        let n = self.workspaces.len();
        let mut kept: Vec<WorkspaceRef> = Vec::new();
        let mut i: usize = 0;
        while i < n
            invariant
                i <= n,
                n == self.workspaces@.len(),
                *self == *old(self),
                kept@ == without_ref(self.workspaces@.subrange(0, i as int), workspace_id@),
                forall|j: int| 0 <= j < kept@.len() ==> (#[trigger] kept@[j]).id@ != workspace_id@,
            decreases n - i,
        {
            let ghost prefix = self.workspaces@.subrange(0, i as int);
            proof {
                let next = self.workspaces@.subrange(0, i + 1);
                assert(next.drop_last() =~= prefix);
                assert(next.last() == self.workspaces@[i as int]);
            }
            if !text::str_eq(self.workspaces[i].id.as_str(), workspace_id) {
                kept.push(duplicate_ref(&self.workspaces[i]));
            }
            i = i + 1;
        }
        proof {
            assert(self.workspaces@.subrange(0, n as int) =~= self.workspaces@);
        }
        self.workspaces = kept;
    }

    /// Stamps the first entry of this id as opened now; an unknown id
    /// changes nothing.
    pub fn update_last_opened(&mut self, workspace_id: &str)
        ensures
            !has_ref(old(self).workspaces@, workspace_id@) ==> *final(self) == *old(self),
            has_ref(old(self).workspaces@, workspace_id@) ==> exists|i: int|
                #![auto]
                {
                    &&& 0 <= i < old(self).workspaces@.len()
                    &&& old(self).workspaces@[i].id@ == workspace_id@
                    &&& forall|j: int|
                        0 <= j < i ==> (#[trigger] old(self).workspaces@[j]).id@ != workspace_id@
                    &&& final(self).workspaces@.len() == old(self).workspaces@.len()
                    &&& forall|j: int|
                        0 <= j < old(self).workspaces@.len() && j != i ==> final(self).workspaces@[j]
                            == old(self).workspaces@[j]
                    &&& final(self).workspaces@[i].id == old(self).workspaces@[i].id
                    &&& final(self).workspaces@[i].name == old(self).workspaces@[i].name
                    &&& final(self).workspaces@[i].config_path == old(
                        self,
                    ).workspaces@[i].config_path
                    &&& final(self).workspaces@[i].last_opened is Some
                },
    {
        let n = self.workspaces.len();
        let mut i: usize = 0;
        while i < n
            invariant
                i <= n,
                n == self.workspaces@.len(),
                *self == *old(self),
                forall|j: int| 0 <= j < i ==> (#[trigger] self.workspaces@[j]).id@ != workspace_id@,
            decreases n - i,
        {
            if text::str_eq(self.workspaces[i].id.as_str(), workspace_id) {
                let ghost before = self.workspaces@;
                let w = self.workspaces.remove(i);
                let updated = WorkspaceRef { last_opened: Some(shims::now_rfc3339()), ..w };
                self.workspaces.insert(i, updated);
                proof {
                    assert(self.workspaces@ =~= before.update(
                        i as int,
                        self.workspaces@[i as int],
                    ));
                }
                return ;
            }
            i = i + 1;
        }
    }

    /// The id registered under this configuration path, if any; the first
    /// match wins.
    pub fn id_for_config_path(&self, config_path: &str) -> (r: Option<String>)
        ensures
            match r {
                Some(id) => exists|i: int|
                    #![auto]
                    0 <= i < self.workspaces@.len() && self.workspaces@[i].config_path@
                        == config_path@ && id@ == self.workspaces@[i].id@,
                None => forall|i: int|
                    0 <= i < self.workspaces@.len() ==> (#[trigger] self.workspaces@[i])
                        .config_path@ != config_path@,
            },
    {
        let n = self.workspaces.len();
        let mut i: usize = 0;
        while i < n
            invariant
                i <= n,
                n == self.workspaces@.len(),
                forall|j: int|
                    0 <= j < i ==> (#[trigger] self.workspaces@[j]).config_path@ != config_path@,
            decreases n - i,
        {
            if text::str_eq(self.workspaces[i].config_path.as_str(), config_path) {
                return Some(self.workspaces[i].id.clone());
            }
            i = i + 1;
        }
        None
    }
}

/// A field-for-field copy whose equality Verus can see.
pub fn duplicate_ref(w: &WorkspaceRef) -> (r: WorkspaceRef)
    ensures
        r == *w,
{
    let last_opened: Option<String> = match &w.last_opened {
        Some(t) => Some(t.clone()),
        None => None,
    };
    WorkspaceRef {
        id: w.id.clone(),
        name: w.name.clone(),
        config_path: w.config_path.clone(),
        last_opened,
    }
}

/// The fixed locations of workspace configuration under a home directory.
pub struct WorkspaceService;

impl WorkspaceService {
    /// The directory holding all workspace configuration files.
    pub fn workspaces_dir(home: &str) -> (r: String)
        ensures
            r@ == home@ + "/.zebras-launcher/workspaces"@,
    {
        let mut p = String::from_str(home);
        p.append("/.zebras-launcher/workspaces");
        p
    }

    /// The configuration file of one workspace.
    pub fn get_config_path(home: &str, workspace_id: &str) -> (r: String)
        ensures
            r@ == home@ + "/.zebras-launcher/workspaces/"@ + workspace_id@ + ".json"@,
    {
        let mut p = String::from_str(home);
        p.append("/.zebras-launcher/workspaces/");
        p.append(workspace_id);
        p.append(".json");
        p
    }

    /// The registry file listing all known workspaces.
    pub fn list_path(home: &str) -> (r: String)
        ensures
            r@ == home@ + "/.zebras-launcher/workspaces.json"@,
    {
        let mut p = String::from_str(home);
        p.append("/.zebras-launcher/workspaces.json");
        p
    }
}

} // verus!
