//! Workspace and project model.
//!
//! A workspace is a directory containing `rigg.yaml` (environments, each with
//! a single search/foundry target, tenant/subscription, policy and
//! dependency bindings), a `projects/` directory where each subdirectory
//! with a `project.yaml` is a project, and an `apis/` directory for shared
//! OpenAPI specifications. A resource belongs to exactly one project.
use vstd::prelude::*;

use crate::binding::{valid_binding_name_spec, validate_binding_name, NamedBinding};
use crate::text::{
    chars_of, copy_str, has_prefix, join, join_strings, push_str, str_eq, string_of,
    trim_end_char, trim_end_char_vec, views,
};

verus! {

/// The workspace configuration file.
pub open spec fn workspace_file() -> Seq<char> {
    "rigg.yaml"@
}

/// `b` joined onto `a` the way `Path::join` does it on Unix: an absolute
/// `b` replaces `a`; otherwise a separator is added when `a` lacks one.
pub open spec fn path_join(a: Seq<char>, b: Seq<char>) -> Seq<char> {
    if has_prefix(b, "/"@) || a.len() == 0 {
        b
    } else if a.last() == '/' {
        a + b
    } else {
        a + "/"@ + b
    }
}

/// Join `b` onto `a` as `Path::join` does.
pub fn join_path(a: &str, b: &str) -> (r: String)
    ensures
        r@ == path_join(a@, b@),
{
    let bv = chars_of(b);
    let av = chars_of(a);
    let slash = chars_of("/");
    if crate::text::starts_with(&bv, &slash) || av.len() == 0 {
        return copy_str(b);
    }
    let mut r = copy_str(a);
    if av[av.len() - 1] != '/' {
        push_str(&mut r, "/");
    }
    push_str(&mut r, b);
    r
}

/// Why a workspace could not be used.
#[derive(Debug)]
pub enum WorkspaceError {
    /// No `rigg.yaml` in the start directory or any parent.
    NotFound(String),
    /// A file could not be read.
    Io { path: String, message: String },
    /// A file is not valid YAML of the expected shape.
    Parse { path: String, message: String },
    /// A project name the workspace does not have (and the ones it has).
    UnknownProject(String, String),
    /// An environment name the workspace does not have (and the ones it has).
    UnknownEnvironment(String, String),
    /// Nothing selected and no environment is the default.
    NoDefaultEnvironment,
    /// An environment binds a dependency under an invalid name.
    InvalidBindingName { path: String, env: String, name: String, reason: String },
}

/// Per-environment policy gates.
#[derive(Clone, Copy, Debug, PartialEq, Eq, Structural)]
pub struct Policy {
    /// Every cloud-mutating operation needs a typed confirmation.
    pub protected: bool,
    /// Require every binding to resolve before push; defaults to `protected`.
    pub strict_bindings: Option<bool>,
}

impl Policy {
    /// The policy an environment gets when `rigg.yaml` says nothing.
    pub fn is_default(&self) -> (b: bool)
        ensures
            b == (!self.protected && self.strict_bindings is None),
    {
        !self.protected && self.strict_bindings.is_none()
    }

    /// Whether every binding must resolve before push.
    pub fn strict_bindings(&self) -> (b: bool)
        ensures
            b == match self.strict_bindings {
                Some(s) => s,
                None => self.protected,
            },
    {
        match self.strict_bindings {
            Some(s) => s,
            None => self.protected,
        }
    }
}

/// An endpoint override without its trailing slashes.
pub open spec fn endpoint_url(e: Seq<char>) -> Seq<char> {
    trim_end_char(e, '/')
}

/// A Search service target.
#[derive(Debug)]
pub struct SearchConnection {
    pub name: Option<String>,
    /// Azure AI Search service name.
    pub service: String,
    /// Full endpoint override (sovereign clouds, testing).
    pub endpoint: Option<String>,
    pub api_version: Option<String>,
    pub preview_api_version: Option<String>,
}

impl SearchConnection {
    /// The base URL requests go to.
    pub open spec fn url_spec(&self) -> Seq<char> {
        match self.endpoint {
            Some(e) => endpoint_url(e@),
            None => "https://"@ + self.service@ + ".search.windows.net"@,
        }
    }

    /// Base URL requests go to: the `endpoint` override, or the public-cloud
    /// default derived from the service name.
    pub fn url(&self) -> (u: String)
        ensures
            u@ == self.url_spec(),
    {
        match &self.endpoint {
            Some(e) => string_of(&trim_end_char_vec(&chars_of(e.as_str()), '/')),
            None => {
                let mut u = copy_str("https://");
                push_str(&mut u, self.service.as_str());
                push_str(&mut u, ".search.windows.net");
                u
            },
        }
    }

    /// A copy of this connection.
    pub fn copy(&self) -> (r: SearchConnection)
        ensures
            r == *self,
    {
        SearchConnection {
            name: self.name.clone(),
            service: self.service.clone(),
            endpoint: self.endpoint.clone(),
            api_version: self.api_version.clone(),
            preview_api_version: self.preview_api_version.clone(),
        }
    }
}

/// A Foundry project target.
#[derive(Debug)]
pub struct FoundryConnection {
    pub name: Option<String>,
    /// Foundry account name.
    pub account: String,
    /// Full endpoint override (sovereign clouds, testing).
    pub endpoint: Option<String>,
    /// Foundry project name.
    pub project: String,
    pub api_version: Option<String>,
}

impl FoundryConnection {
    /// The base URL requests go to.
    pub open spec fn url_spec(&self) -> Seq<char> {
        match self.endpoint {
            Some(e) => endpoint_url(e@),
            None => "https://"@ + self.account@ + ".services.ai.azure.com"@,
        }
    }

    /// Base URL requests go to: the `endpoint` override, or the public-cloud
    /// default derived from the account name.
    pub fn url(&self) -> (u: String)
        ensures
            u@ == self.url_spec(),
    {
        match &self.endpoint {
            Some(e) => string_of(&trim_end_char_vec(&chars_of(e.as_str()), '/')),
            None => {
                let mut u = copy_str("https://");
                push_str(&mut u, self.account.as_str());
                push_str(&mut u, ".services.ai.azure.com");
                u
            },
        }
    }

    /// A copy of this connection.
    pub fn copy(&self) -> (r: FoundryConnection)
        ensures
            r == *self,
    {
        FoundryConnection {
            name: self.name.clone(),
            account: self.account.clone(),
            endpoint: self.endpoint.clone(),
            project: self.project.clone(),
            api_version: self.api_version.clone(),
        }
    }
}

/// One environment of `rigg.yaml`.
#[derive(Debug)]
pub struct Environment {
    pub default: bool,
    /// Azure AD tenant this environment's resources live in.
    pub tenant: Option<String>,
    /// Azure subscription this environment's resources live in.
    pub subscription: Option<String>,
    pub search: Option<SearchConnection>,
    pub foundry: Option<FoundryConnection>,
    pub policy: Policy,
    /// Named references to supporting resources, in name order.
    pub dependencies: Vec<NamedBinding>,
}

/// `a` and `b` describe the same environment.
pub open spec fn same_env(a: Environment, b: Environment) -> bool {
    &&& a.default == b.default
    &&& a.tenant == b.tenant
    &&& a.subscription == b.subscription
    &&& a.search == b.search
    &&& a.foundry == b.foundry
    &&& a.policy == b.policy
    &&& a.dependencies@ == b.dependencies@
}

fn copy_opt_search(o: &Option<SearchConnection>) -> (r: Option<SearchConnection>)
    ensures
        r == *o,
{
    match o {
        Some(c) => Some(c.copy()),
        None => None,
    }
}

fn copy_opt_foundry(o: &Option<FoundryConnection>) -> (r: Option<FoundryConnection>)
    ensures
        r == *o,
{
    match o {
        Some(c) => Some(c.copy()),
        None => None,
    }
}

impl Environment {
    /// A copy of this environment.
    pub fn copy(&self) -> (r: Environment)
        ensures
            same_env(r, *self),
    {
        let mut deps: Vec<NamedBinding> = Vec::new();
        let mut i: usize = 0;
        while i < self.dependencies.len()
            invariant
                0 <= i <= self.dependencies@.len(),
                deps@ == self.dependencies@.subrange(0, i as int),
            decreases self.dependencies@.len() - i,
        {
            deps.push(self.dependencies[i].copy());
            assert(deps@ =~= self.dependencies@.subrange(0, i + 1));
            i += 1;
        }
        assert(deps@ =~= self.dependencies@);
        Environment {
            default: self.default,
            tenant: self.tenant.clone(),
            subscription: self.subscription.clone(),
            search: copy_opt_search(&self.search),
            foundry: copy_opt_foundry(&self.foundry),
            policy: self.policy,
            dependencies: deps,
        }
    }
}

/// An environment with its name.
#[derive(Debug)]
pub struct NamedEnvironment {
    pub name: String,
    pub env: Environment,
}

/// Top-level `rigg.yaml`.
#[derive(Debug)]
pub struct WorkspaceConfig {
    pub name: Option<String>,
    /// Directory (relative to rigg.yaml) holding rigg's file trees.
    pub root: Option<String>,
    /// The environments, in name order; a name appears at most once.
    pub environments: Vec<NamedEnvironment>,
}

/// The names of a sequence of environments.
pub open spec fn env_names(es: Seq<NamedEnvironment>) -> Seq<Seq<char>> {
    es.map_values(|e: NamedEnvironment| e.name@)
}

/// The first index of an environment named `n`.
pub open spec fn env_index(es: Seq<NamedEnvironment>, n: Seq<char>) -> Option<int> {
    if exists|i: int| 0 <= i < es.len() && es[i].name@ == n {
        Some(choose|i: int| 0 <= i < es.len() && es[i].name@ == n && forall|k: int| 0 <= k < i ==> es[k].name@ != n)
    } else {
        None
    }
}

/// The first index of a default environment.
pub open spec fn default_index(es: Seq<NamedEnvironment>) -> Option<int> {
    if exists|i: int| 0 <= i < es.len() && es[i].env.default {
        Some(choose|i: int| 0 <= i < es.len() && es[i].env.default && forall|k: int| 0 <= k < i ==> !es[k].env.default)
    } else {
        None
    }
}

/// `project.yaml`: metadata only; the directory contents are the membership.
#[derive(Clone, Debug)]
pub struct ProjectManifest {
    pub description: Option<String>,
}

/// A project: a named directory of resource files.
#[derive(Clone, Debug)]
pub struct Project {
    pub name: String,
    pub dir: String,
    pub manifest: ProjectManifest,
}

/// The names of a sequence of projects.
pub open spec fn project_names(ps: Seq<Project>) -> Seq<Seq<char>> {
    ps.map_values(|p: Project| p.name@)
}

/// The names of the projects, in order.
fn names_of_projects(ps: &Vec<Project>) -> (r: Vec<String>)
    ensures
        views(r@) == project_names(ps@),
{
    let mut names: Vec<String> = Vec::new();
    let mut j: usize = 0;
    while j < ps.len()
        invariant
            0 <= j <= ps@.len(),
            names@.len() == j,
            forall|k: int| 0 <= k < j ==> #[trigger] names@[k]@ == ps@[k].name@,
        decreases ps@.len() - j,
    {
        names.push(ps[j].name.clone());
        j += 1;
    }
    assert(views(names@) =~= project_names(ps@));
    names
}

/// The names of the environments, in order.
fn names_of_envs(es: &Vec<NamedEnvironment>) -> (r: Vec<String>)
    ensures
        views(r@) == env_names(es@),
{
    let mut names: Vec<String> = Vec::new();
    let mut j: usize = 0;
    while j < es.len()
        invariant
            0 <= j <= es@.len(),
            names@.len() == j,
            forall|k: int| 0 <= k < j ==> #[trigger] names@[k]@ == es@[k].name@,
        decreases es@.len() - j,
    {
        names.push(es[j].name.clone());
        j += 1;
    }
    assert(views(names@) =~= env_names(es@));
    names
}

/// Where the first environment named `n` stands.
pub proof fn lemma_env_index(es: Seq<NamedEnvironment>, n: Seq<char>, i: int)
    requires
        0 <= i < es.len(),
        es[i].name@ == n,
        forall|k: int| 0 <= k < i ==> es[k].name@ != n,
    ensures
        env_index(es, n) == Some(i),
{
    let c = choose|c: int| 0 <= c < es.len() && es[c].name@ == n && forall|k: int| 0 <= k < c ==> es[k].name@ != n;
    if c < i {
        assert(es[c].name@ != n);
    } else if c > i {
        assert(es[i].name@ != n);
    }
}

/// Where the first default environment stands.
pub proof fn lemma_default_index(es: Seq<NamedEnvironment>, i: int)
    requires
        0 <= i < es.len(),
        es[i].env.default,
        forall|k: int| 0 <= k < i ==> !es[k].env.default,
    ensures
        default_index(es) == Some(i),
{
    let c = choose|c: int| 0 <= c < es.len() && es[c].env.default && forall|k: int| 0 <= k < c ==> !es[k].env.default;
    if c < i {
        assert(!es[c].env.default);
    } else if c > i {
        assert(!es[i].env.default);
    }
}

/// A loaded workspace.
#[derive(Debug)]
pub struct Workspace {
    pub root: String,
    pub config: WorkspaceConfig,
    /// The projects, in directory order.
    pub projects: Vec<Project>,
}

/// An environment chosen for a command.
#[derive(Debug)]
pub struct ResolvedEnv {
    pub name: String,
    pub env: Environment,
}

/// The environment name a command runs against: the explicit selection,
/// else `RIGG_ENV`, else the default environment.
pub open spec fn selected_env_name(
    es: Seq<NamedEnvironment>,
    selected: Option<Seq<char>>,
    from_env: Option<Seq<char>>,
) -> Option<Seq<char>> {
    match selected {
        Some(s) => Some(s),
        None => match from_env {
            Some(e) => Some(e),
            None => match default_index(es) {
                Some(i) => Some(es[i].name@),
                None => None,
            },
        },
    }
}

/// The view of an optional string slice.
pub open spec fn opt_str(o: Option<&str>) -> Option<Seq<char>> {
    match o {
        Some(s) => Some(s@),
        None => None,
    }
}

/// Find the first environment named `name`.
pub fn find_env(es: &Vec<NamedEnvironment>, name: &str) -> (r: Option<usize>)
    ensures
        match r {
            Some(i) => i < es@.len() && env_index(es@, name@) == Some(i as int),
            None => env_index(es@, name@) is None,
        },
{
    let mut i: usize = 0;
    while i < es.len()
        invariant
            0 <= i <= es@.len(),
            forall|k: int| 0 <= k < i ==> es@[k].name@ != name@,
        decreases es@.len() - i,
    {
        if str_eq(es[i].name.as_str(), name) {
            proof {
                lemma_env_index(es@, name@, i as int);
            }
            return Some(i);
        }
        i += 1;
    }
    None
}

impl Workspace {
    /// The first project named `name`, or `UnknownProject` listing them all.
    pub fn project(&self, name: &str) -> (r: Result<&Project, WorkspaceError>)
        ensures
            match r {
                Ok(p) => exists|i: int| 0 <= i < self.projects@.len() && self.projects@[i] == *p && p.name@ == name@ && forall|k: int| 0 <= k < i ==> self.projects@[k].name@ != name@,
                Err(e) => {
                    &&& forall|i: int| 0 <= i < self.projects@.len() ==> self.projects@[i].name@ != name@
                    &&& e matches WorkspaceError::UnknownProject(n, avail)
                    &&& n@ == name@
                    &&& avail@ == join(project_names(self.projects@), ", "@)
                },
            },
    {
        let mut i: usize = 0;
        while i < self.projects.len()
            invariant
                0 <= i <= self.projects@.len(),
                forall|k: int| 0 <= k < i ==> self.projects@[k].name@ != name@,
            decreases self.projects@.len() - i,
        {
            if str_eq(self.projects[i].name.as_str(), name) {
                return Ok(&self.projects[i]);
            }
            i += 1;
        }
        let names = names_of_projects(&self.projects);
        let avail = join_strings(&names, ", ");
        Err(WorkspaceError::UnknownProject(copy_str(name), avail))
    }

    /// The name of the first environment marked `default: true`.
    pub fn default_env_name(&self) -> (r: Option<&str>)
        ensures
            r is Some <==> default_index(self.config.environments@) is Some,
            r is Some ==> r.unwrap()@ == self.config.environments@[default_index(self.config.environments@).unwrap()].name@,
    {
        let es = &self.config.environments;
        let mut i: usize = 0;
        while i < es.len()
            invariant
                0 <= i <= es@.len(),
                es@ == self.config.environments@,
                forall|k: int| 0 <= k < i ==> !es@[k].env.default,
            decreases es@.len() - i,
        {
            if es[i].env.default {
                proof {
                    lemma_default_index(es@, i as int);
                }
                return Some(es[i].name.as_str());
            }
            i += 1;
        }
        None
    }

    /// Resolve an environment: explicit selection > `RIGG_ENV` (passed in
    /// as `from_env`) > `default: true`.
    pub fn resolve_env(&self, selected: Option<&str>, from_env: Option<&str>) -> (r: Result<ResolvedEnv, WorkspaceError>)
        ensures
            ({
                let es = self.config.environments@;
                match selected_env_name(es, opt_str(selected), opt_str(from_env)) {
                    None => r matches Err(WorkspaceError::NoDefaultEnvironment),
                    Some(n) => match env_index(es, n) {
                        Some(i) => r matches Ok(re) && re.name@ == n && same_env(re.env, es[i].env),
                        None => r matches Err(WorkspaceError::UnknownEnvironment(m, avail)) && m@ == n
                            && avail@ == join(env_names(es), ", "@),
                    },
                }
            }),
    {
        let name: String = match selected {
            Some(s) => copy_str(s),
            None => match from_env {
                Some(e) => copy_str(e),
                None => match self.default_env_name() {
                    Some(d) => copy_str(d),
                    None => return Err(WorkspaceError::NoDefaultEnvironment),
                },
            },
        };
        let es = &self.config.environments;
        match find_env(es, name.as_str()) {
            Some(i) => Ok(ResolvedEnv { name, env: es[i].env.copy() }),
            None => {
                let names = names_of_envs(es);
                let avail = join_strings(&names, ", ");
                Err(WorkspaceError::UnknownEnvironment(name, avail))
            },
        }
    }

    /// Directory holding rigg's file trees: the workspace root unless
    /// `root:` in rigg.yaml relocates them.
    pub open spec fn files_root_spec(&self) -> Seq<char> {
        match self.config.root {
            Some(sub) => path_join(self.root@, sub@),
            None => self.root@,
        }
    }

    /// The directory holding `projects/`, `apis/` and `.rigg/`.
    pub fn files_root(&self) -> (p: String)
        ensures
            p@ == self.files_root_spec(),
    {
        match &self.config.root {
            Some(sub) => join_path(self.root.as_str(), sub.as_str()),
            None => self.root.clone(),
        }
    }

    /// The shared OpenAPI specifications directory.
    pub fn apis_dir(&self) -> (p: String)
        ensures
            p@ == path_join(self.files_root_spec(), "apis"@),
    {
        let root = self.files_root();
        join_path(root.as_str(), "apis")
    }

    /// The sync-state directory of one project in one environment.
    pub fn state_dir(&self, env: &str, project: &str) -> (p: String)
        ensures
            p@ == path_join(path_join(path_join(self.files_root_spec(), ".rigg"@), env@), project@),
    {
        let root = self.files_root();
        let s = join_path(root.as_str(), ".rigg");
        let e = join_path(s.as_str(), env);
        join_path(e.as_str(), project)
    }
}

impl ResolvedEnv {
    pub fn search(&self) -> (r: Option<&SearchConnection>)
        ensures
            match (r, self.env.search) {
                (Some(a), Some(b)) => *a == b,
                (None, None) => true,
                _ => false,
            },
    {
        self.env.search.as_ref()
    }

    pub fn foundry(&self) -> (r: Option<&FoundryConnection>)
        ensures
            match (r, self.env.foundry) {
                (Some(a), Some(b)) => *a == b,
                (None, None) => true,
                _ => false,
            },
    {
        self.env.foundry.as_ref()
    }

    /// Whether this environment's policy gates cloud-mutating operations.
    pub fn protected(&self) -> (b: bool)
        ensures
            b == self.env.policy.protected,
    {
        self.env.policy.protected
    }

    /// Whether every binding must resolve before push.
    pub fn strict_bindings(&self) -> (b: bool)
        ensures
            b == match self.env.policy.strict_bindings {
                Some(s) => s,
                None => self.env.policy.protected,
            },
    {
        self.env.policy.strict_bindings()
    }
}

/// Law: unless set explicitly, `strict-bindings` follows `protected`.
pub proof fn law_strict_bindings_default(p: Policy)
    requires
        p.strict_bindings is None,
    ensures
        (match p.strict_bindings {
            Some(s) => s,
            None => p.protected,
        }) == p.protected,
{
}

/// Every binding name of every environment is valid, or the first invalid
/// one is reported (environments in order, names in order).
pub fn check_binding_names(path: &str, config: &WorkspaceConfig) -> (r: Result<(), WorkspaceError>)
    ensures
        r is Ok <==> forall|i: int, j: int|
            0 <= i < config.environments@.len() && 0 <= j < config.environments@[i].env.dependencies@.len()
                ==> valid_binding_name_spec(#[trigger] config.environments@[i].env.dependencies@[j].name@),
        r matches Err(e) ==> {
            &&& e matches WorkspaceError::InvalidBindingName { path: p, env, name, reason }
            &&& p@ == path@
            &&& exists|i: int, j: int|
                0 <= i < config.environments@.len() && 0 <= j < config.environments@[i].env.dependencies@.len()
                    && env@ == config.environments@[i].name@
                    && name@ == #[trigger] config.environments@[i].env.dependencies@[j].name@
                    && !valid_binding_name_spec(name@)
        },
{
    let es = &config.environments;
    let mut i: usize = 0;
    while i < es.len()
        invariant
            0 <= i <= es@.len(),
            es@ == config.environments@,
            forall|a: int, b: int|
                0 <= a < i && 0 <= b < es@[a].env.dependencies@.len() ==> valid_binding_name_spec(
                    #[trigger] es@[a].env.dependencies@[b].name@,
                ),
        decreases es@.len() - i,
    {
        let deps = &es[i].env.dependencies;
        let mut j: usize = 0;
        while j < deps.len()
            invariant
                0 <= j <= deps@.len(),
                i < es@.len(),
                es@ == config.environments@,
                deps@ == es@[i as int].env.dependencies@,
                forall|b: int| 0 <= b < j ==> valid_binding_name_spec(#[trigger] deps@[b].name@),
            decreases deps@.len() - j,
        {
            match validate_binding_name(deps[j].name.as_str()) {
                Err(reason) => {
                    let r = Err(WorkspaceError::InvalidBindingName {
                        path: copy_str(path),
                        env: es[i].name.clone(),
                        name: deps[j].name.clone(),
                        reason,
                    });
                    assert(!valid_binding_name_spec(es@[i as int].env.dependencies@[j as int].name@));
                    return r;
                },
                Ok(()) => {},
            }
            j += 1;
        }
        assert forall|a: int, b: int|
            0 <= a < i + 1 && 0 <= b < es@[a].env.dependencies@.len() implies valid_binding_name_spec(
                #[trigger] es@[a].env.dependencies@[b].name@,
            ) by {
            if a == i {
                assert(valid_binding_name_spec(deps@[b].name@));
            }
        }
        i += 1;
    }
    Ok(())
}

/// The directory above a canonical absolute path (`PathBuf::pop`): `None`
/// at the root or for a path without `/`.
pub open spec fn parent_dir(p: Seq<char>) -> Option<Seq<char>> {
    let k = p.len() - crate::text::last_segment(p).len() - 1;
    if p == "/"@ || k < 0 {
        None
    } else if k == 0 {
        Some("/"@)
    } else {
        Some(p.subrange(0, k))
    }
}

proof fn lemma_last_segment_len(s: Seq<char>)
    ensures
        crate::text::last_segment(s).len() <= s.len(),
        crate::text::last_segment(s) == s.subrange(s.len() - crate::text::last_segment(s).len(), s.len() as int),
        crate::text::last_segment(s).len() < s.len() ==> s[s.len() - crate::text::last_segment(s).len() - 1] == '/',
    decreases s.len(),
{
    if s.len() > 0 && s.last() != '/' {
        lemma_last_segment_len(s.drop_last());
        assert(crate::text::last_segment(s) =~= s.subrange(s.len() - crate::text::last_segment(s).len(), s.len() as int));
    } else if s.len() > 0 {
        assert(s.subrange(s.len() as int, s.len() as int) =~= Seq::<char>::empty());
    } else {
        assert(s.subrange(0, 0) =~= s);
    }
}

/// The directories workspace discovery looks in for `rigg.yaml`: the start
/// directory, then each parent up to the root.
pub open spec fn search_dirs_spec(p: Seq<char>) -> Seq<Seq<char>>
    decreases p.len(),
{
    match parent_dir(p) {
        Some(q) => if q.len() < p.len() {
            seq![p] + search_dirs_spec(q)
        } else {
            seq![p]
        },
        None => seq![p],
    }
}

/// Where `Workspace::discover` looks for `rigg.yaml`, nearest first, given
/// the canonical start directory.
pub fn search_dirs(start: &str) -> (dirs: Vec<String>)
    ensures
        views(dirs@) == search_dirs_spec(start@),
{
    let mut dirs: Vec<String> = Vec::new();
    let mut cur = chars_of(start);
    let root = chars_of("/");
    proof {
        reveal_strlit("/");
    }
    loop
        invariant_except_break
            root@ == "/"@,
            views(dirs@) + search_dirs_spec(cur@) == search_dirs_spec(start@),
        ensures
            views(dirs@) == search_dirs_spec(start@),
        decreases cur@.len(),
    {
        let ghost before = views(dirs@);
        dirs.push(string_of(&cur));
        assert(views(dirs@) =~= before.push(cur@));
        let a = crate::text::last_segment_start(&cur, cur.len());
        proof {
            assert(cur@.subrange(0, cur@.len() as int) =~= cur@);
            lemma_last_segment_len(cur@);
        }
        if crate::text::seq_eq(&cur, &root) || a == 0 {
            proof {
                assert(search_dirs_spec(cur@) =~= seq![cur@]);
                assert(views(dirs@) =~= before + search_dirs_spec(cur@));
            }
            break;
        }
        let next = if a == 1 {
            root.clone()
        } else {
            crate::text::slice_of(&cur, 0, a - 1)
        };
        proof {
            assert(parent_dir(cur@) == Some(next@));
            if next@.len() >= cur@.len() {
                assert(search_dirs_spec(cur@) =~= seq![cur@]);
            }
        }
        if next.len() >= cur.len() {
            proof {
                assert(views(dirs@) =~= before + search_dirs_spec(cur@));
            }
            break;
        }
        assert(search_dirs_spec(cur@) == seq![cur@] + search_dirs_spec(next@));
        assert(views(dirs@) + search_dirs_spec(next@) =~= before + search_dirs_spec(cur@));
        cur = next;
    }
    dirs
}

} // verus!
