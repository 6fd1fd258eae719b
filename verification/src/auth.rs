//! The auth verification report: what was verified about an environment's
//! identity graph, the repairs rigg may apply itself, and the recognition
//! of authorization-shaped failures.
use vstd::prelude::*;

use crate::resources::ResourceKind;
use crate::text::{
    copy_str, chars_of, decimal, decimal_string, last_segment, last_segment_start, occurs_at,
    push_str, str_eq, string_of_range, is_digit,
};
use crate::workspace::Workspace;
use crate::diff_output::JsonValue;
use crate::json::{Json, jv, member, as_str, get, str_member, array_member, items_of, members_of, lemma_jv_unfold};
use crate::text::{is_lower, is_upper, join, join_strings, lower_seq, lower_vec, seq_eq, views};

verus! {

// ---------------------------------------------------------------------------
// Roles, principals, scopes
// ---------------------------------------------------------------------------

/// An Azure built-in role: its definition GUID and display name.
#[derive(Clone, Copy, Debug, PartialEq, Eq)]
pub struct Role {
    pub id: &'static str,
    pub name: &'static str,
}

/// Storage Blob Data Reader.
pub fn storage_blob_data_reader() -> (r: Role)
    ensures
        r.id@ == "2a2b9908-6ea1-4ae2-8e65-a410df84e7d1"@,
        r.name@ == "Storage Blob Data Reader"@,
{
    Role { id: "2a2b9908-6ea1-4ae2-8e65-a410df84e7d1", name: "Storage Blob Data Reader" }
}

/// Search Service Contributor.
pub fn search_service_contributor() -> (r: Role)
    ensures
        r.id@ == "7ca78c08-252a-4471-8644-bb5ff32d4ba0"@,
        r.name@ == "Search Service Contributor"@,
{
    Role { id: "7ca78c08-252a-4471-8644-bb5ff32d4ba0", name: "Search Service Contributor" }
}

/// Who holds (or needs) a role.
#[derive(Clone, Debug, PartialEq, Eq)]
pub enum Principal {
    /// The caller running rigg.
    Operator,
    /// An explicit object id (`--principal`).
    Named { object_id: String },
    /// The search service's system-assigned identity.
    SearchSystem,
    /// A user-assigned identity attached to the search service.
    SearchUser { binding: String },
    /// The Foundry project's identity.
    FoundryProject,
}

/// Where a role applies.
#[derive(Clone, Debug, PartialEq, Eq)]
pub enum Scope {
    /// A known ARM id.
    Resolved(String),
    /// A binding whose ARM id is not known yet.
    Unresolved { binding: String },
}

impl Scope {
    /// The ARM id, when the scope is resolved.
    pub fn arm_id(&self) -> (r: Option<&str>)
        ensures
            match self {
                Scope::Resolved(id) => r matches Some(s) && s@ == id@,
                Scope::Unresolved { .. } => r is None,
            },
    {
        match self {
            Scope::Resolved(id) => Some(id.as_str()),
            Scope::Unresolved { .. } => None,
        }
    }
}

/// Where a requirement was found: a resource file and a JSON path in it.
#[derive(Clone, Debug)]
pub struct Source {
    pub kind: ResourceKind,
    pub name: String,
    pub path: String,
}

/// The kind of an identity edge.
#[derive(Clone, Copy, Debug, PartialEq, Eq, Structural)]
pub enum EdgeKind {
    /// An Azure RBAC role assignment.
    Rbac,
    /// An app-level authorization (Entra app roles).
    AppAuthorization,
}

/// A constraint attached to an edge.
#[derive(Clone, Copy, Debug, PartialEq, Eq, Structural)]
pub enum Constraint {
    /// The trusted-service firewall exception only admits a system identity.
    TrustedServiceNeedsSystemIdentity,
}

/// One required role assignment in the identity graph.
#[derive(Clone, Debug)]
pub struct Edge {
    pub id: String,
    pub principal: Principal,
    pub role: Role,
    /// Roles that would satisfy the requirement as well.
    pub alternatives: Vec<Role>,
    pub scope: Scope,
    pub reason: String,
    pub sources: Vec<Source>,
    pub constraints: Vec<Constraint>,
    pub kind: EdgeKind,
}

/// What a setting/network check is about.
#[derive(Clone, Debug)]
pub enum CheckKind {
    SearchSku,
    SearchIdentity,
    SearchRbacEnabled,
    StorageNetwork { account: Scope },
    StorageSoftDelete { account: Scope },
    StorageSharedKey { account: Scope },
    AiServicesKind { account: Scope },
    FunctionAppNetwork { site: Scope },
    EasyAuth { site: Scope, audience: String },
    DeploymentAvailability { deployment: String },
    CanGrant { scope: Scope },
}

/// A setting or network requirement.
#[derive(Clone, Debug)]
pub struct Check {
    pub id: String,
    pub kind: CheckKind,
    pub reason: String,
    pub sources: Vec<Source>,
}

/// The `Scope` a check is about, when it has one.
pub open spec fn check_scope_spec(check: &Check) -> Option<&Scope> {
    match &check.kind {
        CheckKind::StorageNetwork { account } => Some(account),
        CheckKind::StorageSoftDelete { account } => Some(account),
        CheckKind::StorageSharedKey { account } => Some(account),
        CheckKind::AiServicesKind { account } => Some(account),
        CheckKind::FunctionAppNetwork { site } => Some(site),
        CheckKind::EasyAuth { site, .. } => Some(site),
        CheckKind::CanGrant { scope } => Some(scope),
        _ => None,
    }
}

/// The `Scope` a check is about, when it has one.
pub fn check_scope(check: &Check) -> (r: Option<&Scope>)
    ensures
        r == check_scope_spec(check),
{
    match &check.kind {
        CheckKind::StorageNetwork { account } => Some(account),
        CheckKind::StorageSoftDelete { account } => Some(account),
        CheckKind::StorageSharedKey { account } => Some(account),
        CheckKind::AiServicesKind { account } => Some(account),
        CheckKind::FunctionAppNetwork { site } => Some(site),
        CheckKind::EasyAuth { site, .. } => Some(site),
        CheckKind::CanGrant { scope } => Some(scope),
        _ => None,
    }
}

// ---------------------------------------------------------------------------
// Verdicts and report items
// ---------------------------------------------------------------------------

/// Knobs the verification takes.
#[derive(Clone, Debug)]
pub struct VerifyOpts {
    /// Check operator rights for this object id instead of the caller's.
    pub principal: Option<String>,
    /// Also require the data-plane read roles.
    pub verify_roles: bool,
    /// Read each indexer's last execution result.
    pub live: bool,
}

impl Default for VerifyOpts {
    fn default() -> (o: VerifyOpts)
        ensures
            o.principal is None && !o.verify_roles && !o.live,
    {
        VerifyOpts { principal: None, verify_roles: false, live: false }
    }
}

/// The verdict on one edge or check.
#[derive(Clone, Debug, PartialEq, Eq)]
pub enum Status {
    /// The requirement is in place.
    Satisfied,
    /// The role/setting is not in place.
    Missing,
    /// rigg could not determine the answer.
    Unresolved,
    /// Deliberately not checked here, with the reason.
    Skipped(String),
    /// Reported for context; never a failure.
    Informational,
}

impl Status {
    /// The verdict's name in JSON output.
    pub open spec fn name_spec(&self) -> Seq<char> {
        match self {
            Status::Satisfied => "ok"@,
            Status::Missing => "missing"@,
            Status::Unresolved => "unresolved"@,
            Status::Skipped(_) => "skipped"@,
            Status::Informational => "informational"@,
        }
    }

    /// The verdict's name in JSON output.
    pub fn as_str(&self) -> (s: &'static str)
        ensures
            s@ == self.name_spec(),
    {
        match self {
            Status::Satisfied => "ok",
            Status::Missing => "missing",
            Status::Unresolved => "unresolved",
            Status::Skipped(_) => "skipped",
            Status::Informational => "informational",
        }
    }
}

/// What a report item is about.
#[derive(Clone, Debug)]
pub enum What {
    Edge(Box<Edge>),
    Check(Box<Check>),
}

impl What {
    /// Whether this is a setting/network check.
    pub fn is_check(&self) -> (b: bool)
        ensures
            b == (self is Check),
    {
        match self {
            What::Edge(_) => false,
            What::Check(_) => true,
        }
    }

    /// Where the requirement was found.
    pub fn sources(&self) -> (s: &Vec<Source>)
        ensures
            match self {
                What::Edge(e) => *s == e.sources,
                What::Check(c) => *s == c.sources,
            },
    {
        match self {
            What::Edge(e) => &e.sources,
            What::Check(c) => &c.sources,
        }
    }

    /// Why the requirement exists.
    pub fn reason(&self) -> (r: &str)
        ensures
            match self {
                What::Edge(e) => r@ == e.reason@,
                What::Check(c) => r@ == c.reason@,
            },
    {
        match self {
            What::Edge(e) => e.reason.as_str(),
            What::Check(c) => c.reason.as_str(),
        }
    }

    /// The ARM id this item is about, when it has one.
    pub fn scope_id(&self) -> (r: Option<&str>)
        ensures
            match self {
                What::Edge(e) => match e.scope {
                    Scope::Resolved(id) => r matches Some(s) && s@ == id@,
                    Scope::Unresolved { .. } => r is None,
                },
                What::Check(c) => match check_scope_spec(c) {
                    Some(Scope::Resolved(id)) => r matches Some(s) && s@ == id@,
                    _ => r is None,
                },
            },
    {
        match self {
            What::Edge(e) => e.scope.arm_id(),
            What::Check(c) => match check_scope(c) {
                Some(s) => s.arm_id(),
                None => None,
            },
        }
    }
}

/// The id of what an item is about.
pub open spec fn what_id(w: What) -> Seq<char> {
    match w {
        What::Edge(e) => e.id@,
        What::Check(c) => c.id@,
    }
}

/// An item about an edge held by the caller themselves (or `--principal`).
pub open spec fn is_operator_edge_spec(item: ReportItem) -> bool {
    item.what matches What::Edge(e) && (e.principal is Operator || e.principal is Named)
}

/// One verified requirement.
#[derive(Clone, Debug)]
pub struct ReportItem {
    pub id: String,
    pub what: What,
    pub status: Status,
    /// The specifics: what was found, and what it means.
    pub detail: String,
    pub fix: Option<Fix>,
}

impl ReportItem {
    /// An item with no fix; its id is the edge's or check's.
    pub fn new(what: What, status: Status, detail: &str) -> (r: ReportItem)
        ensures
            r.id@ == what_id(what),
            r.what == what,
            r.status == status,
            r.detail@ == detail@,
            r.fix is None,
    {
        let id = match &what {
            What::Edge(e) => e.id.clone(),
            What::Check(c) => c.id.clone(),
        };
        ReportItem { id, what, status, detail: copy_str(detail), fix: None }
    }

    /// The same item with a fix attached.
    pub fn with_fix(self, fix: Fix) -> (r: ReportItem)
        ensures
            r.id == self.id && r.what == self.what && r.status == self.status && r.detail == self.detail,
            r.fix == Some(fix),
    {
        let mut r = self;
        r.fix = Some(fix);
        r
    }

    /// Is this an edge for the caller themselves (or `--principal`)? rigg
    /// never grants a caller their own rights.
    pub fn is_operator_edge(&self) -> (b: bool)
        ensures
            b == is_operator_edge_spec(*self),
    {
        match &self.what {
            What::Edge(e) => match e.principal {
                Principal::Operator | Principal::Named { .. } => true,
                _ => false,
            },
            What::Check(_) => false,
        }
    }
}

/// How many of each verdict.
#[derive(Clone, Copy, Debug, PartialEq, Eq, Structural)]
pub struct Summary {
    pub ok: usize,
    pub missing: usize,
    pub unresolved: usize,
    /// Auth-shaped failures observed live that the graph does not explain.
    pub live: usize,
}

impl Default for Summary {
    fn default() -> (s: Summary)
        ensures
            s.ok == 0 && s.missing == 0 && s.unresolved == 0 && s.live == 0,
    {
        Summary { ok: 0, missing: 0, unresolved: 0, live: 0 }
    }
}

impl Summary {
    /// Nothing is wrong: nothing missing, unresolved, or failing live.
    pub fn clean(&self) -> (b: bool)
        ensures
            b == (self.missing == 0 && self.unresolved == 0 && self.live == 0),
    {
        self.missing == 0 && self.unresolved == 0 && self.live == 0
    }
}

// ---------------------------------------------------------------------------
// Fixes
// ---------------------------------------------------------------------------

/// The resource provider a fix goes through.
#[derive(Clone, Copy, Debug, PartialEq, Eq, Structural)]
pub enum Provider {
    SearchArm,
    SearchData,
    StorageArm,
    CognitiveServicesArm,
    WebArm,
}

/// A repair rigg can perform itself.
#[derive(Clone, Debug, PartialEq, Eq)]
pub enum Fix {
    RoleAssignment { scope: String, principal_id: String, principal_type: String, role: Role, description: String },
    EnableSystemIdentity { resource_id: String, provider: Provider },
    /// Attach a user-assigned identity a file names to the resource that
    /// must act as it.
    AttachUserAssignedIdentity { resource_id: String, provider: Provider, uami_id: String, binding: String },
    EnableRbac { search_id: String },
    BlobSoftDelete { account_id: String, days: u32 },
    StorageBypassAzureServices { account_id: String },
    StorageResourceRule { account_id: String, tenant: String, search_id: String },
}

/// The kind name of a fix.
pub open spec fn fix_kind(f: Fix) -> Seq<char> {
    match f {
        Fix::RoleAssignment { .. } => "role-assignment"@,
        Fix::EnableSystemIdentity { .. } => "enable-system-identity"@,
        Fix::AttachUserAssignedIdentity { .. } => "attach-user-assigned-identity"@,
        Fix::EnableRbac { .. } => "enable-rbac"@,
        Fix::BlobSoftDelete { .. } => "blob-soft-delete"@,
        Fix::StorageBypassAzureServices { .. } => "storage-bypass-azure-services"@,
        Fix::StorageResourceRule { .. } => "storage-resource-instance-rule"@,
    }
}

/// The de-duplication key of a fix: its kind and the fields that identify
/// the change, `|`-separated.
pub open spec fn fix_key(f: Fix) -> Seq<char> {
    let k = fix_kind(f);
    match f {
        Fix::RoleAssignment { scope, principal_id, role, .. } => k + "|"@ + scope@ + "|"@ + principal_id@ + "|"@ + role.id@,
        Fix::EnableSystemIdentity { resource_id, .. } => k + "|"@ + resource_id@,
        Fix::AttachUserAssignedIdentity { resource_id, uami_id, .. } => k + "|"@ + resource_id@ + "|"@ + uami_id@,
        Fix::EnableRbac { search_id } => k + "|"@ + search_id@,
        Fix::BlobSoftDelete { account_id, days } => k + "|"@ + account_id@ + "|"@ + decimal(days as nat),
        Fix::StorageBypassAzureServices { account_id } => k + "|"@ + account_id@,
        Fix::StorageResourceRule { account_id, tenant, search_id } => k + "|"@ + account_id@ + "|"@ + tenant@ + "|"@ + search_id@,
    }
}

/// What applying a fix does, in one line.
pub open spec fn fix_description(f: Fix) -> Seq<char> {
    match f {
        Fix::RoleAssignment { scope, principal_id, role, .. } => "assign '"@ + role.name@ + "' to "@ + principal_id@ + " at "@ + scope@,
        Fix::EnableSystemIdentity { resource_id, .. } => "enable the system-assigned identity on "@ + resource_id@,
        Fix::AttachUserAssignedIdentity { resource_id, uami_id, .. } => "attach the user-assigned identity "@ + uami_id@ + " to "@ + resource_id@,
        Fix::EnableRbac { search_id } => "accept Entra tokens (authOptions.aadOrApiKey) on "@ + search_id@,
        Fix::BlobSoftDelete { account_id, days } => "enable blob soft delete ("@ + decimal(days as nat) + " days) on "@ + account_id@,
        Fix::StorageBypassAzureServices { account_id } => "add the AzureServices firewall bypass on "@ + account_id@,
        Fix::StorageResourceRule { account_id, search_id, .. } => "admit "@ + search_id@ + " through "@ + account_id@ + "'s firewall (resource-instance rule)"@,
    }
}

/// The equivalent `az` command of a fix.
pub open spec fn fix_command(f: Fix) -> Seq<char> {
    match f {
        Fix::RoleAssignment { scope, principal_id, role, .. } => "az role assignment create --assignee "@ + principal_id@
            + " --role "@ + role.id@ + " --scope \""@ + scope@ + "\" # "@ + role.name@,
        Fix::EnableSystemIdentity { resource_id, .. } => "az resource update --ids \""@ + resource_id@
            + "\" --set identity.type=SystemAssigned"@,
        Fix::AttachUserAssignedIdentity { resource_id, uami_id, .. } => "az search service identity assign --ids \""@
            + resource_id@ + "\" --user-identities \""@ + uami_id@ + "\""@,
        Fix::EnableRbac { search_id } => "az search service update --ids \""@ + search_id@
            + "\" --aad-auth-failure-mode http401WithBearerChallenge --auth-options aadOrApiKey"@,
        Fix::BlobSoftDelete { account_id, days } => "az storage account blob-service-properties update --ids \""@
            + account_id@ + "\" --enable-delete-retention true --delete-retention-days "@ + decimal(days as nat),
        Fix::StorageBypassAzureServices { account_id } => "az storage account update --ids \""@ + account_id@
            + "\" --bypass AzureServices Logging Metrics"@,
        Fix::StorageResourceRule { account_id, tenant, search_id } => "az storage account network-rule add --account-name "@
            + last_segment(account_id@) + " --resource-id \""@ + search_id@ + "\" --tenant-id "@ + tenant@
            + " # account: "@ + account_id@,
    }
}

impl Fix {
    /// A copy of this fix.
    pub fn copy(&self) -> (r: Fix)
        ensures
            r == *self,
    {
        match self {
            Fix::RoleAssignment { scope, principal_id, principal_type, role, description } => Fix::RoleAssignment {
                scope: scope.clone(),
                principal_id: principal_id.clone(),
                principal_type: principal_type.clone(),
                role: *role,
                description: description.clone(),
            },
            Fix::EnableSystemIdentity { resource_id, provider } => Fix::EnableSystemIdentity {
                resource_id: resource_id.clone(),
                provider: *provider,
            },
            Fix::AttachUserAssignedIdentity { resource_id, provider, uami_id, binding } => Fix::AttachUserAssignedIdentity {
                resource_id: resource_id.clone(),
                provider: *provider,
                uami_id: uami_id.clone(),
                binding: binding.clone(),
            },
            Fix::EnableRbac { search_id } => Fix::EnableRbac { search_id: search_id.clone() },
            Fix::BlobSoftDelete { account_id, days } => Fix::BlobSoftDelete { account_id: account_id.clone(), days: *days },
            Fix::StorageBypassAzureServices { account_id } => Fix::StorageBypassAzureServices {
                account_id: account_id.clone(),
            },
            Fix::StorageResourceRule { account_id, tenant, search_id } => Fix::StorageResourceRule {
                account_id: account_id.clone(),
                tenant: tenant.clone(),
                search_id: search_id.clone(),
            },
        }
    }

    /// The kind name of this fix.
    pub fn kind(&self) -> (s: &'static str)
        ensures
            s@ == fix_kind(*self),
    {
        match self {
            Fix::RoleAssignment { .. } => "role-assignment",
            Fix::EnableSystemIdentity { .. } => "enable-system-identity",
            Fix::AttachUserAssignedIdentity { .. } => "attach-user-assigned-identity",
            Fix::EnableRbac { .. } => "enable-rbac",
            Fix::BlobSoftDelete { .. } => "blob-soft-delete",
            Fix::StorageBypassAzureServices { .. } => "storage-bypass-azure-services",
            Fix::StorageResourceRule { .. } => "storage-resource-instance-rule",
        }
    }

    /// De-duplication key: two report items may want the very same repair.
    pub fn key(&self) -> (s: String)
        ensures
            s@ == fix_key(*self),
    {
        let mut s = copy_str(self.kind());
        match self {
            Fix::RoleAssignment { scope, principal_id, role, .. } => {
                push_str(&mut s, "|");
                push_str(&mut s, scope.as_str());
                push_str(&mut s, "|");
                push_str(&mut s, principal_id.as_str());
                push_str(&mut s, "|");
                push_str(&mut s, role.id);
            },
            Fix::EnableSystemIdentity { resource_id, .. } => {
                push_str(&mut s, "|");
                push_str(&mut s, resource_id.as_str());
            },
            Fix::AttachUserAssignedIdentity { resource_id, uami_id, .. } => {
                push_str(&mut s, "|");
                push_str(&mut s, resource_id.as_str());
                push_str(&mut s, "|");
                push_str(&mut s, uami_id.as_str());
            },
            Fix::EnableRbac { search_id } => {
                push_str(&mut s, "|");
                push_str(&mut s, search_id.as_str());
            },
            Fix::BlobSoftDelete { account_id, days } => {
                push_str(&mut s, "|");
                push_str(&mut s, account_id.as_str());
                push_str(&mut s, "|");
                let d = decimal_string(*days as usize);
                push_str(&mut s, d.as_str());
            },
            Fix::StorageBypassAzureServices { account_id } => {
                push_str(&mut s, "|");
                push_str(&mut s, account_id.as_str());
            },
            Fix::StorageResourceRule { account_id, tenant, search_id } => {
                push_str(&mut s, "|");
                push_str(&mut s, account_id.as_str());
                push_str(&mut s, "|");
                push_str(&mut s, tenant.as_str());
                push_str(&mut s, "|");
                push_str(&mut s, search_id.as_str());
            },
        }
        s
    }

    /// What applying this does, in one line.
    pub fn describe(&self) -> (s: String)
        ensures
            s@ == fix_description(*self),
    {
        match self {
            Fix::RoleAssignment { scope, principal_id, role, .. } => {
                let mut s = copy_str("assign '");
                push_str(&mut s, role.name);
                push_str(&mut s, "' to ");
                push_str(&mut s, principal_id.as_str());
                push_str(&mut s, " at ");
                push_str(&mut s, scope.as_str());
                s
            },
            Fix::EnableSystemIdentity { resource_id, .. } => {
                let mut s = copy_str("enable the system-assigned identity on ");
                push_str(&mut s, resource_id.as_str());
                s
            },
            Fix::AttachUserAssignedIdentity { resource_id, uami_id, .. } => {
                let mut s = copy_str("attach the user-assigned identity ");
                push_str(&mut s, uami_id.as_str());
                push_str(&mut s, " to ");
                push_str(&mut s, resource_id.as_str());
                s
            },
            Fix::EnableRbac { search_id } => {
                let mut s = copy_str("accept Entra tokens (authOptions.aadOrApiKey) on ");
                push_str(&mut s, search_id.as_str());
                s
            },
            Fix::BlobSoftDelete { account_id, days } => {
                let mut s = copy_str("enable blob soft delete (");
                let d = decimal_string(*days as usize);
                push_str(&mut s, d.as_str());
                push_str(&mut s, " days) on ");
                push_str(&mut s, account_id.as_str());
                s
            },
            Fix::StorageBypassAzureServices { account_id } => {
                let mut s = copy_str("add the AzureServices firewall bypass on ");
                push_str(&mut s, account_id.as_str());
                s
            },
            Fix::StorageResourceRule { account_id, search_id, .. } => {
                let mut s = copy_str("admit ");
                push_str(&mut s, search_id.as_str());
                push_str(&mut s, " through ");
                push_str(&mut s, account_id.as_str());
                push_str(&mut s, "'s firewall (resource-instance rule)");
                s
            },
        }
    }

    /// The equivalent `az` command, for a user who would rather run it.
    /// Role assignments name the role by its definition GUID, with the
    /// display name as a trailing comment.
    pub fn command(&self) -> (s: String)
        ensures
            s@ == fix_command(*self),
    {
        match self {
            Fix::RoleAssignment { scope, principal_id, role, .. } => {
                let mut s = copy_str("az role assignment create --assignee ");
                push_str(&mut s, principal_id.as_str());
                push_str(&mut s, " --role ");
                push_str(&mut s, role.id);
                push_str(&mut s, " --scope \"");
                push_str(&mut s, scope.as_str());
                push_str(&mut s, "\" # ");
                push_str(&mut s, role.name);
                s
            },
            Fix::EnableSystemIdentity { resource_id, .. } => {
                let mut s = copy_str("az resource update --ids \"");
                push_str(&mut s, resource_id.as_str());
                push_str(&mut s, "\" --set identity.type=SystemAssigned");
                s
            },
            Fix::AttachUserAssignedIdentity { resource_id, uami_id, .. } => {
                let mut s = copy_str("az search service identity assign --ids \"");
                push_str(&mut s, resource_id.as_str());
                push_str(&mut s, "\" --user-identities \"");
                push_str(&mut s, uami_id.as_str());
                push_str(&mut s, "\"");
                s
            },
            Fix::EnableRbac { search_id } => {
                let mut s = copy_str("az search service update --ids \"");
                push_str(&mut s, search_id.as_str());
                push_str(
                    &mut s,
                    "\" --aad-auth-failure-mode http401WithBearerChallenge --auth-options aadOrApiKey",
                );
                s
            },
            Fix::BlobSoftDelete { account_id, days } => {
                let mut s = copy_str("az storage account blob-service-properties update --ids \"");
                push_str(&mut s, account_id.as_str());
                push_str(&mut s, "\" --enable-delete-retention true --delete-retention-days ");
                let d = decimal_string(*days as usize);
                push_str(&mut s, d.as_str());
                s
            },
            Fix::StorageBypassAzureServices { account_id } => {
                let mut s = copy_str("az storage account update --ids \"");
                push_str(&mut s, account_id.as_str());
                push_str(&mut s, "\" --bypass AzureServices Logging Metrics");
                s
            },
            Fix::StorageResourceRule { account_id, tenant, search_id } => {
                let v = chars_of(account_id.as_str());
                let a = last_segment_start(&v, v.len());
                assert(v@.subrange(0, v@.len() as int) =~= v@);
                let short = string_of_range(&v, a, v.len());
                let mut s = copy_str("az storage account network-rule add --account-name ");
                push_str(&mut s, short.as_str());
                push_str(&mut s, " --resource-id \"");
                push_str(&mut s, search_id.as_str());
                push_str(&mut s, "\" --tenant-id ");
                push_str(&mut s, tenant.as_str());
                push_str(&mut s, " # account: ");
                push_str(&mut s, account_id.as_str());
                s
            },
        }
    }
}

// ---------------------------------------------------------------------------
// The report
// ---------------------------------------------------------------------------

/// A verified identity graph for one environment.
#[derive(Debug)]
pub struct Report {
    pub env: String,
    /// Where the environment points, for the report header.
    pub targets: Vec<String>,
    /// Service-identity edges and setting/network checks.
    pub items: Vec<ReportItem>,
    /// The operator's own rights.
    pub operator: Vec<ReportItem>,
    /// Who the operator edges were checked for.
    pub operator_label: String,
    /// Live findings that no scope in the graph explains.
    pub live: Vec<String>,
    pub summary: Summary,
}

/// An item whose fix rigg applies itself: missing, not the caller's own
/// edge, and with a fix.
pub open spec fn applies_fix(item: ReportItem) -> bool {
    item.status is Missing && !is_operator_edge_spec(item) && item.fix is Some
}

/// The keys of a sequence of fixes.
pub open spec fn fix_keys(fs: Seq<Fix>) -> Seq<Seq<char>> {
    fs.map_values(|f: Fix| fix_key(f))
}

/// The distinct fixes of the first `k` items, first occurrence kept.
pub open spec fn fixes_upto(items: Seq<ReportItem>, k: int) -> Seq<Fix>
    decreases k,
{
    if k <= 0 {
        Seq::empty()
    } else {
        let prev = fixes_upto(items, k - 1);
        let it = items[k - 1];
        if applies_fix(it) && !fix_keys(prev).contains(fix_key(it.fix->Some_0)) {
            prev.push(it.fix->Some_0)
        } else {
            prev
        }
    }
}

/// A missing item that no applied fix covers: no fix, or the caller's own.
pub open spec fn unfixable_item(item: ReportItem) -> bool {
    item.status is Missing && (item.fix is None || is_operator_edge_spec(item))
}

/// The items of `items[..k]` that satisfy `unfixable_item`, in order.
pub open spec fn unfixable_upto(items: Seq<ReportItem>, k: int) -> Seq<ReportItem>
    decreases k,
{
    if k <= 0 {
        Seq::empty()
    } else if unfixable_item(items[k - 1]) {
        unfixable_upto(items, k - 1).push(items[k - 1])
    } else {
        unfixable_upto(items, k - 1)
    }
}

/// The items of `items[..k]` with the given verdict, in order.
pub open spec fn missing_upto(items: Seq<ReportItem>, k: int) -> Seq<ReportItem>
    decreases k,
{
    if k <= 0 {
        Seq::empty()
    } else if items[k - 1].status is Missing {
        missing_upto(items, k - 1).push(items[k - 1])
    } else {
        missing_upto(items, k - 1)
    }
}

/// The unresolved items of `items[..k]`, in order.
pub open spec fn unresolved_upto(items: Seq<ReportItem>, k: int) -> Seq<ReportItem>
    decreases k,
{
    if k <= 0 {
        Seq::empty()
    } else if items[k - 1].status is Unresolved {
        unresolved_upto(items, k - 1).push(items[k - 1])
    } else {
        unresolved_upto(items, k - 1)
    }
}

/// The items a vector of references points at.
pub open spec fn derefs(s: Seq<&ReportItem>) -> Seq<ReportItem> {
    s.map_values(|r: &ReportItem| *r)
}

/// Whether `key` is among `keys`.
fn contains_key(keys: &Vec<String>, key: &str) -> (r: bool)
    ensures
        r == crate::text::views(keys@).contains(key@),
{
    let mut i: usize = 0;
    while i < keys.len()
        invariant
            0 <= i <= keys@.len(),
            forall|k: int| 0 <= k < i ==> keys@[k]@ != key@,
        decreases keys@.len() - i,
    {
        if str_eq(keys[i].as_str(), key) {
            assert(crate::text::views(keys@)[i as int] == key@);
            return true;
        }
        i += 1;
    }
    assert forall|k: int| 0 <= k < keys@.len() implies crate::text::views(keys@)[k] != key@ by {
        assert(crate::text::views(keys@)[k] == keys@[k]@);
    }
    false
}

impl Report {
    /// Every distinct fix rigg will apply itself, in report order. Only the
    /// service-identity items count: the operator's own rights are never
    /// granted by rigg.
    pub fn fixes(&self) -> (out: Vec<Fix>)
        ensures
            out@ == fixes_upto(self.items@, self.items@.len() as int),
    {
        let mut out: Vec<Fix> = Vec::new();
        let mut seen: Vec<String> = Vec::new();
        let mut i: usize = 0;
        while i < self.items.len()
            invariant
                0 <= i <= self.items@.len(),
                out@ == fixes_upto(self.items@, i as int),
                crate::text::views(seen@) == fix_keys(out@),
            decreases self.items@.len() - i,
        {
            let it = &self.items[i];
            if matches!(it.status, Status::Missing) && !it.is_operator_edge() {
                if let Some(f) = &it.fix {
                    let k = f.key();
                    if !contains_key(&seen, k.as_str()) {
                        let ghost before = out@;
                        let ghost seen_before = seen@;
                        out.push(f.copy());
                        seen.push(k);
                        assert(fix_keys(out@) =~= fix_keys(before).push(fix_key(*f)));
                        assert(crate::text::views(seen@) =~= crate::text::views(seen_before).push(fix_key(*f)));
                    }
                }
            }
            i += 1;
        }
        out
    }

    /// Missing items the applied fixes do not cover — no fix at all, or a
    /// right only a human may grant — followed by every missing operator
    /// item.
    pub fn unfixable(&self) -> (out: Vec<&ReportItem>)
        ensures
            derefs(out@) == unfixable_upto(self.items@, self.items@.len() as int) + missing_upto(
                self.operator@,
                self.operator@.len() as int,
            ),
    {
        let mut out: Vec<&ReportItem> = Vec::new();
        let mut i: usize = 0;
        while i < self.items.len()
            invariant
                0 <= i <= self.items@.len(),
                derefs(out@) == unfixable_upto(self.items@, i as int),
            decreases self.items@.len() - i,
        {
            let it = &self.items[i];
            if matches!(it.status, Status::Missing) && (it.fix.is_none() || it.is_operator_edge()) {
                let ghost before = derefs(out@);
                out.push(it);
                assert(derefs(out@) =~= before.push(*it));
            } else {
                assert(derefs(out@) == unfixable_upto(self.items@, i + 1));
            }
            i += 1;
        }
        let ghost first = derefs(out@);
        let mut j: usize = 0;
        while j < self.operator.len()
            invariant
                0 <= j <= self.operator@.len(),
                first == unfixable_upto(self.items@, self.items@.len() as int),
                derefs(out@) == first + missing_upto(self.operator@, j as int),
            decreases self.operator@.len() - j,
        {
            let it = &self.operator[j];
            if matches!(it.status, Status::Missing) {
                let ghost before = derefs(out@);
                out.push(it);
                assert(derefs(out@) =~= before.push(*it));
                assert(derefs(out@) =~= first + missing_upto(self.operator@, j + 1));
            }
            j += 1;
        }
        out
    }

    /// Items rigg could not judge, service items first.
    pub fn unresolved(&self) -> (out: Vec<&ReportItem>)
        ensures
            derefs(out@) == unresolved_upto(self.items@, self.items@.len() as int) + unresolved_upto(
                self.operator@,
                self.operator@.len() as int,
            ),
    {
        let mut out: Vec<&ReportItem> = Vec::new();
        let mut i: usize = 0;
        while i < self.items.len()
            invariant
                0 <= i <= self.items@.len(),
                derefs(out@) == unresolved_upto(self.items@, i as int),
            decreases self.items@.len() - i,
        {
            let it = &self.items[i];
            if matches!(it.status, Status::Unresolved) {
                let ghost before = derefs(out@);
                out.push(it);
                assert(derefs(out@) =~= before.push(*it));
            }
            i += 1;
        }
        let ghost first = derefs(out@);
        let mut j: usize = 0;
        while j < self.operator.len()
            invariant
                0 <= j <= self.operator@.len(),
                first == unresolved_upto(self.items@, self.items@.len() as int),
                derefs(out@) == first + unresolved_upto(self.operator@, j as int),
            decreases self.operator@.len() - j,
        {
            let it = &self.operator[j];
            if matches!(it.status, Status::Unresolved) {
                let ghost before = derefs(out@);
                out.push(it);
                assert(derefs(out@) =~= before.push(*it));
                assert(derefs(out@) =~= first + unresolved_upto(self.operator@, j + 1));
            }
            j += 1;
        }
        out
    }
}

/// `f` is the fix of one of the first `k` items, an item whose fix rigg
/// applies.
pub open spec fn fix_from_item(items: Seq<ReportItem>, k: int, f: Fix) -> bool {
    exists|i: int| 0 <= i < items.len() && i < k && applies_fix(#[trigger] items[i]) && items[i].fix == Some(f)
}

/// Law: `--fix` never applies a fix for the caller's own rights — every fix
/// the report applies comes from a missing, non-operator item that carries
/// exactly that fix — and no two applied fixes make the same change.
pub proof fn law_fixes_exclude_operator_and_repeat_nothing(items: Seq<ReportItem>, k: int)
    requires
        0 <= k <= items.len(),
    ensures
        forall|j: int| 0 <= j < fixes_upto(items, k).len() ==> fix_from_item(items, k, #[trigger] fixes_upto(items, k)[j]),
        forall|a: int, b: int| 0 <= a < b < fixes_upto(items, k).len() ==> fix_key(fixes_upto(items, k)[a]) != fix_key(
            fixes_upto(items, k)[b],
        ),
    decreases k,
{
    if k > 0 {
        law_fixes_exclude_operator_and_repeat_nothing(items, k - 1);
        let prev = fixes_upto(items, k - 1);
        let cur = fixes_upto(items, k);
        let it = items[k - 1];
        assert forall|j: int| 0 <= j < prev.len() implies fix_from_item(items, k, #[trigger] prev[j]) by {
            assert(fix_from_item(items, k - 1, prev[j]));
            let i = choose|i: int| 0 <= i < items.len() && i < k - 1 && applies_fix(#[trigger] items[i]) && items[i].fix == Some(prev[j]);
            assert(0 <= i < items.len() && i < k && applies_fix(items[i]) && items[i].fix == Some(prev[j]));
        }
        if applies_fix(it) && !fix_keys(prev).contains(fix_key(it.fix->Some_0)) {
            assert forall|j: int| 0 <= j < cur.len() implies fix_from_item(items, k, #[trigger] cur[j]) by {
                if j < prev.len() {
                    assert(cur[j] == prev[j]);
                } else {
                    assert(applies_fix(items[k - 1]) && items[k - 1].fix == Some(cur[j]));
                }
            }
            assert forall|a: int, b: int| 0 <= a < b < cur.len() implies fix_key(cur[a]) != fix_key(cur[b]) by {
                if b == prev.len() {
                    assert(fix_keys(prev)[a] == fix_key(prev[a]));
                } else {
                    assert(cur[a] == prev[a] && cur[b] == prev[b]);
                }
            }
        }
    }
}

// ---------------------------------------------------------------------------
// Role-assignment descriptions
// ---------------------------------------------------------------------------

/// The description rigg stamps on a role assignment it creates.
pub fn role_description(prefix: &str, reason: &str) -> (s: String)
    ensures
        s@ == prefix@ + ":"@ + reason@,
{
    let mut s = copy_str(prefix);
    push_str(&mut s, ":");
    push_str(&mut s, reason);
    s
}

/// The final component of a path, as `Path::file_name` gives it.
pub uninterp spec fn path_file_name(path: Seq<char>) -> Option<Seq<char>>;

/// `Path::file_name` on `path`, as text.
#[verifier::external_body]
fn file_name_of(path: &str) -> (r: Option<String>)
    ensures
        match (r, path_file_name(path@)) {
            (Some(a), Some(b)) => a@ == b,
            (None, None) => true,
            _ => false,
        },
{
    std::path::Path::new(path).file_name().map(|f| f.to_string_lossy().to_string())
}

/// The name a workspace goes by in descriptions: its configured name, else
/// its root directory's name, else `workspace`.
pub open spec fn workspace_label(ws: &Workspace) -> Seq<char> {
    match ws.config.name {
        Some(n) => n@,
        None => match path_file_name(ws.root@) {
            Some(f) => f,
            None => "workspace"@,
        },
    }
}

/// `rigg:<workspace>:<env>` — the prefix `rigg auth roles` filters on.
pub fn description_prefix(ws: &Workspace, env: &str) -> (s: String)
    ensures
        s@ == "rigg:"@ + workspace_label(ws) + ":"@ + env@,
{
    let name = match &ws.config.name {
        Some(n) => n.clone(),
        None => match file_name_of(ws.root.as_str()) {
            Some(f) => f,
            None => copy_str("workspace"),
        },
    };
    let mut s = copy_str("rigg:");
    push_str(&mut s, name.as_str());
    push_str(&mut s, ":");
    push_str(&mut s, env);
    s
}

// ---------------------------------------------------------------------------
// Verdicts on settings checks
// ---------------------------------------------------------------------------

/// What the search service's management record says about its SKU and
/// the credentials it accepts.
#[derive(Clone, Debug)]
pub struct SearchServiceInfo {
    pub sku: String,
    pub hosting_mode: String,
    pub rbac_enabled: bool,
    pub disable_local_auth: bool,
}

/// `a` and `b` are equal up to ASCII letter case (`str::eq_ignore_ascii_case`).
pub open spec fn eq_ignore_case(a: Seq<char>, b: Seq<char>) -> bool {
    lower_seq(a) == lower_seq(b)
}

fn eq_ignore_case_exec(a: &str, b: &str) -> (r: bool)
    ensures
        r == eq_ignore_case(a@, b@),
{
    seq_eq(&lower_vec(&chars_of(a)), &lower_vec(&chars_of(b)))
}

/// The detail when no search service could be read.
pub open spec fn no_search_msg(env: Seq<char>) -> Seq<char> {
    "environment '"@ + env + "' has no reachable search service"@
}

fn no_search_text(env: &str) -> (s: String)
    ensures
        s@ == no_search_msg(env@),
{
    let mut s = copy_str("environment '");
    push_str(&mut s, env);
    push_str(&mut s, "' has no reachable search service");
    s
}

/// The verdict on the search SKU: the Free SKU has no managed identity,
/// and the high-density hosting mode hosts no knowledge base (which
/// matters only when the environment has one).
pub open spec fn sku_verdict(search: Option<SearchServiceInfo>, has_knowledge_base: bool, env: Seq<char>) -> (Status, Seq<char>) {
    match search {
        Some(info) => if eq_ignore_case(info.sku@, "free"@) {
            (
                Status::Missing,
                "the Free SKU has no managed identity and cannot host knowledge bases — recreate the service at Basic or higher"@,
            )
        } else if has_knowledge_base && eq_ignore_case(info.hosting_mode@, "highDensity"@) {
            (
                Status::Missing,
                "SKU '"@ + info.sku@
                    + "' in high-density hosting mode does not host knowledge bases — recreate the service in the default hosting mode (or at Basic/Standard)"@,
            )
        } else {
            (Status::Satisfied, "SKU '"@ + info.sku@ + "'"@)
        },
        None => (Status::Unresolved, no_search_msg(env)),
    }
}

/// Judge the search SKU check from the service's record (`None` when the
/// environment's search service could not be read).
pub fn judge_search_sku(what: What, search: &Option<SearchServiceInfo>, has_knowledge_base: bool, env: &str) -> (r: ReportItem)
    ensures
        r.id@ == what_id(what),
        r.what == what,
        (r.status, r.detail@) == sku_verdict(*search, has_knowledge_base, env@),
        r.fix is None,
{
    match search {
        Some(info) => {
            if eq_ignore_case_exec(info.sku.as_str(), "free") {
                ReportItem::new(
                    what,
                    Status::Missing,
                    "the Free SKU has no managed identity and cannot host knowledge bases — recreate the service at Basic or higher",
                )
            } else if has_knowledge_base && eq_ignore_case_exec(info.hosting_mode.as_str(), "highDensity") {
                let mut d = copy_str("SKU '");
                push_str(&mut d, info.sku.as_str());
                push_str(
                    &mut d,
                    "' in high-density hosting mode does not host knowledge bases — recreate the service in the default hosting mode (or at Basic/Standard)",
                );
                ReportItem::new(what, Status::Missing, d.as_str())
            } else {
                let mut d = copy_str("SKU '");
                push_str(&mut d, info.sku.as_str());
                push_str(&mut d, "'");
                ReportItem::new(what, Status::Satisfied, d.as_str())
            }
        },
        None => ReportItem::new(what, Status::Unresolved, no_search_text(env).as_str()),
    }
}

/// The verdict on whether the search service accepts Entra tokens; when
/// it takes API keys only, enabling RBAC is the fix.
pub open spec fn rbac_verdict(search: Option<SearchServiceInfo>, search_id: Option<String>, env: Seq<char>) -> (Status, Seq<char>, Option<Fix>) {
    match (search, search_id) {
        (Some(info), Some(id)) => if info.rbac_enabled || info.disable_local_auth {
            (Status::Satisfied, "the service accepts Entra tokens"@, None)
        } else {
            (
                Status::Missing,
                "the service accepts API keys only — rigg authenticates with bearer tokens"@,
                Some(Fix::EnableRbac { search_id: id }),
            )
        },
        _ => (Status::Unresolved, no_search_msg(env), None),
    }
}

/// Judge the search RBAC check from the service's record and ARM id.
pub fn judge_search_rbac(what: What, search: &Option<SearchServiceInfo>, search_id: Option<String>, env: &str) -> (r: ReportItem)
    ensures
        r.id@ == what_id(what),
        r.what == what,
        (r.status, r.detail@, r.fix) == rbac_verdict(*search, search_id, env@),
{
    match (search, search_id) {
        (Some(info), Some(id)) => {
            if info.rbac_enabled || info.disable_local_auth {
                ReportItem::new(what, Status::Satisfied, "the service accepts Entra tokens")
            } else {
                ReportItem::new(
                    what,
                    Status::Missing,
                    "the service accepts API keys only — rigg authenticates with bearer tokens",
                ).with_fix(Fix::EnableRbac { search_id: id })
            }
        },
        _ => ReportItem::new(what, Status::Unresolved, no_search_text(env).as_str()),
    }
}

/// The verdict on a storage account's shared-key setting, given the
/// account's `allowSharedKeyAccess` or why it could not be read. rigg uses
/// identity-based access either way, so a readable setting is fine.
pub open spec fn shared_key_verdict(allow: Result<Option<bool>, String>) -> (Status, Seq<char>) {
    match allow {
        Ok(Some(false)) => (Status::Satisfied, "shared-key access is disabled — identity-based access is unaffected"@),
        Ok(_) => (Status::Satisfied, "shared-key access is allowed; rigg uses identity-based access regardless"@),
        Err(e) => (Status::Unresolved, e@),
    }
}

/// Judge the shared-key check.
pub fn judge_shared_key(what: What, allow: Result<Option<bool>, String>) -> (r: ReportItem)
    ensures
        r.id@ == what_id(what),
        r.what == what,
        (r.status, r.detail@) == shared_key_verdict(allow),
        r.fix is None,
{
    match allow {
        Ok(Some(false)) => ReportItem::new(
            what,
            Status::Satisfied,
            "shared-key access is disabled — identity-based access is unaffected",
        ),
        Ok(_) => ReportItem::new(
            what,
            Status::Satisfied,
            "shared-key access is allowed; rigg uses identity-based access regardless",
        ),
        Err(e) => ReportItem::new(what, Status::Unresolved, e.as_str()),
    }
}

/// The verdict on an AI services account's kind, given the kind or why it
/// could not be read: identity-based AI services calls need `AIServices`.
pub open spec fn ai_services_kind_verdict(kind: Result<String, String>) -> (Status, Seq<char>) {
    match kind {
        Ok(k) => if eq_ignore_case(k@, "AIServices"@) {
            (Status::Satisfied, "account kind is AIServices"@)
        } else {
            (
                Status::Missing,
                "account kind is '"@ + k@
                    + "' — AIServicesByIdentity requires an AIServices account; point the skillset at one"@,
            )
        },
        Err(e) => (Status::Unresolved, e@),
    }
}

/// Judge the AI services account kind check.
pub fn judge_ai_services_kind(what: What, kind: Result<String, String>) -> (r: ReportItem)
    ensures
        r.id@ == what_id(what),
        r.what == what,
        (r.status, r.detail@) == ai_services_kind_verdict(kind),
        r.fix is None,
{
    match kind {
        Ok(k) => {
            if eq_ignore_case_exec(k.as_str(), "AIServices") {
                ReportItem::new(what, Status::Satisfied, "account kind is AIServices")
            } else {
                let mut d = copy_str("account kind is '");
                push_str(&mut d, k.as_str());
                push_str(
                    &mut d,
                    "' — AIServicesByIdentity requires an AIServices account; point the skillset at one",
                );
                ReportItem::new(what, Status::Missing, d.as_str())
            }
        },
        Err(e) => ReportItem::new(what, Status::Unresolved, e.as_str()),
    }
}

/// The verdict on whether the caller can create role assignments at a
/// scope, given the answer or why it could not be had.
pub open spec fn can_grant_verdict(can: Result<bool, String>) -> (Status, Seq<char>) {
    match can {
        Ok(true) => (Status::Satisfied, "you can create role assignments here"@),
        Ok(false) => (
            Status::Missing,
            "you cannot create role assignments here — ask for Owner or User Access Administrator at this scope, or have someone run the az command above"@,
        ),
        Err(e) => (Status::Unresolved, e@),
    }
}

/// Judge the can-grant check.
pub fn judge_can_grant(what: What, can: Result<bool, String>) -> (r: ReportItem)
    ensures
        r.id@ == what_id(what),
        r.what == what,
        (r.status, r.detail@) == can_grant_verdict(can),
        r.fix is None,
{
    match can {
        Ok(true) => ReportItem::new(what, Status::Satisfied, "you can create role assignments here"),
        Ok(false) => ReportItem::new(
            what,
            Status::Missing,
            "you cannot create role assignments here — ask for Owner or User Access Administrator at this scope, or have someone run the az command above",
        ),
        Err(e) => ReportItem::new(what, Status::Unresolved, e.as_str()),
    }
}

/// A model deployment's availability is checked when it is pushed, not here.
pub fn judge_deployment_availability(what: What) -> (r: ReportItem)
    ensures
        r.id@ == what_id(what),
        r.what == what,
        r.status matches Status::Skipped(why) && why@ == "checked by promote/push"@,
        r.detail@ == "model, version, region and quota are checked when the deployment is pushed"@,
        r.fix is None,
{
    ReportItem::new(
        what,
        Status::Skipped(copy_str("checked by promote/push")),
        "model, version, region and quota are checked when the deployment is pushed",
    )
}

// ---------------------------------------------------------------------------
// Recognising authorization failures
// ---------------------------------------------------------------------------

/// The lowercase of a string, as `str::to_lowercase` gives it.
pub uninterp spec fn unicode_lowercase(s: Seq<char>) -> Seq<char>;

/// Every character is ASCII.
pub open spec fn ascii_text(s: Seq<char>) -> bool {
    forall|i: int| 0 <= i < s.len() ==> (s[i] as u32) < 128
}

/// The lowercase of a string: for ASCII text each uppercase letter lowered
/// one for one and everything else kept; otherwise what `str::to_lowercase`
/// gives.
pub open spec fn lowercase(s: Seq<char>) -> Seq<char> {
    if ascii_text(s) {
        lower_seq(s)
    } else {
        unicode_lowercase(s)
    }
}

/// `str::to_lowercase`. Lowercase follows the Unicode `Lowercase` mapping,
/// under which the ASCII letters `A`-`Z` map to `a`-`z` and every other
/// ASCII character maps to itself; each character maps to one or more
/// characters, so a non-empty string stays non-empty. Of non-ASCII text
/// nothing more is stated than the name of the result.
#[verifier::external_body]
pub(crate) fn to_lowercase(s: &str) -> (r: String)
    ensures
        r@ == (if ascii_text(s@) {
            lower_seq(s@)
        } else {
            unicode_lowercase(s@)
        }),
        s@.len() > 0 ==> r@.len() > 0,
{
    s.to_lowercase()
}

/// Whether a character has the Unicode `Alphabetic` property.
pub uninterp spec fn alphabetic(c: char) -> bool;

/// Whether a character is alphabetic: among ASCII characters exactly the
/// letters; otherwise what `char::is_alphabetic` gives.
pub open spec fn is_alpha(c: char) -> bool {
    if (c as u32) < 128 {
        is_lower(c) || is_upper(c)
    } else {
        alphabetic(c)
    }
}

/// `char::is_alphabetic`: the Unicode `Alphabetic` property, which among
/// ASCII characters the letters `A`-`Z` and `a`-`z` have and no other has.
/// Of non-ASCII characters nothing more is stated than the name of the
/// result.
#[verifier::external_body]
pub(crate) fn is_alphabetic(c: char) -> (r: bool)
    ensures
        r == (if (c as u32) < 128 {
            is_lower(c) || is_upper(c)
        } else {
            alphabetic(c)
        }),
{
    c.is_alphabetic()
}

/// Two characters of the same class: both ASCII digits, or both alphabetic.
pub open spec fn same_class(a: char, b: char) -> bool {
    (is_digit(a) && is_digit(b)) || (is_alpha(a) && is_alpha(b))
}

/// `ndl` occurs in `hay` at `i` with neither neighbour continuing the
/// class of the edge character it touches.
pub open spec fn word_at(hay: Seq<char>, ndl: Seq<char>, i: int) -> bool {
    &&& occurs_at(hay, ndl, i)
    &&& (i == 0 || !same_class(hay[i - 1], ndl[0]))
    &&& (i + ndl.len() == hay.len() || !same_class(hay[i + ndl.len()], ndl.last()))
}

/// Case-insensitive whole-word containment (see `contains_word`).
pub open spec fn contains_word_spec(haystack: Seq<char>, needle: Seq<char>) -> bool {
    let hay = lowercase(haystack);
    let ndl = lowercase(needle);
    &&& needle.len() > 0
    &&& ndl.len() > 0
    &&& exists|i: int| 0 <= i <= hay.len() - ndl.len() && word_at(hay, ndl, i)
}

fn same_class_exec(a: char, b: char) -> (r: bool)
    ensures
        r == same_class(a, b),
{
    (('0' <= a && a <= '9') && ('0' <= b && b <= '9')) || (is_alphabetic(a) && is_alphabetic(b))
}

/// Case-insensitive substring match whose ends must not continue the same
/// character class: `403` matches "HTTP 403." but not "4031 documents";
/// `AADSTS` still matches "AADSTS700016".
pub fn contains_word(haystack: &str, needle: &str) -> (r: bool)
    ensures
        r == contains_word_spec(haystack@, needle@),
{
    if needle.unicode_len() == 0 {
        return false;
    }
    let hay = chars_of(to_lowercase(haystack).as_str());
    let ndl = chars_of(to_lowercase(needle).as_str());
    if ndl.len() > hay.len() {
        return false;
    }
    let n = ndl.len();
    let hl = hay.len();
    let last = hl - n;
    let mut i: usize = 0;
    while i <= last
        invariant
            hay@ == lowercase(haystack@),
            ndl@ == lowercase(needle@),
            n == ndl@.len(),
            n > 0,
            needle@.len() > 0,
            hl == hay@.len(),
            last == hl - n,
            0 <= i <= last + 1,
            forall|k: int| 0 <= k < i ==> !word_at(hay@, ndl@, k),
        decreases last + 1 - i,
    {
        if crate::text::occurs_at_exec(&hay, &ndl, i) {
            let left_ok = i == 0 || !same_class_exec(hay[i - 1], ndl[0]);
            let right_ok = i + n == hl || !same_class_exec(hay[i + n], ndl[n - 1]);
            if left_ok && right_ok {
                assert(word_at(hay@, ndl@, i as int));
                assert(needle@.len() > 0);
                assert(exists|k: int| 0 <= k <= hay@.len() - ndl@.len() && word_at(hay@, ndl@, k));
                return true;
            }
        }
        i += 1;
    }
    false
}

/// For ASCII text, whole-word matching ignores letter case: texts and
/// needles that lowercase alike match alike.
pub proof fn law_contains_word_ignores_ascii_case(h1: Seq<char>, h2: Seq<char>, n1: Seq<char>, n2: Seq<char>)
    requires
        ascii_text(h1),
        ascii_text(h2),
        ascii_text(n1),
        ascii_text(n2),
        lower_seq(h1) == lower_seq(h2),
        lower_seq(n1) == lower_seq(n2),
    ensures
        contains_word_spec(h1, n1) == contains_word_spec(h2, n2),
{
    assert(lowercase(h1) == lowercase(h2));
    assert(lowercase(n1) == lowercase(n2));
    assert(n1.len() == lower_seq(n1).len());
    assert(n2.len() == lower_seq(n2).len());
    assert(n1.len() == n2.len());
}

/// A whole-word match needs a needle, and the lowercased needle occurs in
/// the lowercased text.
pub proof fn law_contains_word_needs_occurrence(haystack: Seq<char>, needle: Seq<char>)
    ensures
        contains_word_spec(haystack, needle) ==> needle.len() > 0 && crate::text::contains(
            lowercase(haystack),
            lowercase(needle),
        ),
{
    if contains_word_spec(haystack, needle) {
        let hay = lowercase(haystack);
        let ndl = lowercase(needle);
        let i = choose|i: int| 0 <= i <= hay.len() - ndl.len() && word_at(hay, ndl, i);
        assert(occurs_at(hay, ndl, i));
        crate::text::lemma_find_spec(hay, ndl, 0);
        assert(crate::text::find_from(hay, ndl, 0) is Some);
    }
}

/// The markers of an authorization-shaped failure.
pub open spec fn auth_markers() -> Seq<Seq<char>> {
    seq![
        "403"@,
        "401"@,
        "Unauthorized"@,
        "Forbidden"@,
        "AuthorizationPermissionMismatch"@,
        "AuthorizationFailure"@,
        "AuthorizationFailed"@,
        "not authorized"@,
        "AADSTS"@,
    ]
}

/// Does an error message look like an authorization failure rather than a
/// data problem? Markers match on word boundaries.
pub fn looks_like_auth(message: &str) -> (r: bool)
    ensures
        r == exists|i: int| 0 <= i < auth_markers().len() && contains_word_spec(message@, #[trigger] auth_markers()[i]),
{
    let markers: Vec<&str> = vec![
        "403",
        "401",
        "Unauthorized",
        "Forbidden",
        "AuthorizationPermissionMismatch",
        "AuthorizationFailure",
        "AuthorizationFailed",
        "not authorized",
        "AADSTS",
    ];
    assert(markers@.map_values(|m: &str| m@) =~= auth_markers());
    let mut i: usize = 0;
    while i < markers.len()
        invariant
            0 <= i <= markers@.len(),
            markers@.map_values(|m: &str| m@) == auth_markers(),
            forall|k: int| 0 <= k < i ==> !contains_word_spec(message@, #[trigger] auth_markers()[k]),
        decreases markers@.len() - i,
    {
        assert(auth_markers()[i as int] == markers@[i as int]@);
        if contains_word(message, markers[i]) {
            return true;
        }
        i += 1;
    }
    false
}

/// Where the requirement was found, as `<kind-dir>/<name>.json:<path>`
/// entries joined with `, ` (none when there are no sources).
pub open spec fn source_entry(s: Source) -> Seq<char> {
    s.kind.dir() + "/"@ + s.name@ + ".json:"@ + s.path@
}

/// The `files:` line of a report item.
pub fn source_line(sources: &Vec<Source>) -> (r: Option<String>)
    ensures
        sources@.len() == 0 ==> r is None,
        sources@.len() > 0 ==> (r matches Some(s) && s@ == crate::text::join(
            sources@.map_values(|s: Source| source_entry(s)),
            ", "@,
        )),
{
    if sources.len() == 0 {
        return None;
    }
    let mut entries: Vec<String> = Vec::new();
    let mut i: usize = 0;
    while i < sources.len()
        invariant
            0 <= i <= sources@.len(),
            entries@.len() == i,
            forall|k: int| 0 <= k < i ==> #[trigger] entries@[k]@ == source_entry(sources@[k]),
        decreases sources@.len() - i,
    {
        let s = &sources[i];
        let mut e = copy_str(s.kind.directory_name());
        push_str(&mut e, "/");
        push_str(&mut e, s.name.as_str());
        push_str(&mut e, ".json:");
        push_str(&mut e, s.path.as_str());
        entries.push(e);
        i += 1;
    }
    assert(crate::text::views(entries@) =~= sources@.map_values(|s: Source| source_entry(s)));
    Some(crate::text::join_strings(&entries, ", "))
}

// ---------------------------------------------------------------------------
// Indexer status
// ---------------------------------------------------------------------------

/// The `errorMessage` texts of a list of item errors, in order.
pub open spec fn error_texts(es: Seq<Json>) -> Seq<Seq<char>>
    decreases es.len(),
{
    if es.len() == 0 {
        Seq::empty()
    } else {
        let rest = error_texts(es.drop_last());
        match as_str(member(es.last(), "errorMessage"@)) {
            Some(m) => rest.push(m),
            None => rest,
        }
    }
}

/// The error of an indexer's last run, from its status document: `None`
/// when there is no `lastResult`, when its `status` is `success` (in any
/// letter case), or when it names no error; else its `errorMessage`
/// followed by each item error's, joined with `; `.
pub open spec fn last_result_error_spec(status: Json) -> Option<Seq<char>> {
    match member(status, "lastResult"@) {
        None => None,
        Some(last) => {
            let succeeded = match as_str(member(last, "status"@)) {
                Some(st) => lower_seq(st) == "success"@,
                None => false,
            };
            let first = match as_str(member(last, "errorMessage"@)) {
                Some(m) => seq![m],
                None => Seq::<Seq<char>>::empty(),
            };
            let errs = match member(last, "errors"@) {
                Some(Json::Arr(es)) => error_texts(es),
                _ => Seq::<Seq<char>>::empty(),
            };
            if succeeded || (first + errs).len() == 0 {
                None
            } else {
                Some(join(first + errs, "; "@))
            }
        },
    }
}

/// The error of an indexer's last run, read from its status document.
pub fn last_result_error(status: &JsonValue) -> (r: Option<String>)
    ensures
        match (r, last_result_error_spec(jv(*status))) {
            (Some(e), Some(t)) => e@ == t,
            (None, None) => true,
            _ => false,
        },
{
    let last = match get(status, "lastResult") {
        Some(l) => l,
        None => return None,
    };
    match str_member(last, "status") {
        Some(st) => {
            let success = chars_of("success");
            if seq_eq(&lower_vec(&chars_of(st)), &success) {
                return None;
            }
        },
        None => {},
    }
    let mut parts: Vec<String> = Vec::new();
    match str_member(last, "errorMessage") {
        Some(m) => {
            parts.push(copy_str(m));
            assert(views(parts@) =~= seq![m@]);
        },
        None => {
            assert(views(parts@) =~= Seq::<Seq<char>>::empty());
        },
    }
    let ghost first = views(parts@);
    match array_member(last, "errors") {
        Some(es) => {
            let ghost xs = items_of(es@);
            let mut i: usize = 0;
            while i < es.len()
                invariant
                    i <= es@.len(),
                    xs == items_of(es@),
                    views(parts@) == first + error_texts(xs.take(i as int)),
                decreases es@.len() - i,
            {
                assert(xs.take(i + 1).drop_last() =~= xs.take(i as int));
                assert(xs.take(i + 1).last() == jv(es@[i as int]));
                let ghost before = parts@;
                match str_member(&es[i], "errorMessage") {
                    Some(m) => {
                        parts.push(copy_str(m));
                        assert(views(parts@) =~= views(before).push(m@));
                    },
                    None => {},
                }
                assert(views(parts@) =~= first + error_texts(xs.take(i + 1)));
                i = i + 1;
            }
            assert(xs.take(es@.len() as int) =~= xs);
        },
        None => {
            assert(views(parts@) =~= first + Seq::<Seq<char>>::empty());
        },
    }
    if parts.len() == 0 {
        None
    } else {
        Some(join_strings(&parts, "; "))
    }
}

// ---------------------------------------------------------------------------
// Counting verdicts
// ---------------------------------------------------------------------------

/// How many items have a status of the given kind.
pub open spec fn count_status(items: Seq<ReportItem>, which: spec_fn(Status) -> bool) -> nat
    decreases items.len(),
{
    if items.len() == 0 {
        0
    } else {
        count_status(items.drop_last(), which) + if which(items.last().status) {
            1nat
        } else {
            0nat
        }
    }
}

/// A count never exceeds the number of items.
proof fn lemma_count_bounded(items: Seq<ReportItem>, which: spec_fn(Status) -> bool)
    ensures
        count_status(items, which) <= items.len(),
    decreases items.len(),
{
    if items.len() > 0 {
        lemma_count_bounded(items.drop_last(), which);
    }
}

/// The verdict counts of a list of items: how many are satisfied, missing
/// and unresolved (skipped and informational items count for nothing, and
/// live findings are counted elsewhere).
pub fn summarize(items: &Vec<ReportItem>) -> (s: Summary)
    ensures
        s.ok == count_status(items@, |st: Status| st is Satisfied),
        s.missing == count_status(items@, |st: Status| st is Missing),
        s.unresolved == count_status(items@, |st: Status| st is Unresolved),
        s.live == 0,
{
    let ghost ok = |st: Status| st is Satisfied;
    let ghost mi = |st: Status| st is Missing;
    let ghost un = |st: Status| st is Unresolved;
    let mut s = Summary { ok: 0, missing: 0, unresolved: 0, live: 0 };
    let mut i: usize = 0;
    while i < items.len()
        invariant
            i <= items@.len(),
            ok == (|st: Status| st is Satisfied),
            mi == (|st: Status| st is Missing),
            un == (|st: Status| st is Unresolved),
            s.ok == count_status(items@.take(i as int), ok),
            s.missing == count_status(items@.take(i as int), mi),
            s.unresolved == count_status(items@.take(i as int), un),
            s.live == 0,
        decreases items@.len() - i,
    {
        let ghost t = items@.take(i + 1);
        assert(t.drop_last() =~= items@.take(i as int));
        proof {
            lemma_count_bounded(items@.take(i as int), ok);
            lemma_count_bounded(items@.take(i as int), mi);
            lemma_count_bounded(items@.take(i as int), un);
        }
        match &items[i].status {
            Status::Satisfied => s.ok = s.ok + 1,
            Status::Missing => s.missing = s.missing + 1,
            Status::Unresolved => s.unresolved = s.unresolved + 1,
            _ => {},
        }
        i = i + 1;
    }
    assert(items@.take(items@.len() as int) =~= items@);
    s
}

// ---------------------------------------------------------------------------
// A fix as JSON
// ---------------------------------------------------------------------------

/// The members a fix's JSON adds to its kind and command.
pub open spec fn fix_members(f: Fix) -> Seq<(Seq<char>, Json)> {
    match f {
        Fix::RoleAssignment { scope, principal_id, principal_type, role, description } => seq![
            ("scope"@, Json::Str(scope@)),
            ("principal_id"@, Json::Str(principal_id@)),
            ("principal_type"@, Json::Str(principal_type@)),
            ("role"@, Json::Obj(seq![("id"@, Json::Str(role.id@)), ("name"@, Json::Str(role.name@))])),
            ("description"@, Json::Str(description@)),
        ],
        Fix::EnableSystemIdentity { resource_id, .. } => seq![("resource"@, Json::Str(resource_id@))],
        Fix::AttachUserAssignedIdentity { resource_id, uami_id, binding, .. } => seq![
            ("resource"@, Json::Str(resource_id@)),
            ("identity"@, Json::Str(uami_id@)),
            ("binding"@, Json::Str(binding@)),
        ],
        Fix::EnableRbac { search_id } => seq![("resource"@, Json::Str(search_id@))],
        Fix::BlobSoftDelete { account_id, days } => seq![
            ("resource"@, Json::Str(account_id@)),
            ("days"@, Json::Num(decimal(days as nat))),
        ],
        Fix::StorageBypassAzureServices { account_id } => seq![("resource"@, Json::Str(account_id@))],
        Fix::StorageResourceRule { account_id, search_id, .. } => seq![
            ("resource"@, Json::Str(account_id@)),
            ("admits"@, Json::Str(search_id@)),
        ],
    }
}

/// A fix as JSON: its kind, its `az` command, and what it acts on.
pub open spec fn fix_doc(f: Fix) -> Json {
    Json::Obj(seq![("kind"@, Json::Str(fix_kind(f))), ("command"@, Json::Str(fix_command(f)))] + fix_members(f))
}

/// A string member.
fn text_member(key: &str, value: &str) -> (e: (String, JsonValue))
    ensures
        e.0@ == key@,
        jv(e.1) == Json::Str(value@),
{
    (copy_str(key), JsonValue::Str(copy_str(value)))
}

impl Fix {
    /// This fix as JSON, for the machine-readable report.
    pub fn to_json(&self) -> (r: JsonValue)
        ensures
            jv(r) == fix_doc(*self),
    {
        let mut es: Vec<(String, JsonValue)> = Vec::new();
        es.push(text_member("kind", self.kind()));
        let c = self.command();
        es.push(text_member("command", c.as_str()));
        let ghost head = members_of(es@);
        match self {
            Fix::RoleAssignment { scope, principal_id, principal_type, role, description } => {
                es.push(text_member("scope", scope.as_str()));
                es.push(text_member("principal_id", principal_id.as_str()));
                es.push(text_member("principal_type", principal_type.as_str()));
                let mut r: Vec<(String, JsonValue)> = Vec::new();
                r.push(text_member("id", role.id));
                r.push(text_member("name", role.name));
                let rv = JsonValue::Object(r);
                proof {
                    lemma_jv_unfold(rv);
                    assert(members_of(r@) =~= seq![("id"@, Json::Str(role.id@)), ("name"@, Json::Str(role.name@))]);
                }
                es.push((copy_str("role"), rv));
                es.push(text_member("description", description.as_str()));
            },
            Fix::EnableSystemIdentity { resource_id, .. } => {
                es.push(text_member("resource", resource_id.as_str()));
            },
            Fix::AttachUserAssignedIdentity { resource_id, uami_id, binding, .. } => {
                es.push(text_member("resource", resource_id.as_str()));
                es.push(text_member("identity", uami_id.as_str()));
                es.push(text_member("binding", binding.as_str()));
            },
            Fix::EnableRbac { search_id } => {
                es.push(text_member("resource", search_id.as_str()));
            },
            Fix::BlobSoftDelete { account_id, days } => {
                es.push(text_member("resource", account_id.as_str()));
                es.push((copy_str("days"), JsonValue::Number(decimal_string(*days as usize))));
            },
            Fix::StorageBypassAzureServices { account_id } => {
                es.push(text_member("resource", account_id.as_str()));
            },
            Fix::StorageResourceRule { account_id, search_id, .. } => {
                es.push(text_member("resource", account_id.as_str()));
                es.push(text_member("admits", search_id.as_str()));
            },
        }
        let r = JsonValue::Object(es);
        proof {
            lemma_jv_unfold(r);
            assert(members_of(es@) =~= seq![("kind"@, Json::Str(fix_kind(*self))), ("command"@, Json::Str(fix_command(*self)))]
                + fix_members(*self));
        }
        r
    }
}

} // verus!
