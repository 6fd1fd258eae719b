//! The decisions behind several commands, apart from their I/O: what a diff
//! labels its two sides and which project its hint names, how `--only`
//! parses, what `env bind` is asked to do, whether an indexer reset may
//! proceed, what a permission hint says, what `copy` copies, and the role
//! list `ci init` prints.
use vstd::prelude::*;

use crate::auth::lowercase;
use crate::binding::{
    binding_name_problem, parse_binding, parse_binding_spec, valid_binding_name_spec,
    validate_binding_name, Binding, BindingType,
};
use crate::diff_output::DiffResult;
use crate::resources::{all_kinds, kind_for_dir, ResourceKind, ResourceRef, ServiceDomain};
use crate::sorting::{Ranked, ranked, sort_ranked, text_less, text_less_exec, lemma_text_order};
use crate::text::{chars_of, contains, copy_str, find, find_exec, lemma_find_spec, occurs_at, push_str, split_once, string_of_range};
use crate::workspace::{env_index, opt_str, selected_env_name, Environment, ResolvedEnv, Workspace, WorkspaceError};

verus! {

// ---------------------------------------------------------------------------
// Diff labels and hint
// ---------------------------------------------------------------------------

/// What the two sides of a diff are called.
#[derive(Debug)]
pub struct SideLabels {
    /// The side whose values are "new" (local files, or the first env).
    pub new_side: String,
    /// The side whose values are "old" (Azure, or the compared env).
    pub old_side: String,
}

/// The name `resolve_env` settles on for a selection, when it succeeds.
pub open spec fn resolved_name(ws: &Workspace, selected: Option<Seq<char>>, from_env: Option<Seq<char>>) -> Option<Seq<char>> {
    match selected_env_name(ws.config.environments@, selected, from_env) {
        Some(n) => if env_index(ws.config.environments@, n) is Some {
            Some(n)
        } else {
            None
        },
        None => None,
    }
}

/// Build the labels for the two sides of a diff: local against Azure by
/// default, or the two named environments with `--compare-env`. `env` is
/// the `--env` selection and `from_env` the `RIGG_ENV` value.
pub fn side_labels(
    ws: &Workspace,
    env: Option<&str>,
    compare_env: Option<&str>,
    from_env: Option<&str>,
) -> (r: Result<SideLabels, WorkspaceError>)
    ensures
        ({
            let b_sel = match opt_str(compare_env) {
                Some(c) => Some(c),
                None => opt_str(env),
            };
            let b = resolved_name(ws, b_sel, opt_str(from_env));
            let a = resolved_name(ws, opt_str(env), opt_str(from_env));
            match r {
                Ok(l) => b matches Some(bn) && if compare_env is Some {
                    a matches Some(an) && l.new_side@ == an && l.old_side@ == bn
                } else {
                    l.new_side@ == "local"@ && l.old_side@ == "Azure ("@ + bn + ")"@
                },
                Err(_) => b is None || (compare_env is Some && a is None),
            }
        }),
{
    let b_sel = match compare_env {
        Some(c) => Some(c),
        None => env,
    };
    let env_b = match ws.resolve_env(b_sel, from_env) {
        Ok(e) => e,
        Err(e) => return Err(e),
    };
    if compare_env.is_some() {
        let env_a = match ws.resolve_env(env, from_env) {
            Ok(e) => e,
            Err(e) => return Err(e),
        };
        Ok(SideLabels { new_side: env_a.name, old_side: env_b.name })
    } else {
        let mut old_side = copy_str("Azure (");
        push_str(&mut old_side, env_b.name.as_str());
        push_str(&mut old_side, ")");
        Ok(SideLabels { new_side: copy_str("local"), old_side })
    }
}

/// The project part of a drifted key `<project>/<kind>/<name>`.
pub open spec fn key_project(key: Seq<char>) -> Option<Seq<char>> {
    match split_once(key, "/"@) {
        Some((p, _)) => Some(p),
        None => None,
    }
}

/// The projects of the first `k` drifted keys, in order.
pub open spec fn drifted_projects(diffs: Seq<(String, DiffResult)>, k: int) -> Seq<Seq<char>>
    decreases k,
{
    if k <= 0 {
        Seq::empty()
    } else {
        let prev = drifted_projects(diffs, k - 1);
        if !diffs[k - 1].1.is_equal && key_project(diffs[k - 1].0@) is Some {
            prev.push(key_project(diffs[k - 1].0@)->Some_0)
        } else {
            prev
        }
    }
}

/// The `<project>` a post-diff hint names: the drifted project when every
/// drifted key names the same one, else the literal placeholder.
pub open spec fn drifted_project_hint_spec(diffs: Seq<(String, DiffResult)>) -> Seq<char> {
    let ps = drifted_projects(diffs, diffs.len() as int);
    if ps.len() > 0 && forall|i: int| 0 <= i < ps.len() ==> #[trigger] ps[i] == ps[0] {
        ps[0]
    } else {
        "<project>"@
    }
}

/// The project of a key, when it has a `/`.
fn project_of(key: &str) -> (r: Option<String>)
    ensures
        match (r, key_project(key@)) {
            (Some(a), Some(b)) => a@ == b,
            (None, None) => true,
            _ => false,
        },
{
    let v = chars_of(key);
    let slash = chars_of("/");
    match find_exec(&v, &slash) {
        Some(i) => {
            proof {
                lemma_find_spec(v@, slash@, 0);
                assert(occurs_at(v@, slash@, i as int));
            }
            Some(string_of_range(&v, 0, i))
        },
        None => None,
    }
}

/// Derive the `<project>` placeholder for the post-diff hint.
pub fn drifted_project_hint(diffs: &[(String, DiffResult)]) -> (r: String)
    ensures
        r@ == drifted_project_hint_spec(diffs@),
{
    let mut first: Option<String> = None;
    let mut same = true;
    let mut i: usize = 0;
    while i < diffs.len()
        invariant
            0 <= i <= diffs@.len(),
            ({
                let ps = drifted_projects(diffs@, i as int);
                &&& (first is None <==> ps.len() == 0)
                &&& first matches Some(f) ==> f@ == ps[0]
                &&& same == forall|k: int| 0 <= k < ps.len() ==> #[trigger] ps[k] == ps[0]
            }),
        decreases diffs@.len() - i,
    {
        let ghost prev = drifted_projects(diffs@, i as int);
        if !diffs[i].1.is_equal {
            match project_of(diffs[i].0.as_str()) {
                Some(p) => {
                    let ghost cur = drifted_projects(diffs@, i + 1);
                    assert(cur == prev.push(p@));
                    match &first {
                        None => {
                            first = Some(p);
                        },
                        Some(f) => {
                            if !crate::text::str_eq(f.as_str(), p.as_str()) {
                                same = false;
                            }
                            assert(same == forall|k: int| 0 <= k < cur.len() ==> #[trigger] cur[k] == cur[0]) by {
                                if !same {
                                    if f@ != p@ {
                                        assert(cur[cur.len() - 1] != cur[0]);
                                    } else {
                                        let k = choose|k: int| 0 <= k < prev.len() && #[trigger] prev[k] != prev[0];
                                        assert(cur[k] != cur[0]);
                                    }
                                } else {
                                    assert forall|k: int| 0 <= k < cur.len() implies #[trigger] cur[k] == cur[0] by {
                                        if k < prev.len() {
                                            assert(cur[k] == prev[k]);
                                        }
                                    }
                                }
                            }
                        },
                    }
                },
                None => {},
            }
        }
        i += 1;
    }
    match first {
        Some(f) => if same {
            f
        } else {
            copy_str("<project>")
        },
        None => copy_str("<project>"),
    }
}

/// What `--only <kind-dir>/<name>` names, or why it is refused.
pub open spec fn parse_only_spec(s: Seq<char>) -> Result<(ResourceKind, Seq<char>), Seq<char>> {
    match split_once(s, "/"@) {
        None => Err("--only takes <kind-dir>/<name> (e.g. indexes/my-index)"@),
        Some((dir, name)) => match kind_for_dir(dir) {
            None => Err("unknown resource kind directory '"@ + dir + "'"@),
            Some(k) => Ok((k, name)),
        },
    }
}

/// Parse `--only <kind-dir>/<name>`.
pub fn parse_only(s: &str) -> (r: Result<ResourceRef, String>)
    ensures
        match (r, parse_only_spec(s@)) {
            (Ok(rr), Ok((k, n))) => rr.kind == k && rr.name@ == n,
            (Err(e), Err(m)) => e@ == m,
            _ => false,
        },
{
    let v = chars_of(s);
    let slash = chars_of("/");
    let i = match find_exec(&v, &slash) {
        Some(i) => i,
        None => return Err(copy_str("--only takes <kind-dir>/<name> (e.g. indexes/my-index)")),
    };
    proof {
        lemma_find_spec(v@, slash@, 0);
        assert(occurs_at(v@, slash@, i as int));
    }
    let dir = string_of_range(&v, 0, i);
    let vl: usize = v.len();
    let sl: usize = slash.len();
    let name = string_of_range(&v, i + sl, vl);
    match ResourceKind::from_directory_name(dir.as_str()) {
        Some(k) => Ok(ResourceRef::new(k, name)),
        None => {
            let mut e = copy_str("unknown resource kind directory '");
            push_str(&mut e, dir.as_str());
            push_str(&mut e, "'");
            Err(e)
        },
    }
}

// ---------------------------------------------------------------------------
// env bind
// ---------------------------------------------------------------------------

/// What `rigg env bind` was asked to do.
#[derive(Debug)]
pub enum BindRequest {
    /// Propose bindings from the files.
    Learn,
    /// Record one binding.
    Bind { name: String, binding: Binding },
}

/// The usage line for a bind without a name and value.
pub open spec fn bind_usage() -> Seq<char> {
    "usage: rigg env bind <env> <name> <type>:<value> (or `rigg env bind <env> --learn`)"@
}

/// The refusal for `--learn` with a name or value.
pub open spec fn learn_with_args() -> Seq<char> {
    "`--learn` proposes bindings from the files; don't also pass a name and value"@
}

/// What `env bind` does with its arguments (see `bind_request`).
pub open spec fn bind_request_spec(name: Option<Seq<char>>, value: Option<Seq<char>>, learn: bool) -> Result<Option<(Seq<char>, BindingType, Seq<char>)>, Seq<char>> {
    if learn {
        if name is Some || value is Some {
            Err(learn_with_args())
        } else {
            Ok(None)
        }
    } else {
        match (name, value) {
            (Some(n), Some(spec)) => if !valid_binding_name_spec(n) {
                Err(binding_name_problem(n))
            } else {
                match parse_binding_spec(spec) {
                    Ok((k, v)) => Ok(Some((n, k, v))),
                    Err(e) => Err(e),
                }
            },
            _ => Err(bind_usage()),
        }
    }
}

/// Decide what `rigg env bind` does: learn, or record one validated
/// binding.
pub fn bind_request(name: Option<&str>, value: Option<&str>, learn: bool) -> (r: Result<BindRequest, String>)
    ensures
        match (r, bind_request_spec(opt_str(name), opt_str(value), learn)) {
            (Ok(BindRequest::Learn), Ok(None)) => true,
            (Ok(BindRequest::Bind { name: n, binding: b }), Ok(Some((sn, sk, sv)))) => n@ == sn && b.kind == sk
                && b.value@ == sv,
            (Err(e), Err(m)) => e@ == m,
            _ => false,
        },
{
    if learn {
        if name.is_some() || value.is_some() {
            return Err(copy_str(
                "`--learn` proposes bindings from the files; don't also pass a name and value",
            ));
        }
        return Ok(BindRequest::Learn);
    }
    match (name, value) {
        (Some(n), Some(spec)) => {
            if let Err(e) = validate_binding_name(n) {
                return Err(e);
            }
            match parse_binding(spec) {
                Ok(b) => Ok(BindRequest::Bind { name: copy_str(n), binding: b }),
                Err(e) => Err(e),
            }
        },
        _ => Err(copy_str(
            "usage: rigg env bind <env> <name> <type>:<value> (or `rigg env bind <env> --learn`)",
        )),
    }
}

// ---------------------------------------------------------------------------
// Indexer reset confirmation
// ---------------------------------------------------------------------------

/// Whether an indexer reset may proceed.
#[derive(Debug)]
pub enum ResetDecision {
    /// `--yes` was given.
    Proceed,
    /// Not interactive and not confirmed: refuse with this message.
    Refuse(String),
    /// Ask the user this question (default no).
    Ask(String),
}

/// Decide how a reset of indexer `name` is confirmed.
pub fn confirm_reset(yes: bool, interactive: bool, name: &str) -> (r: ResetDecision)
    ensures
        yes ==> r is Proceed,
        !yes && !interactive ==> (r matches ResetDecision::Refuse(m) && m@ == "resetting '"@ + name@
            + "' makes the next run reprocess EVERY document (ingestion, skill and embedding costs) \u{2014} pass --yes to confirm non-interactively"@),
        !yes && interactive ==> (r matches ResetDecision::Ask(q) && q@ == "Reset '"@ + name@
            + "'? The next run reprocesses EVERY document (ingestion, skill and embedding costs)."@),
{
    if yes {
        return ResetDecision::Proceed;
    }
    if !interactive {
        let mut m = copy_str("resetting '");
        push_str(&mut m, name);
        push_str(
            &mut m,
            "' makes the next run reprocess EVERY document (ingestion, skill and embedding costs) \u{2014} pass --yes to confirm non-interactively",
        );
        return ResetDecision::Refuse(m);
    }
    let mut q = copy_str("Reset '");
    push_str(&mut q, name);
    push_str(&mut q, "'? The next run reprocesses EVERY document (ingestion, skill and embedding costs).");
    ResetDecision::Ask(q)
}

// ---------------------------------------------------------------------------
// Permission hint
// ---------------------------------------------------------------------------

/// A failure message reads as a permission problem.
pub open spec fn permission_shaped(message: Seq<char>) -> bool {
    let m = lowercase(message);
    contains(m, "403"@) || contains(m, "access denied"@) || contains(m, "forbidden"@)
}

/// The context added to a permission failure: which role to grant.
pub open spec fn role_hint_text(role: Seq<char>) -> Seq<char> {
    "your signed-in identity needs the '"@ + role
        + "' role for this operation \u{2014} grant it (e.g. az role assignment create --assignee <your-upn> --role \""@
        + role + "\" --scope <resource-id>) and allow a few minutes to propagate"@
}

/// The hint to attach to a failure (its full message) when it reads as a
/// permission problem.
pub fn hint_user_role(message: &str, role: &str) -> (r: Option<String>)
    ensures
        permission_shaped(message@) ==> (r matches Some(h) && h@ == role_hint_text(role@)),
        !permission_shaped(message@) ==> r is None,
{
    let m = chars_of(crate::auth::to_lowercase(message).as_str());
    let a = chars_of("403");
    let b = chars_of("access denied");
    let c = chars_of("forbidden");
    if find_exec(&m, &a).is_some() || find_exec(&m, &b).is_some() || find_exec(&m, &c).is_some() {
        let mut h = copy_str("your signed-in identity needs the '");
        push_str(&mut h, role);
        push_str(
            &mut h,
            "' role for this operation \u{2014} grant it (e.g. az role assignment create --assignee <your-upn> --role \"",
        );
        push_str(&mut h, role);
        push_str(&mut h, "\" --scope <resource-id>) and allow a few minutes to propagate");
        Some(h)
    } else {
        None
    }
}

// ---------------------------------------------------------------------------
// copy
// ---------------------------------------------------------------------------

/// What a local copy copies.
#[derive(Clone, Copy, Debug, PartialEq, Eq, Structural)]
pub enum CopyTarget {
    /// A knowledge source with its managed sub-resources.
    KnowledgeSource,
    /// One resource of a kind.
    Standalone(ResourceKind),
}

/// What the kind flags of `rigg copy` select: the first flag set, in the
/// order the flags are listed.
pub open spec fn copy_target_spec(
    knowledgesource: bool,
    knowledgebase: bool,
    index: bool,
    indexer: bool,
    datasource: bool,
    skillset: bool,
    synonymmap: bool,
    alias: bool,
) -> Option<CopyTarget> {
    if knowledgesource {
        Some(CopyTarget::KnowledgeSource)
    } else if knowledgebase {
        Some(CopyTarget::Standalone(ResourceKind::KnowledgeBase))
    } else if index {
        Some(CopyTarget::Standalone(ResourceKind::Index))
    } else if indexer {
        Some(CopyTarget::Standalone(ResourceKind::Indexer))
    } else if datasource {
        Some(CopyTarget::Standalone(ResourceKind::DataSource))
    } else if skillset {
        Some(CopyTarget::Standalone(ResourceKind::Skillset))
    } else if synonymmap {
        Some(CopyTarget::Standalone(ResourceKind::SynonymMap))
    } else if alias {
        Some(CopyTarget::Standalone(ResourceKind::Alias))
    } else {
        None
    }
}

/// Decide what `rigg copy` copies from its kind flags, or refuse when none
/// is set.
pub fn run(
    knowledgesource: bool,
    knowledgebase: bool,
    index: bool,
    indexer: bool,
    datasource: bool,
    skillset: bool,
    synonymmap: bool,
    alias: bool,
) -> (r: Result<CopyTarget, String>)
    ensures
        match (r, copy_target_spec(knowledgesource, knowledgebase, index, indexer, datasource, skillset, synonymmap, alias)) {
            (Ok(t), Some(u)) => t == u,
            (Err(e), None) => e@ == "Specify a resource type (e.g., --knowledgesource, --index)"@,
            _ => false,
        },
{
    if knowledgesource {
        Ok(CopyTarget::KnowledgeSource)
    } else if knowledgebase {
        Ok(CopyTarget::Standalone(ResourceKind::KnowledgeBase))
    } else if index {
        Ok(CopyTarget::Standalone(ResourceKind::Index))
    } else if indexer {
        Ok(CopyTarget::Standalone(ResourceKind::Indexer))
    } else if datasource {
        Ok(CopyTarget::Standalone(ResourceKind::DataSource))
    } else if skillset {
        Ok(CopyTarget::Standalone(ResourceKind::Skillset))
    } else if synonymmap {
        Ok(CopyTarget::Standalone(ResourceKind::SynonymMap))
    } else if alias {
        Ok(CopyTarget::Standalone(ResourceKind::Alias))
    } else {
        Err(copy_str("Specify a resource type (e.g., --knowledgesource, --index)"))
    }
}

/// `s` with its first occurrence of `from` replaced by `to`
/// (`str::replacen(from, to, 1)`).
pub open spec fn replace_first_spec(s: Seq<char>, from: Seq<char>, to: Seq<char>) -> Seq<char> {
    match find(s, from) {
        None => s,
        Some(i) => s.subrange(0, i) + to + s.subrange(i + from.len(), s.len() as int),
    }
}

/// The name a managed sub-resource gets when its knowledge source is copied
/// from `source` to `target`: the first `source` in it becomes `target`.
pub fn renamed_managed(name: &str, source: &str, target: &str) -> (r: String)
    ensures
        r@ == replace_first_spec(name@, source@, target@),
{
    let v = chars_of(name);
    let s = chars_of(source);
    match find_exec(&v, &s) {
        None => copy_str(name),
        Some(i) => {
            proof {
                lemma_find_spec(v@, s@, 0);
                assert(occurs_at(v@, s@, i as int));
            }
            let vl: usize = v.len();
            let sl: usize = s.len();
            let mut r = string_of_range(&v, 0, i);
            push_str(&mut r, target);
            push_str(&mut r, string_of_range(&v, i + sl, vl).as_str());
            r
        },
    }
}

// ---------------------------------------------------------------------------
// ci init: the role list
// ---------------------------------------------------------------------------

/// One line of the printed role list.
#[derive(Debug)]
pub struct RoleLine {
    pub role: String,
    /// The role definition GUID.
    pub role_id: String,
    pub scope: String,
    /// True for a role the CI identity must be able to grant rather than
    /// hold itself.
    pub grant: bool,
}

impl RoleLine {
    /// `<guid>  # <display name>`: the form a caller can paste into `--role`.
    pub fn display(&self) -> (s: String)
        ensures
            s@ == self.role_id@ + "  # "@ + self.role@,
    {
        let mut s = self.role_id.clone();
        push_str(&mut s, "  # ");
        push_str(&mut s, self.role.as_str());
        s
    }
}

/// A role line as plain values: role, role id, scope, grant.
pub type RoleRow = (Seq<char>, Seq<char>, Seq<char>, bool);

/// The role lines as plain values.
pub open spec fn role_rows(ls: Seq<RoleLine>) -> Seq<RoleRow> {
    ls.map_values(|l: RoleLine| (l.role@, l.role_id@, l.scope@, l.grant))
}

/// A grant line that repeats an earlier grant of the same role and scope.
pub open spec fn repeats_grant(rows: Seq<RoleRow>, g: RoleRow) -> bool {
    exists|i: int| 0 <= i < rows.len() && (#[trigger] rows[i]).0 == g.0 && rows[i].2 == g.2 && rows[i].3
}

/// The rows after adding the first `k` grants, each only when no grant line
/// for the same role and scope is already listed.
pub open spec fn with_grants(rows: Seq<RoleRow>, grants: Seq<(Seq<char>, Seq<char>, Seq<char>)>, k: int) -> Seq<RoleRow>
    decreases k,
{
    if k <= 0 {
        rows
    } else {
        let prev = with_grants(rows, grants, k - 1);
        let g = (grants[k - 1].0, grants[k - 1].1, grants[k - 1].2, true);
        if repeats_grant(prev, g) {
            prev
        } else {
            prev.push(g)
        }
    }
}

/// A role requirement as plain values: role name, role id, scope.
pub open spec fn role_triples(v: Seq<(String, String, String)>) -> Seq<(Seq<char>, Seq<char>, Seq<char>)> {
    v.map_values(|x: (String, String, String)| (x.0@, x.1@, x.2@))
}

/// The roles a CI identity needs: every operator role it holds itself,
/// then every role it must be able to grant, each role and scope once.
/// Each entry is `(role name, role id, rendered scope)`.
pub fn role_lines(
    operator: &Vec<(String, String, String)>,
    grants: &Vec<(String, String, String)>,
) -> (lines: Vec<RoleLine>)
    ensures
        role_rows(lines@) == with_grants(
            role_triples(operator@).map_values(|t: (Seq<char>, Seq<char>, Seq<char>)| (t.0, t.1, t.2, false)),
            role_triples(grants@),
            grants@.len() as int,
        ),
{
    let mut lines: Vec<RoleLine> = Vec::new();
    let mut i: usize = 0;
    while i < operator.len()
        invariant
            0 <= i <= operator@.len(),
            lines@.len() == i,
            forall|k: int| 0 <= k < i ==> {
                &&& (#[trigger] lines@[k]).role@ == operator@[k].0@
                &&& lines@[k].role_id@ == operator@[k].1@
                &&& lines@[k].scope@ == operator@[k].2@
                &&& !lines@[k].grant
            },
        decreases operator@.len() - i,
    {
        let e = &operator[i];
        lines.push(RoleLine { role: e.0.clone(), role_id: e.1.clone(), scope: e.2.clone(), grant: false });
        i += 1;
    }
    let ghost base = role_triples(operator@).map_values(
        |t: (Seq<char>, Seq<char>, Seq<char>)| (t.0, t.1, t.2, false),
    );
    assert(role_rows(lines@) =~= base);
    let mut j: usize = 0;
    while j < grants.len()
        invariant
            0 <= j <= grants@.len(),
            role_rows(lines@) == with_grants(base, role_triples(grants@), j as int),
        decreases grants@.len() - j,
    {
        let g = &grants[j];
        let mut dup = false;
        let mut k: usize = 0;
        while k < lines.len()
            invariant
                0 <= k <= lines@.len(),
                dup == exists|m: int| 0 <= m < k && (#[trigger] role_rows(lines@)[m]).0 == g.0@ && role_rows(lines@)[m].2 == g.2@
                    && role_rows(lines@)[m].3,
            decreases lines@.len() - k,
        {
            if lines[k].grant && crate::text::str_eq(lines[k].role.as_str(), g.0.as_str())
                && crate::text::str_eq(lines[k].scope.as_str(), g.2.as_str()) {
                dup = true;
            }
            assert(role_rows(lines@)[k as int] == (lines@[k as int].role@, lines@[k as int].role_id@, lines@[k as int].scope@, lines@[k as int].grant));
            k += 1;
        }
        if !dup {
            let ghost before = role_rows(lines@);
            lines.push(RoleLine { role: g.0.clone(), role_id: g.1.clone(), scope: g.2.clone(), grant: true });
            assert(role_rows(lines@) =~= before.push((g.0@, g.1@, g.2@, true)));
        }
        j += 1;
    }
    lines
}

// ---------------------------------------------------------------------------
// The kinds the CI workflows push
// ---------------------------------------------------------------------------

/// Kinds are ordered by directory name.
impl Ranked for ResourceKind {
    open spec fn precedes(&self, other: &Self) -> bool {
        text_less(self.dir(), other.dir())
    }

    proof fn lemma_order(a: Self, b: Self, c: Self) {
        lemma_text_order(a.dir(), b.dir(), c.dir());
    }

    fn precedes_exec(&self, other: &Self) -> (r: bool) {
        text_less_exec(self.directory_name(), other.directory_name())
    }
}

/// `ks` with each run of repeated entries cut to its first (`Vec::dedup`).
pub open spec fn dedup_runs(ks: Seq<ResourceKind>) -> Seq<ResourceKind>
    decreases ks.len(),
{
    if ks.len() <= 1 {
        ks
    } else if ks.last() == ks[ks.len() - 2] {
        dedup_runs(ks.drop_last())
    } else {
        dedup_runs(ks.drop_last()).push(ks.last())
    }
}

/// Whether an environment with the given services serves kind `k`.
pub open spec fn is_served(k: ResourceKind, has_search: bool, has_foundry: bool) -> bool {
    match k.domain_spec() {
        ServiceDomain::Search => has_search,
        ServiceDomain::Foundry => has_foundry,
    }
}

/// The kinds among `ks` an environment with the given services serves.
pub open spec fn keep_served(ks: Seq<ResourceKind>, has_search: bool, has_foundry: bool) -> Seq<ResourceKind>
    decreases ks.len(),
{
    if ks.len() == 0 {
        Seq::empty()
    } else {
        keep_served(ks.drop_last(), has_search, has_foundry) + if is_served(ks.last(), has_search, has_foundry) {
            seq![ks.last()]
        } else {
            Seq::empty()
        }
    }
}

/// The kinds an environment has a service for: Search kinds when it has a
/// search service, Foundry kinds when it has a Foundry project.
pub open spec fn served_kinds(has_search: bool, has_foundry: bool) -> Seq<ResourceKind> {
    keep_served(all_kinds(), has_search, has_foundry)
}

/// The kinds the workflows push: those of the environment's documents, by
/// directory name, each once; without documents, every kind the
/// environment has a service for.
pub open spec fn pushed_kinds(env: Environment, doc_kinds: Seq<ResourceKind>) -> Seq<ResourceKind> {
    if doc_kinds.len() > 0 {
        dedup_runs(ranked(doc_kinds))
    } else {
        served_kinds(env.search is Some, env.foundry is Some)
    }
}

/// The kinds the workflows will push, given the kinds of the environment's
/// documents.
pub fn kinds_for(env: &ResolvedEnv, doc_kinds: &Vec<ResourceKind>) -> (r: Vec<ResourceKind>)
    ensures
        r@ == pushed_kinds(env.env, doc_kinds@),
{
    if doc_kinds.len() > 0 {
        let mut ks: Vec<ResourceKind> = Vec::new();
        let mut i: usize = 0;
        while i < doc_kinds.len()
            invariant
                i <= doc_kinds@.len(),
                ks@ == doc_kinds@.take(i as int),
            decreases doc_kinds@.len() - i,
        {
            ks.push(doc_kinds[i]);
            assert(doc_kinds@.take(i + 1) =~= doc_kinds@.take(i as int).push(doc_kinds@[i as int]));
            i += 1;
        }
        assert(doc_kinds@.take(doc_kinds@.len() as int) =~= doc_kinds@);
        sort_ranked(&mut ks);
        let ghost sorted = ks@;
        let mut out: Vec<ResourceKind> = Vec::new();
        let mut j: usize = 0;
        while j < ks.len()
            invariant
                j <= ks@.len(),
                ks@ == sorted,
                out@ == dedup_runs(sorted.take(j as int)),
            decreases ks@.len() - j,
        {
            proof {
                assert(sorted.take(j + 1).drop_last() =~= sorted.take(j as int));
                if j >= 1 {
                    assert(sorted.take(j + 1)[j - 1] == sorted[j - 1]);
                }
            }
            if j == 0 || ks[j] != ks[j - 1] {
                out.push(ks[j]);
                proof {
                    if j == 0 {
                        assert(sorted.take(1) =~= seq![sorted[0]]);
                        assert(out@ =~= seq![sorted[0]]);
                    }
                }
            }
            j += 1;
        }
        assert(sorted.take(sorted.len() as int) =~= sorted);
        return out;
    }
    let all = ResourceKind::all();
    let has_search = env.env.search.is_some();
    let has_foundry = env.env.foundry.is_some();
    let mut out: Vec<ResourceKind> = Vec::new();
    let mut i: usize = 0;
    while i < all.len()
        invariant
            i <= all@.len(),
            all@ == all_kinds(),
            has_search == env.env.search is Some,
            has_foundry == env.env.foundry is Some,
            out@ == keep_served(all_kinds().take(i as int), has_search, has_foundry),
        decreases all@.len() - i,
    {
        let k = all[i];
        let keep = match k.domain() {
            ServiceDomain::Search => has_search,
            ServiceDomain::Foundry => has_foundry,
        };
        if keep {
            out.push(k);
        }
        assert(all_kinds().take(i + 1).drop_last() =~= all_kinds().take(i as int));
        i += 1;
    }
    assert(all_kinds().take(all_kinds().len() as int) =~= all_kinds());
    out
}

} // verus!
