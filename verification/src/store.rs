//! Project file-store rules: where a resource file lives, which project
//! owns a resource, and how local, remote and baseline states classify.
//!
//! Layout inside a project directory:
//! `projects/<name>/envs/<env>/{search,foundry}/<kind-dir>/<resource-stem>.json`.
use vstd::prelude::*;
use vstd::string::StringSliceAdditionalSpecFns;

use crate::resources::{ResourceKind, ResourceRef, ServiceDomain};
use crate::text::{copy_str, str_eq};
use crate::workspace::{join_path, path_join, Project};

verus! {

// ---------------------------------------------------------------------------
// Errors
// ---------------------------------------------------------------------------

/// Why a project tree (or a set of project trees) is inconsistent.
#[derive(Debug)]
pub enum StoreError {
    /// A file whose physical name is not a valid resource name.
    BadName { path: String, message: String },
    /// Two files of one kind directory define the same physical name.
    DuplicatePhysicalName { name: String, first: String, second: String },
    /// Two projects of one environment define the same resource.
    DuplicateOwnership { reference: String, first: String, second: String },
}

// ---------------------------------------------------------------------------
// Paths
// ---------------------------------------------------------------------------

/// The directory of a project that holds one tree per environment.
pub open spec fn envs_dir() -> Seq<char> {
    "envs"@
}

/// File store for one project, rooted at one environment's tree.
pub struct Store<'w> {
    project: &'w Project,
    env: String,
}

impl<'w> Store<'w> {
    /// The project this store reads.
    pub closed spec fn project_spec(&self) -> &'w Project {
        self.project
    }

    /// The environment this store reads.
    pub closed spec fn env_spec(&self) -> Seq<char> {
        self.env@
    }

    pub fn new(project: &'w Project, env: &str) -> (s: Self)
        ensures
            s.project_spec() == project,
            s.env_spec() == env@,
    {
        Store { project, env: copy_str(env) }
    }

    pub fn project(&self) -> (p: &Project)
        ensures
            p == self.project_spec(),
    {
        self.project
    }

    pub fn env(&self) -> (e: &str)
        ensures
            e@ == self.env_spec(),
    {
        self.env.as_str()
    }

    /// `<project>/envs/<env>`.
    pub open spec fn root_spec(&self) -> Seq<char> {
        path_join(path_join(self.project_spec().dir@, envs_dir()), self.env_spec())
    }

    /// Root of this store's environment tree: `<project>/envs/<env>`.
    pub fn root(&self) -> (p: String)
        ensures
            p@ == self.root_spec(),
    {
        let envs = join_path(self.project.dir.as_str(), "envs");
        join_path(envs.as_str(), self.env.as_str())
    }

    /// The directory of a service domain inside an environment tree.
    pub fn domain_dir(domain: ServiceDomain) -> (d: &'static str)
        ensures
            d@ == domain_dir_spec(domain),
    {
        match domain {
            ServiceDomain::Search => "search",
            ServiceDomain::Foundry => "foundry",
        }
    }

    /// `<root>/<domain>/<kind-dir>`.
    pub open spec fn kind_dir_spec(&self, kind: ResourceKind) -> Seq<char> {
        path_join(path_join(self.root_spec(), domain_dir_spec(kind.domain_spec())), kind.dir())
    }

    /// The directory holding the files of one kind.
    pub fn kind_dir(&self, kind: ResourceKind) -> (p: String)
        ensures
            p@ == self.kind_dir_spec(kind),
    {
        let root = self.root();
        let d = join_path(root.as_str(), Self::domain_dir(kind.domain()));
        join_path(d.as_str(), kind.directory_name())
    }

    /// Path for a NEW resource file: the physical name becomes the filename.
    pub fn path_for(&self, r: &ResourceRef) -> (p: String)
        ensures
            p@ == path_join(self.kind_dir_spec(r.kind), r.name@ + ".json"@),
    {
        let dir = self.kind_dir(r.kind);
        let mut file = copy_str(r.name.as_str());
        crate::text::push_str(&mut file, ".json");
        join_path(dir.as_str(), file.as_str())
    }
}

/// The directory name of a service domain.
pub open spec fn domain_dir_spec(d: ServiceDomain) -> Seq<char> {
    match d {
        ServiceDomain::Search => "search"@,
        ServiceDomain::Foundry => "foundry"@,
    }
}

// ---------------------------------------------------------------------------
// One kind directory: physical names must be unique
// ---------------------------------------------------------------------------

/// One file of a kind directory: its path and its physical name (the `name`
/// field, or the file stem when absent).
pub struct KindEntry {
    pub path: String,
    pub name: String,
}

/// The first index `j` whose name repeats an earlier entry's, if any.
pub open spec fn first_repeat(names: Seq<Seq<char>>, from: int) -> Option<int>
    decreases names.len() - from,
{
    if from < 0 || from >= names.len() {
        None
    } else if exists|i: int| 0 <= i < from && names[i] == names[from] {
        Some(from)
    } else {
        first_repeat(names, from + 1)
    }
}

/// The names of a kind directory's entries.
pub open spec fn entry_names(es: Seq<KindEntry>) -> Seq<Seq<char>> {
    es.map_values(|e: KindEntry| e.name@)
}

proof fn lemma_first_repeat_none(names: Seq<Seq<char>>, from: int)
    requires
        0 <= from,
        forall|j: int, i: int| from <= j < names.len() && 0 <= i < j ==> names[i] != names[j],
    ensures
        first_repeat(names, from) is None,
    decreases names.len() - from,
{
    if from < names.len() {
        lemma_first_repeat_none(names, from + 1);
    }
}

proof fn lemma_first_repeat_some(names: Seq<Seq<char>>, from: int, j: int)
    requires
        0 <= from <= j < names.len(),
        exists|i: int| 0 <= i < j && names[i] == names[j],
        forall|jj: int, i: int| from <= jj < j && 0 <= i < jj ==> names[i] != names[jj],
    ensures
        first_repeat(names, from) == Some(j),
    decreases j - from,
{
    if from < j {
        lemma_first_repeat_some(names, from + 1, j);
    }
}

/// Index of the first entry named `x` among the first `n` entries.
fn find_name(es: &Vec<KindEntry>, n: usize, x: &String) -> (r: Option<usize>)
    requires
        n <= es@.len(),
    ensures
        r matches Some(i) ==> i < n && es@[i as int].name@ == x@ && forall|k: int|
            0 <= k < i ==> es@[k].name@ != x@,
        r is None ==> forall|k: int| 0 <= k < n ==> es@[k].name@ != x@,
{
    let mut i: usize = 0;
    while i < n
        invariant
            n <= es@.len(),
            0 <= i <= n,
            forall|k: int| 0 <= k < i ==> es@[k].name@ != x@,
        decreases n - i,
    {
        if str_eq(es[i].name.as_str(), x.as_str()) {
            return Some(i);
        }
        i += 1;
    }
    None
}

/// Check one kind directory's listing (sorted by path): each physical name
/// must be a valid resource name, and no two files may share one.
pub fn check_kind_entries(es: &Vec<KindEntry>) -> (r: Result<(), StoreError>)
    ensures
        r is Ok <==> (forall|i: int| 0 <= i < es@.len() ==> crate::resources::valid_resource_name_spec(#[trigger] es@[i].name@))
            && first_repeat(entry_names(es@), 0) is None,
        r matches Err(StoreError::DuplicatePhysicalName { name, first, second }) ==> {
            let names = entry_names(es@);
            &&& first_repeat(names, 0) matches Some(j)
            &&& name@ == es@[j].name@
            &&& second@ == es@[j].path@
            &&& exists|i: int| 0 <= i < j && names[i] == names[j] && first@ == es@[i].path@
                && forall|k: int| 0 <= k < i ==> names[k] != names[j]
        },
        r matches Err(StoreError::BadName { path, message }) ==> exists|i: int|
            0 <= i < es@.len() && path@ == es@[i].path@ && !crate::resources::valid_resource_name_spec(es@[i].name@)
                && message@ == crate::resources::resource_name_problem(es@[i].name@),
        !(r matches Err(StoreError::DuplicateOwnership { .. })),
{
    let ghost names = entry_names(es@);
    let mut j: usize = 0;
    while j < es.len()
        invariant
            names == entry_names(es@),
            0 <= j <= es@.len(),
            forall|i: int| 0 <= i < j ==> crate::resources::valid_resource_name_spec(#[trigger] es@[i].name@),
            forall|jj: int, i: int| 0 <= jj < j && 0 <= i < jj ==> names[i] != names[jj],
        decreases es@.len() - j,
    {
        if let Err(e) = crate::resources::validate_resource_name(es[j].name.as_str()) {
            return Err(StoreError::BadName { path: es[j].path.clone(), message: e });
        }
        match find_name(es, j, &es[j].name) {
            Some(i) => {
                proof {
                    assert(names[i as int] == names[j as int]);
                    lemma_first_repeat_some(names, 0, j as int);
                    assert forall|k: int| 0 <= k < i implies names[k] != names[j as int] by {
                        assert(es@[k].name@ != es@[j as int].name@);
                    }
                }
                return Err(StoreError::DuplicatePhysicalName {
                    name: es[j].name.clone(),
                    first: es[i].path.clone(),
                    second: es[j].path.clone(),
                });
            },
            None => {},
        }
        j += 1;
    }
    proof {
        lemma_first_repeat_none(names, 0);
    }
    Ok(())
}

// ---------------------------------------------------------------------------
// Exclusive ownership across projects
// ---------------------------------------------------------------------------

/// The resources one project lists in an environment.
pub struct ProjectListing {
    pub project: String,
    pub resources: Vec<ResourceRef>,
}

/// One ownership claim: a resource key and the project claiming it.
pub struct Claim {
    pub key: String,
    pub project: String,
}

/// The claims of a project listing, in listing order.
pub open spec fn claims_of(l: ProjectListing) -> Seq<(Seq<char>, Seq<char>)> {
    l.resources@.map_values(|r: ResourceRef| (r.key_spec(), l.project@))
}

/// Every claim of every project, projects in order.
pub open spec fn all_claims(ls: Seq<ProjectListing>) -> Seq<(Seq<char>, Seq<char>)>
    decreases ls.len(),
{
    if ls.len() == 0 {
        Seq::empty()
    } else {
        all_claims(ls.drop_last()) + claims_of(ls.last())
    }
}

/// The keys of a claim sequence.
pub open spec fn claim_keys(cs: Seq<(Seq<char>, Seq<char>)>) -> Seq<Seq<char>> {
    cs.map_values(|c: (Seq<char>, Seq<char>)| c.0)
}

/// The claims held in a claim vector.
pub open spec fn claim_views(cs: Seq<Claim>) -> Seq<(Seq<char>, Seq<char>)> {
    cs.map_values(|c: Claim| (c.key@, c.project@))
}

/// Every claim of every project, in order.
pub fn collect_claims(ls: &Vec<ProjectListing>) -> (out: Vec<Claim>)
    ensures
        claim_views(out@) == all_claims(ls@),
{
    let mut out: Vec<Claim> = Vec::new();
    let mut p: usize = 0;
    while p < ls.len()
        invariant
            0 <= p <= ls@.len(),
            claim_views(out@) == all_claims(ls@.subrange(0, p as int)),
        decreases ls@.len() - p,
    {
        let l = &ls[p];
        let ghost before = claim_views(out@);
        let mut k: usize = 0;
        while k < l.resources.len()
            invariant
                0 <= k <= l.resources@.len(),
                claim_views(out@) == before + claims_of(*l).subrange(0, k as int),
            decreases l.resources@.len() - k,
        {
            let key = l.resources[k].key();
            let ghost old_out = out@;
            out.push(Claim { key, project: l.project.clone() });
            assert(claim_views(out@) =~= claim_views(old_out).push(claims_of(*l)[k as int]));
            assert(claims_of(*l).subrange(0, k + 1) =~= claims_of(*l).subrange(0, k as int).push(
                claims_of(*l)[k as int],
            ));
            assert(claim_views(out@) =~= before + claims_of(*l).subrange(0, k + 1));
            k += 1;
        }
        proof {
            assert(claims_of(*l).subrange(0, l.resources@.len() as int) =~= claims_of(*l));
            let s = ls@.subrange(0, p + 1);
            assert(s.drop_last() =~= ls@.subrange(0, p as int));
            assert(s.last() == *l);
        }
        p += 1;
    }
    assert(ls@.subrange(0, ls@.len() as int) =~= ls@);
    out
}

fn find_key(cs: &Vec<Claim>, n: usize, x: &String) -> (r: Option<usize>)
    requires
        n <= cs@.len(),
    ensures
        r matches Some(i) ==> i < n && cs@[i as int].key@ == x@ && forall|k: int|
            0 <= k < i ==> cs@[k].key@ != x@,
        r is None ==> forall|k: int| 0 <= k < n ==> cs@[k].key@ != x@,
{
    let mut i: usize = 0;
    while i < n
        invariant
            n <= cs@.len(),
            0 <= i <= n,
            forall|k: int| 0 <= k < i ==> cs@[k].key@ != x@,
        decreases n - i,
    {
        if str_eq(cs[i].key.as_str(), x.as_str()) {
            return Some(i);
        }
        i += 1;
    }
    None
}

/// Enforce exclusive ownership: a resource may appear in only one project
/// of an environment. `listings` holds, project by project, the resources
/// each project's tree for that environment defines.
///
/// On a repeat, the error names the resource, the project that claimed it
/// first and the project that claimed it again.
pub fn assert_exclusive_ownership(listings: &Vec<ProjectListing>) -> (r: Result<(), StoreError>)
    ensures
        r is Ok <==> first_repeat(claim_keys(all_claims(listings@)), 0) is None,
        r matches Err(e) ==> e matches StoreError::DuplicateOwnership { reference, first, second } && {
            let cs = all_claims(listings@);
            let keys = claim_keys(cs);
            &&& first_repeat(keys, 0) matches Some(j)
            &&& reference@ == keys[j]
            &&& second@ == cs[j].1
            &&& exists|i: int| 0 <= i < j && keys[i] == keys[j] && first@ == cs[i].1
                && forall|k: int| 0 <= k < i ==> keys[k] != keys[j]
        },
{
    let cs = collect_claims(listings);
    let ghost keys = claim_keys(all_claims(listings@));
    assert(keys =~= cs@.map_values(|c: Claim| c.key@));
    let mut j: usize = 0;
    while j < cs.len()
        invariant
            keys == cs@.map_values(|c: Claim| c.key@),
            claim_views(cs@) == all_claims(listings@),
            0 <= j <= cs@.len(),
            forall|jj: int, i: int| 0 <= jj < j && 0 <= i < jj ==> keys[i] != keys[jj],
        decreases cs@.len() - j,
    {
        match find_key(&cs, j, &cs[j].key) {
            Some(i) => {
                proof {
                    assert(keys[i as int] == keys[j as int]);
                    lemma_first_repeat_some(keys, 0, j as int);
                    assert forall|k: int| 0 <= k < i implies keys[k] != keys[j as int] by {
                        assert(cs@[k].key@ != cs@[j as int].key@);
                    }
                    assert(claim_views(cs@)[i as int] == (cs@[i as int].key@, cs@[i as int].project@));
                    assert(claim_views(cs@)[j as int] == (cs@[j as int].key@, cs@[j as int].project@));
                    let ac = all_claims(listings@);
                    assert(first_repeat(keys, 0) == Some(j as int));
                    assert(keys[j as int] == cs@[j as int].key@);
                    assert(ac[j as int].1 == cs@[j as int].project@);
                    assert(ac[i as int].1 == cs@[i as int].project@);
                    assert(claim_keys(ac) == keys);
                }
                return Err(StoreError::DuplicateOwnership {
                    reference: cs[j].key.clone(),
                    first: cs[i].project.clone(),
                    second: cs[j].project.clone(),
                });
            },
            None => {},
        }
        j += 1;
    }
    proof {
        lemma_first_repeat_none(keys, 0);
    }
    Ok(())
}

/// Law (exclusive ownership): when the check passes, no resource key is
/// claimed twice — in particular never by two different projects.
pub proof fn law_ownership_is_exclusive(listings: Seq<ProjectListing>, i: int, j: int)
    requires
        first_repeat(claim_keys(all_claims(listings)), 0) is None,
        0 <= i < j < all_claims(listings).len(),
    ensures
        all_claims(listings)[i].0 != all_claims(listings)[j].0,
{
    let keys = claim_keys(all_claims(listings));
    lemma_first_repeat_none_means_distinct(keys, 0, i, j);
}

proof fn lemma_first_repeat_none_means_distinct(names: Seq<Seq<char>>, from: int, i: int, j: int)
    requires
        0 <= from <= j,
        0 <= i < j < names.len(),
        first_repeat(names, from) is None,
    ensures
        names[i] != names[j],
    decreases j - from,
{
    if from < j {
        lemma_first_repeat_none_means_distinct(names, from + 1, i, j);
    }
}

// ---------------------------------------------------------------------------
// Sync classification
// ---------------------------------------------------------------------------

/// Sync classification of one resource.
#[derive(Clone, Copy, Debug, PartialEq, Eq, Structural)]
pub enum SyncClass {
    /// Local, remote and baseline all agree.
    InSync,
    /// Local changed since last sync; remote unchanged.
    LocalAhead,
    /// Remote changed since last sync; local unchanged.
    RemoteAhead,
    /// Both changed since last sync.
    Conflict,
    /// Exists locally, not remotely.
    LocalOnly,
    /// Exists remotely, not locally.
    RemoteOnly,
    /// No baseline; local and remote both exist but differ (never synced).
    Untracked,
}

/// The class of a resource from the checksums of its baseline, local and
/// remote documents (each absent when there is none).
pub open spec fn classify_spec(
    baseline: Option<Seq<char>>,
    local: Option<Seq<char>>,
    remote: Option<Seq<char>>,
) -> SyncClass {
    match (local, remote) {
        (None, None) => SyncClass::InSync,
        (Some(_), None) => SyncClass::LocalOnly,
        (None, Some(_)) => SyncClass::RemoteOnly,
        (Some(l), Some(r)) => match baseline {
            None => if l == r {
                SyncClass::InSync
            } else {
                SyncClass::Untracked
            },
            Some(b) => {
                let local_changed = l != b;
                let remote_changed = r != b;
                if !local_changed && !remote_changed {
                    SyncClass::InSync
                } else if local_changed && !remote_changed {
                    SyncClass::LocalAhead
                } else if !local_changed && remote_changed {
                    SyncClass::RemoteAhead
                } else if l == r {
                    SyncClass::InSync
                } else {
                    SyncClass::Conflict
                }
            },
        },
    }
}

/// The view of an optional checksum.
pub open spec fn opt_view(o: Option<&str>) -> Option<Seq<char>> {
    match o {
        Some(s) => Some(s@),
        None => None,
    }
}

/// Classify a resource from its baseline, local and remote checksums.
pub fn classify_sums(baseline: Option<&str>, local: Option<&str>, remote: Option<&str>) -> (c:
    SyncClass)
    ensures
        c == classify_spec(opt_view(baseline), opt_view(local), opt_view(remote)),
{
    match (local, remote) {
        (None, None) => SyncClass::InSync,
        (Some(_), None) => SyncClass::LocalOnly,
        (None, Some(_)) => SyncClass::RemoteOnly,
        (Some(l), Some(r)) => match baseline {
            None => if str_eq(l, r) {
                SyncClass::InSync
            } else {
                SyncClass::Untracked
            },
            Some(b) => {
                let local_changed = !str_eq(l, b);
                let remote_changed = !str_eq(r, b);
                if !local_changed && !remote_changed {
                    SyncClass::InSync
                } else if local_changed && !remote_changed {
                    SyncClass::LocalAhead
                } else if !local_changed && remote_changed {
                    SyncClass::RemoteAhead
                } else if str_eq(l, r) {
                    SyncClass::InSync
                } else {
                    SyncClass::Conflict
                }
            },
        },
    }
}

/// The class seen from the other side: local and remote trade places.
pub open spec fn mirror(c: SyncClass) -> SyncClass {
    match c {
        SyncClass::LocalAhead => SyncClass::RemoteAhead,
        SyncClass::RemoteAhead => SyncClass::LocalAhead,
        SyncClass::LocalOnly => SyncClass::RemoteOnly,
        SyncClass::RemoteOnly => SyncClass::LocalOnly,
        other => other,
    }
}

/// Law: classification is symmetric — swapping the local and remote
/// documents swaps "local" and "remote" in the verdict and nothing else.
pub proof fn law_classify_symmetric(
    baseline: Option<Seq<char>>,
    local: Option<Seq<char>>,
    remote: Option<Seq<char>>,
)
    ensures
        classify_spec(baseline, remote, local) == mirror(classify_spec(baseline, local, remote)),
{
}

/// Law: identical local and remote documents are always in sync, whatever
/// the baseline says.
pub proof fn law_identical_sides_in_sync(baseline: Option<Seq<char>>, doc: Seq<char>)
    ensures
        classify_spec(baseline, Some(doc), Some(doc)) == SyncClass::InSync,
{
}

/// Law: after a sync (baseline recorded as the synced document on both
/// sides), a local-only edit reads as `LocalAhead` and a remote-only edit
/// as `RemoteAhead`.
pub proof fn law_one_sided_edits(synced: Seq<char>, edited: Seq<char>)
    requires
        edited != synced,
    ensures
        classify_spec(Some(synced), Some(edited), Some(synced)) == SyncClass::LocalAhead,
        classify_spec(Some(synced), Some(synced), Some(edited)) == SyncClass::RemoteAhead,
{
}

// ---------------------------------------------------------------------------
// Change-detection checksum
// ---------------------------------------------------------------------------

/// `x` rotated left by five bits.
pub open spec fn rotl5(x: u64) -> u64 {
    (x << 5u64) | (x >> 59u64)
}

/// The two FNV-style lanes after hashing `s`.
pub open spec fn checksum_lanes(s: Seq<u8>) -> (u64, u64)
    decreases s.len(),
{
    if s.len() == 0 {
        (0xcbf29ce484222325u64, 0x9e3779b97f4a7c15u64)
    } else {
        let (h1, h2) = checksum_lanes(s.drop_last());
        let b = s.last() as u64;
        ((h1 ^ b).wrapping_mul(0x100000001b3u64), (rotl5(h2) ^ b).wrapping_mul(0x2545f4914f6cdd1du64))
    }
}

/// The 128-bit checksum: first lane high, second lane low.
pub open spec fn checksum_spec(s: Seq<u8>) -> u128 {
    let (h1, h2) = checksum_lanes(s);
    ((h1 as u128) << 64u128) | (h2 as u128)
}

/// Small non-cryptographic checksum over the UTF-8 bytes of `s` (FNV-1a
/// style, two 64-bit lanes). Collision resistance is ample for change
/// detection.
pub fn md5_like(s: &str) -> (h: u128)
    ensures
        h == checksum_spec(s.spec_bytes()),
{
    let bytes = s.as_bytes();
    let mut h1: u64 = 0xcbf29ce484222325;
    let mut h2: u64 = 0x9e3779b97f4a7c15;
    let mut i: usize = 0;
    while i < bytes.len()
        invariant
            bytes@ == s.spec_bytes(),
            0 <= i <= bytes@.len(),
            (h1, h2) == checksum_lanes(bytes@.subrange(0, i as int)),
        decreases bytes@.len() - i,
    {
        let b = bytes[i];
        assert(bytes@.subrange(0, i + 1).drop_last() =~= bytes@.subrange(0, i as int));
        h1 = h1 ^ (b as u64);
        h1 = h1.wrapping_mul(0x100000001b3);
        h2 = ((h2 << 5u64) | (h2 >> 59u64)) ^ (b as u64);
        h2 = h2.wrapping_mul(0x2545f4914f6cdd1d);
        i += 1;
    }
    assert(bytes@.subrange(0, bytes@.len() as int) =~= bytes@);
    ((h1 as u128) << 64u128) | (h2 as u128)
}

proof fn lemma_wrapping_mul(x: u64, y: u64)
    ensures
        x.wrapping_mul(y) == (x * y) as u64,
{
    assert(((x * y) % 0x10000000000000000int) as u64 == (x * y) as u64) by (bit_vector);
}

/// Multiplying by the odd FNV prime is one to one.
proof fn lemma_odd_multiple_injective(m: u64, n: u64)
    requires
        m != n,
    ensures
        m.wrapping_mul(0x100000001b3u64) != n.wrapping_mul(0x100000001b3u64),
{
    lemma_wrapping_mul(m, 0x100000001b3u64);
    lemma_wrapping_mul(n, 0x100000001b3u64);
    assert((m * 0x100000001b3u64) as u64 != (n * 0x100000001b3u64) as u64) by (bit_vector)
        requires
            m != n;
}

/// Lanes that differ give checksums that differ.
proof fn lemma_checksum_from_lanes(s: Seq<u8>, t: Seq<u8>)
    requires
        checksum_lanes(s).0 != checksum_lanes(t).0 || checksum_lanes(s).1 != checksum_lanes(t).1,
    ensures
        checksum_spec(s) != checksum_spec(t),
{
    let (a1, a2) = checksum_lanes(s);
    let (b1, b2) = checksum_lanes(t);
    assert((((a1 as u128) << 64u128) | (a2 as u128)) != (((b1 as u128) << 64u128) | (b2 as u128))) by (bit_vector)
        requires
            a1 != b1 || a2 != b2;
}

/// The first lane after one more byte.
proof fn lemma_lane_push(s: Seq<u8>, c: u8)
    ensures
        checksum_lanes(s.push(c)).0 == (checksum_lanes(s).0 ^ (c as u64)).wrapping_mul(0x100000001b3u64),
{
    assert(s.push(c).drop_last() =~= s);
}

/// Law: the checksum sees the order of bytes. Two documents that differ
/// only in the order of two adjacent bytes, after any common prefix, have
/// different checksums (so a swapped pair is a detected edit).
pub proof fn law_checksum_sees_byte_order(s: Seq<u8>, a: u8, b: u8)
    requires
        a != b,
    ensures
        checksum_spec(s + seq![a, b]) != checksum_spec(s + seq![b, a]),
{
    assert(s + seq![a, b] =~= s.push(a).push(b));
    assert(s + seq![b, a] =~= s.push(b).push(a));
    lemma_lane_push(s, a);
    lemma_lane_push(s, b);
    lemma_lane_push(s.push(a), b);
    lemma_lane_push(s.push(b), a);
    let h = checksum_lanes(s).0;
    let (x, y) = (a as u64, b as u64);
    let p = (h ^ x).wrapping_mul(0x100000001b3u64);
    let q = (h ^ y).wrapping_mul(0x100000001b3u64);
    lemma_wrapping_mul(h ^ x, 0x100000001b3u64);
    lemma_wrapping_mul(h ^ y, 0x100000001b3u64);
    assert(((h ^ x) * 0x100000001b3u64) as u64 ^ y != ((h ^ y) * 0x100000001b3u64) as u64 ^ x) by (bit_vector)
        requires
            x < 256,
            y < 256,
            x != y;
    lemma_odd_multiple_injective(p ^ y, q ^ x);
    lemma_checksum_from_lanes(s.push(a).push(b), s.push(b).push(a));
}

/// Law: the checksum sees every byte. Two documents that share a prefix
/// and differ in the byte that follows it have different checksums.
pub proof fn law_checksum_sees_each_byte(s: Seq<u8>, a: u8, b: u8)
    requires
        a != b,
    ensures
        checksum_spec(s.push(a)) != checksum_spec(s.push(b)),
{
    lemma_lane_push(s, a);
    lemma_lane_push(s, b);
    let h = checksum_lanes(s).0;
    assert(h ^ (a as u64) != h ^ (b as u64)) by (bit_vector)
        requires
            a != b;
    lemma_odd_multiple_injective(h ^ (a as u64), h ^ (b as u64));
    lemma_checksum_from_lanes(s.push(a), s.push(b));
}

/// The lowercase hexadecimal digit for `d < 16`.
pub open spec fn hex_digit(d: nat) -> char {
    if d < 10 {
        crate::text::digit(d)
    } else if d == 10 {
        'a'
    } else if d == 11 {
        'b'
    } else if d == 12 {
        'c'
    } else if d == 13 {
        'd'
    } else if d == 14 {
        'e'
    } else {
        'f'
    }
}

/// `n` in lowercase hexadecimal without leading zeros (`{:x}`).
pub open spec fn hex(n: nat) -> Seq<char>
    decreases n,
{
    if n < 16 {
        seq![hex_digit(n)]
    } else {
        hex(n / 16).push(hex_digit(n % 16))
    }
}

/// The hexadecimal digit for `d < 16`.
fn hex_char(d: u8) -> (c: char)
    requires
        d < 16,
    ensures
        c == hex_digit(d as nat),
{
    let digits = ['0', '1', '2', '3', '4', '5', '6', '7', '8', '9', 'a', 'b', 'c', 'd', 'e', 'f'];
    let c = digits[d as usize];
    assert(digits@ =~= seq!['0', '1', '2', '3', '4', '5', '6', '7', '8', '9', 'a', 'b', 'c', 'd', 'e', 'f']);
    c
}

/// `n` in lowercase hexadecimal.
pub fn hex_string(n: u128) -> (s: String)
    ensures
        s@ == hex(n as nat),
    decreases n,
{
    let c = hex_char((n % 16) as u8);
    let mut s = if n < 16 {
        String::new()
    } else {
        hex_string(n / 16)
    };
    crate::text::push_char(&mut s, c);
    s
}

/// The checksum text of a canonical document: its two-lane hash in
/// lowercase hexadecimal.
pub fn checksum_text(canonical: &str) -> (s: String)
    ensures
        s@ == hex(checksum_spec(canonical.spec_bytes()) as nat),
{
    hex_string(md5_like(canonical))
}

} // verus!
