//! Resource kinds and references: the identity of every file in a
//! project's environment tree (`<kind-dir>/<name>`).
use vstd::prelude::*;

use crate::text::{chars_of, copy_str, push_str, str_eq};

verus! {

/// The service a resource kind belongs to.
#[derive(Clone, Copy, Debug, PartialEq, Eq, Structural)]
pub enum ServiceDomain {
    Search,
    Foundry,
}

/// Every resource kind rigg manages.
#[derive(Clone, Copy, Debug, PartialEq, Eq, Structural)]
pub enum ResourceKind {
    Index,
    Indexer,
    DataSource,
    Skillset,
    SynonymMap,
    Alias,
    KnowledgeBase,
    KnowledgeSource,
    Agent,
    Deployment,
    Guardrail,
}

/// The kinds in their canonical order: Search kinds first, then Foundry.
pub open spec fn all_kinds() -> Seq<ResourceKind> {
    seq![
        ResourceKind::Index,
        ResourceKind::Indexer,
        ResourceKind::DataSource,
        ResourceKind::Skillset,
        ResourceKind::SynonymMap,
        ResourceKind::Alias,
        ResourceKind::KnowledgeBase,
        ResourceKind::KnowledgeSource,
        ResourceKind::Agent,
        ResourceKind::Deployment,
        ResourceKind::Guardrail,
    ]
}

impl ResourceKind {
    /// The directory (and selector) name of the kind.
    pub open spec fn dir(self) -> Seq<char> {
        match self {
            ResourceKind::Index => "indexes"@,
            ResourceKind::Indexer => "indexers"@,
            ResourceKind::DataSource => "data-sources"@,
            ResourceKind::Skillset => "skillsets"@,
            ResourceKind::SynonymMap => "synonym-maps"@,
            ResourceKind::Alias => "aliases"@,
            ResourceKind::KnowledgeBase => "knowledge-bases"@,
            ResourceKind::KnowledgeSource => "knowledge-sources"@,
            ResourceKind::Agent => "agents"@,
            ResourceKind::Deployment => "deployments"@,
            ResourceKind::Guardrail => "guardrails"@,
        }
    }

    /// The service the kind lives in.
    pub open spec fn domain_spec(self) -> ServiceDomain {
        match self {
            ResourceKind::Agent | ResourceKind::Deployment | ResourceKind::Guardrail => {
                ServiceDomain::Foundry
            },
            _ => ServiceDomain::Search,
        }
    }

    /// The directory name, e.g. `indexes`.
    pub fn directory_name(&self) -> (r: &'static str)
        ensures
            r@ == self.dir(),
    {
        match self {
            ResourceKind::Index => "indexes",
            ResourceKind::Indexer => "indexers",
            ResourceKind::DataSource => "data-sources",
            ResourceKind::Skillset => "skillsets",
            ResourceKind::SynonymMap => "synonym-maps",
            ResourceKind::Alias => "aliases",
            ResourceKind::KnowledgeBase => "knowledge-bases",
            ResourceKind::KnowledgeSource => "knowledge-sources",
            ResourceKind::Agent => "agents",
            ResourceKind::Deployment => "deployments",
            ResourceKind::Guardrail => "guardrails",
        }
    }

    /// The service domain of the kind.
    pub fn domain(&self) -> (d: ServiceDomain)
        ensures
            d == self.domain_spec(),
    {
        match self {
            ResourceKind::Agent | ResourceKind::Deployment | ResourceKind::Guardrail => {
                ServiceDomain::Foundry
            },
            _ => ServiceDomain::Search,
        }
    }

    /// Every kind, in canonical order.
    pub fn all() -> (v: Vec<ResourceKind>)
        ensures
            v@ == all_kinds(),
    {
        let v = vec![
            ResourceKind::Index,
            ResourceKind::Indexer,
            ResourceKind::DataSource,
            ResourceKind::Skillset,
            ResourceKind::SynonymMap,
            ResourceKind::Alias,
            ResourceKind::KnowledgeBase,
            ResourceKind::KnowledgeSource,
            ResourceKind::Agent,
            ResourceKind::Deployment,
            ResourceKind::Guardrail,
        ];
        assert(v@ =~= all_kinds());
        v
    }

    /// The Search-service kinds, in canonical order.
    pub fn search_kinds() -> (v: Vec<ResourceKind>)
        ensures
            v@ == all_kinds().filter(|k: ResourceKind| k.domain_spec() == ServiceDomain::Search),
    {
        let all = ResourceKind::all();
        let mut v: Vec<ResourceKind> = Vec::new();
        let mut i: usize = 0;
        while i < all.len()
            invariant
                all@ == all_kinds(),
                0 <= i <= all@.len(),
                v@ == all_kinds().subrange(0, i as int).filter(
                    |k: ResourceKind| k.domain_spec() == ServiceDomain::Search,
                ),
            decreases all@.len() - i,
        {
            let k = all[i];
            if k.domain() == ServiceDomain::Search {
                v.push(k);
            }
            proof {
                let pred = |k: ResourceKind| k.domain_spec() == ServiceDomain::Search;
                let s = all_kinds().subrange(0, i + 1);
                assert(s.drop_last() =~= all_kinds().subrange(0, i as int));
                reveal_with_fuel(Seq::filter, 1);
                assert(s.filter(pred) == s.drop_last().filter(pred) + (if pred(s.last()) {
                    seq![s.last()]
                } else {
                    Seq::empty()
                }));
            }
            i += 1;
        }
        assert(all_kinds().subrange(0, 11) =~= all_kinds());
        v
    }

    /// The kind whose directory name is `dir`, if any.
    pub fn from_directory_name(dir: &str) -> (r: Option<ResourceKind>)
        ensures
            r == kind_for_dir(dir@),
            r matches Some(k) ==> k.dir() == dir@,
            r is None ==> forall|k: ResourceKind| #[trigger] k.dir() != dir@,
    {
        let all = ResourceKind::all();
        let mut i: usize = 0;
        while i < all.len()
            invariant
                all@ == all_kinds(),
                0 <= i <= all@.len(),
                forall|j: int| 0 <= j < i ==> all_kinds()[j].dir() != dir@,
            decreases all@.len() - i,
        {
            let k = all[i];
            if str_eq(k.directory_name(), dir) {
                proof {
                    let c = choose|c: ResourceKind| c.dir() == dir@;
                    lemma_dir_injective(c, k);
                }
                return Some(k);
            }
            i += 1;
        }
        proof {
            assert forall|k: ResourceKind| #[trigger] k.dir() != dir@ by {
                lemma_all_kinds_complete(k);
            }
        }
        None
    }
}

/// The kind whose directory name is `d`, if there is one.
pub open spec fn kind_for_dir(d: Seq<char>) -> Option<ResourceKind> {
    if exists|k: ResourceKind| k.dir() == d {
        Some(choose|k: ResourceKind| k.dir() == d)
    } else {
        None
    }
}

/// Every kind appears in `all_kinds`.
pub proof fn lemma_all_kinds_complete(k: ResourceKind)
    ensures
        exists|j: int| 0 <= j < all_kinds().len() && all_kinds()[j] == k,
{
    match k {
        ResourceKind::Index => assert(all_kinds()[0] == k),
        ResourceKind::Indexer => assert(all_kinds()[1] == k),
        ResourceKind::DataSource => assert(all_kinds()[2] == k),
        ResourceKind::Skillset => assert(all_kinds()[3] == k),
        ResourceKind::SynonymMap => assert(all_kinds()[4] == k),
        ResourceKind::Alias => assert(all_kinds()[5] == k),
        ResourceKind::KnowledgeBase => assert(all_kinds()[6] == k),
        ResourceKind::KnowledgeSource => assert(all_kinds()[7] == k),
        ResourceKind::Agent => assert(all_kinds()[8] == k),
        ResourceKind::Deployment => assert(all_kinds()[9] == k),
        ResourceKind::Guardrail => assert(all_kinds()[10] == k),
    }
}

/// Distinct kinds have distinct directory names, so a directory name
/// identifies its kind.
pub proof fn lemma_dir_injective(a: ResourceKind, b: ResourceKind)
    ensures
        a.dir() == b.dir() ==> a == b,
{
    reveal_strlit("indexes");
    reveal_strlit("indexers");
    reveal_strlit("data-sources");
    reveal_strlit("skillsets");
    reveal_strlit("synonym-maps");
    reveal_strlit("aliases");
    reveal_strlit("knowledge-bases");
    reveal_strlit("knowledge-sources");
    reveal_strlit("agents");
    reveal_strlit("deployments");
    reveal_strlit("guardrails");
    if a.dir() == b.dir() && a != b {
        let da = a.dir();
        let db = b.dir();
        assert(da.len() == db.len());
        assert(da[0] == db[0]);
        assert(da[1] == db[1]);
        assert(da[2] == db[2]);
        assert(da[da.len() - 2] == db[db.len() - 2]);
        assert(da[5] == db[5] || da.len() < 6);
    }
}

/// Looking up the directory name of any kind gives back that kind.
pub proof fn lemma_directory_name_round_trip(k: ResourceKind, found: ResourceKind)
    requires
        found.dir() == k.dir(),
    ensures
        found == k,
{
    lemma_dir_injective(found, k);
}

/// A resource's identity within one environment: its kind and physical name.
#[derive(Clone, Debug, PartialEq, Eq)]
pub struct ResourceRef {
    pub kind: ResourceKind,
    pub name: String,
}

impl ResourceRef {
    /// `<kind-dir>/<name>`: the baseline and ownership key.
    pub open spec fn key_spec(self) -> Seq<char> {
        self.kind.dir() + "/"@ + self.name@
    }

    pub fn new(kind: ResourceKind, name: String) -> (r: ResourceRef)
        ensures
            r.kind == kind,
            r.name@ == name@,
    {
        ResourceRef { kind, name }
    }

    /// The key `<kind-dir>/<name>`.
    pub fn key(&self) -> (s: String)
        ensures
            s@ == self.key_spec(),
    {
        let mut s = copy_str(self.kind.directory_name());
        push_str(&mut s, "/");
        push_str(&mut s, self.name.as_str());
        s
    }
}

/// A name is usable as a resource file stem: non-empty, not `.` or `..`,
/// and free of path separators.
pub open spec fn valid_resource_name_spec(name: Seq<char>) -> bool {
    &&& name.len() > 0
    &&& name != "."@
    &&& name != ".."@
    &&& !name.contains('/')
    &&& !name.contains('\\')
}

/// Why a name is not a valid resource name.
pub open spec fn resource_name_problem(name: Seq<char>) -> Seq<char> {
    if name.len() == 0 {
        "a resource name must not be empty"@
    } else if name == "."@ || name == ".."@ {
        "a resource name must not be '.' or '..'"@
    } else {
        "a resource name must not contain a path separator"@
    }
}

/// Check a resource name, explaining a refusal.
pub fn validate_resource_name(name: &str) -> (r: Result<(), String>)
    ensures
        r is Ok <==> valid_resource_name_spec(name@),
        r matches Err(e) ==> e@ == resource_name_problem(name@),
{
    let v = chars_of(name);
    if v.len() == 0 {
        return Err(copy_str("a resource name must not be empty"));
    }
    if str_eq(name, ".") || str_eq(name, "..") {
        return Err(copy_str("a resource name must not be '.' or '..'"));
    }
    let mut i: usize = 0;
    while i < v.len()
        invariant
            v@ == name@,
            name@.len() > 0,
            name@ != "."@,
            name@ != ".."@,
            0 <= i <= v@.len(),
            forall|j: int| 0 <= j < i ==> v@[j] != '/' && v@[j] != '\\',
        decreases v@.len() - i,
    {
        if v[i] == '/' || v[i] == '\\' {
            assert(name@[i as int] == v@[i as int]);
            return Err(copy_str("a resource name must not contain a path separator"));
        }
        i += 1;
    }
    assert(!name@.contains('/')) by {
        if name@.contains('/') {
            let j = choose|j: int| 0 <= j < name@.len() && name@[j] == '/';
            assert(v@[j] == '/');
        }
    }
    assert(!name@.contains('\\')) by {
        if name@.contains('\\') {
            let j = choose|j: int| 0 <= j < name@.len() && name@[j] == '\\';
            assert(v@[j] == '\\');
        }
    }
    Ok(())
}

} // verus!
