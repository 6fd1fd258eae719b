//! Selectors of `rigg adopt`: what the user asked to bring under management.
use vstd::prelude::*;

use crate::resources::{
    all_kinds, kind_for_dir, resource_name_problem, valid_resource_name_spec, ResourceKind,
    ResourceRef, ServiceDomain, validate_resource_name,
};
use crate::sorting::{
    lemma_text_less_asymmetric, lemma_text_less_irreflexive, lemma_text_less_total,
    lemma_text_less_transitive, ranked, sort_ranked, text_less, text_less_exec, Ranked,
};
use crate::ask::lookup_spec;
use crate::text::{lemma_find_spec, 
    chars_of, copy_str, find_char, join, join_strings, push_str, split_once, str_eq,
    string_of_range, views,
};

verus! {

/// What the user asked to adopt.
#[derive(Clone, Debug, PartialEq, Eq)]
pub enum Selector {
    /// Every unmanaged resource across both services.
    All,
    /// Every unmanaged resource of one kind.
    Kind(ResourceKind),
    /// One specific resource.
    One(ResourceRef),
}

/// The directory names of all kinds, in canonical order.
pub open spec fn kind_dirs() -> Seq<Seq<char>> {
    all_kinds().map_values(|k: ResourceKind| k.dir())
}

/// The message for a selector naming no known kind.
pub open spec fn unknown_kind_msg_spec(dir: Seq<char>) -> Seq<char> {
    "unknown resource kind '"@ + dir + "'. Valid kinds: "@ + join(kind_dirs(), ", "@)
}

/// What `Selector::parse` gives for `s`.
pub open spec fn parse_selector_spec(s: Seq<char>) -> Result<(ResourceKind, Option<Seq<char>>), Seq<char>> {
    match split_once(s, "/"@) {
        Some((dir, name)) => match kind_for_dir(dir) {
            None => Err(unknown_kind_msg_spec(dir)),
            Some(k) => if valid_resource_name_spec(name) {
                Ok((k, Some(name)))
            } else {
                Err("invalid resource name '"@ + name + "': "@ + resource_name_problem(name))
            },
        },
        None => match kind_for_dir(s) {
            None => Err(unknown_kind_msg_spec(s)),
            Some(k) => Ok((k, None)),
        },
    }
}

/// The message for an unknown kind: names the kind asked for and lists
/// every valid one.
pub fn unknown_kind_msg(dir: &str) -> (m: String)
    ensures
        m@ == unknown_kind_msg_spec(dir@),
{
    let kinds = ResourceKind::all();
    let mut names: Vec<String> = Vec::new();
    let mut i: usize = 0;
    while i < kinds.len()
        invariant
            kinds@ == all_kinds(),
            0 <= i <= kinds@.len(),
            views(names@) == kind_dirs().subrange(0, i as int),
        decreases kinds@.len() - i,
    {
        let ghost old_names = names@;
        let n = copy_str(kinds[i].directory_name());
        names.push(n);
        assert(kind_dirs()[i as int] == all_kinds()[i as int].dir());
        assert(names@ == old_names.push(n));
        assert(views(names@) =~= views(old_names).push(n@));
        assert(views(names@) =~= kind_dirs().subrange(0, i + 1));
        i += 1;
    }
    assert(kind_dirs().subrange(0, 11) =~= kind_dirs());
    let listed = join_strings(&names, ", ");
    let mut m = copy_str("unknown resource kind '");
    push_str(&mut m, dir);
    push_str(&mut m, "'. Valid kinds: ");
    push_str(&mut m, listed.as_str());
    m
}

impl Selector {
    /// Parse `all`, a kind directory (`indexes`) or `<kind-dir>/<name>`
    /// (`agents/regulus`).
    pub fn parse(s: &str) -> (r: Result<Selector, String>)
        ensures
            s@ == "all"@ ==> r == Ok::<Selector, String>(Selector::All),
            s@ != "all"@ ==> match (r, parse_selector_spec(s@)) {
                (Ok(Selector::Kind(k)), Ok((k2, None))) => k == k2,
                (Ok(Selector::One(rf)), Ok((k2, Some(n)))) => rf.kind == k2 && rf.name@ == n,
                (Err(e), Err(e2)) => e@ == e2,
                _ => false,
            },
    {
        if str_eq(s, "all") {
            return Ok(Selector::All);
        }
        let v = chars_of(s);
        let len = v.len();
        match find_char(&v, '/') {
            Some(i) => {
                proof {
                    lemma_find_spec(v@, seq!['/'], 0);
                }
                let dir = string_of_range(&v, 0, i);
                let name = string_of_range(&v, i + 1, len);
                assert(seq!['/'] == "/"@) by {
                    reveal_strlit("/");
                }
                match ResourceKind::from_directory_name(dir.as_str()) {
                    None => Err(unknown_kind_msg(dir.as_str())),
                    Some(kind) => match validate_resource_name(name.as_str()) {
                        Err(e) => {
                            let mut m = copy_str("invalid resource name '");
                            push_str(&mut m, name.as_str());
                            push_str(&mut m, "': ");
                            push_str(&mut m, e.as_str());
                            Err(m)
                        },
                        Ok(()) => Ok(Selector::One(ResourceRef::new(kind, name))),
                    },
                }
            },
            None => {
                assert(seq!['/'] == "/"@) by {
                    reveal_strlit("/");
                }
                match ResourceKind::from_directory_name(s) {
                    None => Err(unknown_kind_msg(s)),
                    Some(kind) => Ok(Selector::Kind(kind)),
                }
            },
        }
    }

    /// Broad selectors (all / whole-kind) require confirmation before writing.
    pub fn is_broad(&self) -> (b: bool)
        ensures
            b == !(self is One),
    {
        match self {
            Selector::All | Selector::Kind(_) => true,
            Selector::One(_) => false,
        }
    }
}

/// The command line equivalent to a wizard run.
pub open spec fn equivalent_command_spec(project: Seq<char>, chosen: Seq<Seq<char>>, with_deps: bool) -> Seq<char> {
    "rigg adopt "@ + project + " "@ + join(chosen, " "@) + if with_deps {
        " --with-deps"@
    } else {
        Seq::empty()
    }
}

/// Reconstruct the non-interactive command line equivalent to a wizard run,
/// e.g. `rigg adopt regulus agents/regulus --with-deps`.
pub fn equivalent_command(project: &str, chosen: &Vec<String>, with_deps: bool) -> (c: String)
    ensures
        c@ == equivalent_command_spec(project@, views(chosen@), with_deps),
{
    let mut cmd = copy_str("rigg adopt ");
    push_str(&mut cmd, project);
    push_str(&mut cmd, " ");
    let joined = join_strings(chosen, " ");
    push_str(&mut cmd, joined.as_str());
    if with_deps {
        push_str(&mut cmd, " --with-deps");
    }
    proof {
        if !with_deps {
            assert(cmd@ =~= equivalent_command_spec(project@, views(chosen@), with_deps));
        }
    }
    cmd
}

// ---------------------------------------------------------------------------
// Planning an adoption
// ---------------------------------------------------------------------------

/// The keys of the snapshot resources of kind `k` among the first `n`.
pub open spec fn kind_keys(snap: Seq<ResourceRef>, k: ResourceKind, n: int) -> Seq<Seq<char>>
    decreases n,
{
    if n <= 0 {
        Seq::empty()
    } else if snap[n - 1].kind == k {
        kind_keys(snap, k, n - 1).push(snap[n - 1].key_spec())
    } else {
        kind_keys(snap, k, n - 1)
    }
}

/// The keys a selector names, in snapshot order.
pub open spec fn selector_keys(sel: Selector, snap: Seq<ResourceRef>) -> Seq<Seq<char>> {
    match sel {
        Selector::All => snap.map_values(|r: ResourceRef| r.key_spec()),
        Selector::Kind(k) => kind_keys(snap, k, snap.len() as int),
        Selector::One(rf) => seq![rf.key_spec()],
    }
}

/// The kind a selector needs but the environment has no connection for.
pub open spec fn unsupported_kind(sel: Selector, supported: Seq<ResourceKind>) -> Option<ResourceKind> {
    match sel {
        Selector::All => None,
        Selector::Kind(k) => if supported.contains(k) {
            None
        } else {
            Some(k)
        },
        Selector::One(rf) => if supported.contains(rf.kind) {
            None
        } else {
            Some(rf.kind)
        },
    }
}

/// `acc` with `key` added unless already present.
pub open spec fn add_key(acc: Seq<Seq<char>>, key: Seq<char>) -> Seq<Seq<char>> {
    if acc.contains(key) {
        acc
    } else {
        acc.push(key)
    }
}

/// `acc` extended by `ks` in order, skipping keys already present.
pub open spec fn add_all(acc: Seq<Seq<char>>, ks: Seq<Seq<char>>) -> Seq<Seq<char>>
    decreases ks.len(),
{
    if ks.len() == 0 {
        acc
    } else {
        add_all(add_key(acc, ks[0]), ks.drop_first())
    }
}

/// The candidate keys of the first `k` selectors, in order and each once,
/// or the first kind a selector needs that has no connection.
pub open spec fn select_upto(sels: Seq<Selector>, snap: Seq<ResourceRef>, supported: Seq<ResourceKind>, k: int) -> Result<Seq<Seq<char>>, ResourceKind>
    decreases k,
{
    if k <= 0 {
        Ok(Seq::empty())
    } else {
        match select_upto(sels, snap, supported, k - 1) {
            Err(e) => Err(e),
            Ok(acc) => match unsupported_kind(sels[k - 1], supported) {
                Some(kind) => Err(kind),
                None => Ok(add_all(acc, selector_keys(sels[k - 1], snap))),
            },
        }
    }
}

/// The refusal for a selector of a kind without a connection.
pub open spec fn no_connection_msg(kind: ResourceKind, env: Seq<char>) -> Seq<char> {
    "no connection for kind '"@ + kind.dir() + "' in environment '"@ + env + "'"@
}

fn kind_supported(supported: &Vec<ResourceKind>, k: ResourceKind) -> (b: bool)
    ensures
        b == supported@.contains(k),
{
    let mut i: usize = 0;
    while i < supported.len()
        invariant
            0 <= i <= supported@.len(),
            forall|j: int| 0 <= j < i ==> supported@[j] != k,
        decreases supported@.len() - i,
    {
        if supported[i] == k {
            return true;
        }
        i += 1;
    }
    false
}

fn push_unique(out: &mut Vec<String>, key: String)
    ensures
        views(final(out)@) == add_key(views(old(out)@), key@),
{
    let mut i: usize = 0;
    while i < out.len()
        invariant
            0 <= i <= out@.len(),
            forall|j: int| 0 <= j < i ==> out@[j]@ != key@,
        decreases out@.len() - i,
    {
        if str_eq(out[i].as_str(), key.as_str()) {
            assert(views(out@)[i as int] == key@);
            return;
        }
        i += 1;
    }
    assert(!views(out@).contains(key@)) by {
        assert forall|j: int| 0 <= j < views(out@).len() implies views(out@)[j] != key@ by {
            assert(views(out@)[j] == out@[j]@);
        }
    }
    let ghost before = views(out@);
    out.push(key);
    assert(views(out@) =~= before.push(key@));
}

/// The keys a selector names, in snapshot order.
fn keys_of_selector(sel: &Selector, snapshot: &Vec<ResourceRef>) -> (r: Vec<String>)
    ensures
        views(r@) == selector_keys(*sel, snapshot@),
{
    match sel {
        Selector::One(rf) => {
            let mut r: Vec<String> = Vec::new();
            r.push(rf.key());
            assert(views(r@) =~= seq![rf.key_spec()]);
            r
        },
        Selector::All => {
            let mut r: Vec<String> = Vec::new();
            let mut n: usize = 0;
            while n < snapshot.len()
                invariant
                    0 <= n <= snapshot@.len(),
                    r@.len() == n,
                    forall|j: int| 0 <= j < n ==> #[trigger] r@[j]@ == snapshot@[j].key_spec(),
                decreases snapshot@.len() - n,
            {
                r.push(snapshot[n].key());
                n += 1;
            }
            assert(views(r@) =~= snapshot@.map_values(|x: ResourceRef| x.key_spec()));
            r
        },
        Selector::Kind(k) => {
            let mut r: Vec<String> = Vec::new();
            let mut n: usize = 0;
            while n < snapshot.len()
                invariant
                    0 <= n <= snapshot@.len(),
                    views(r@) == kind_keys(snapshot@, *k, n as int),
                decreases snapshot@.len() - n,
            {
                if snapshot[n].kind == *k {
                    let ghost before = views(r@);
                    let key = snapshot[n].key();
                    r.push(key);
                    assert(views(r@) =~= before.push(key@));
                }
                n += 1;
            }
            r
        },
    }
}

proof fn lemma_select_err_sticks(sels: Seq<Selector>, snap: Seq<ResourceRef>, supported: Seq<ResourceKind>, k: int, n: int)
    requires
        0 <= k <= n,
        select_upto(sels, snap, supported, k) is Err,
    ensures
        select_upto(sels, snap, supported, n) == select_upto(sels, snap, supported, k),
    decreases n - k,
{
    if k < n {
        lemma_select_err_sticks(sels, snap, supported, k, n - 1);
    }
}

/// Resolve selectors into the ordered, unique candidate keys, refusing a
/// selector whose kind the environment has no connection for.
pub fn select_candidates(
    selectors: &Vec<Selector>,
    snapshot: &Vec<ResourceRef>,
    supported: &Vec<ResourceKind>,
    env: &str,
) -> (r: Result<Vec<String>, String>)
    ensures
        match (r, select_upto(selectors@, snapshot@, supported@, selectors@.len() as int)) {
            (Ok(v), Ok(ks)) => views(v@) == ks,
            (Err(e), Err(kind)) => e@ == no_connection_msg(kind, env@),
            _ => false,
        },
{
    let mut out: Vec<String> = Vec::new();
    assert(views(out@) =~= Seq::<Seq<char>>::empty());
    let mut s: usize = 0;
    while s < selectors.len()
        invariant
            0 <= s <= selectors@.len(),
            select_upto(selectors@, snapshot@, supported@, s as int) == Ok::<Seq<Seq<char>>, ResourceKind>(views(out@)),
        decreases selectors@.len() - s,
    {
        let sel = &selectors[s];
        let needed: Option<ResourceKind> = match sel {
            Selector::All => None,
            Selector::Kind(k) => if kind_supported(supported, *k) {
                None
            } else {
                Some(*k)
            },
            Selector::One(rf) => if kind_supported(supported, rf.kind) {
                None
            } else {
                Some(rf.kind)
            },
        };
        if let Some(kind) = needed {
            proof {
                lemma_select_err_sticks(selectors@, snapshot@, supported@, s + 1, selectors@.len() as int);
            }
            let mut e = copy_str("no connection for kind '");
            push_str(&mut e, kind.directory_name());
            push_str(&mut e, "' in environment '");
            push_str(&mut e, env);
            push_str(&mut e, "'");
            return Err(e);
        }
        let ks = keys_of_selector(sel, snapshot);
        let ghost kv = views(ks@);
        let ghost acc = views(out@);
        let mut i: usize = 0;
        assert(kv.subrange(0, kv.len() as int) =~= kv);
        while i < ks.len()
            invariant
                kv == views(ks@),
                0 <= i <= ks@.len(),
                add_all(views(out@), kv.subrange(i as int, kv.len() as int)) == add_all(acc, kv),
            decreases ks@.len() - i,
        {
            assert(kv.subrange(i as int, kv.len() as int).drop_first() =~= kv.subrange(i + 1, kv.len() as int));
            assert(kv.subrange(i as int, kv.len() as int)[0] == ks@[i as int]@);
            push_unique(&mut out, ks[i].clone());
            i += 1;
        }
        assert(kv.subrange(i as int, kv.len() as int) =~= Seq::<Seq<char>>::empty());
        s += 1;
    }
    Ok(out)
}

/// The position of `key` in the snapshot (the last resource with that key).
pub open spec fn snap_find(snap: Seq<ResourceRef>, key: Seq<char>) -> Option<int>
    decreases snap.len(),
{
    if snap.len() == 0 {
        None
    } else if snap.last().key_spec() == key {
        Some(snap.len() - 1)
    } else {
        snap_find(snap.drop_last(), key)
    }
}

/// Whether a selector names `key` explicitly (`<kind>/<name>`).
pub open spec fn names_key(sel: Selector, key: Seq<char>) -> bool {
    sel matches Selector::One(rf) && rf.key_spec() == key
}

/// Whether some selector names `key` explicitly.
pub open spec fn is_explicit(sels: Seq<Selector>, key: Seq<char>) -> bool {
    exists|i: int| 0 <= i < sels.len() && names_key(#[trigger] sels[i], key)
}

/// The skip reasons an adoption reports.
pub open spec fn not_in_snapshot_msg() -> Seq<char> {
    "no matching unmanaged remote resource"@
}

pub open spec fn already_managed_msg() -> Seq<char> {
    "already managed by this project"@
}

pub open spec fn auto_created_msg(ks: Seq<char>) -> Seq<char> {
    "auto-created by knowledge source '"@ + ks + "' \u{2014} manage it via the knowledge source"@
}

pub open spec fn platform_managed_msg() -> Seq<char> {
    "platform-managed (provided by Microsoft) \u{2014} reference it, don't adopt it"@
}

/// The refusal for adopting a resource another project owns.
pub open spec fn owned_elsewhere_msg(key: Seq<char>, owner: Seq<char>) -> Seq<char> {
    key + " is owned by project '"@ + owner + "' \u{2014} a resource belongs to exactly one project"@
}

/// A plan as plain values: snapshot positions to adopt, skipped keys with
/// reasons, and positions of this project's explicitly named resources.
pub type PlanView = (Seq<int>, Seq<(Seq<char>, Seq<char>)>, Seq<int>);

/// The plan over the first `k` candidate keys, or the first refusal.
pub open spec fn plan_upto(
    keys: Seq<Seq<char>>,
    k: int,
    sels: Seq<Selector>,
    snap: Seq<ResourceRef>,
    platform: Seq<bool>,
    owned: Seq<(String, String)>,
    auto: Seq<(String, String)>,
    project: Seq<char>,
) -> Result<PlanView, Seq<char>>
    decreases k,
{
    if k <= 0 {
        Ok((Seq::empty(), Seq::empty(), Seq::empty()))
    } else {
        match plan_upto(keys, k - 1, sels, snap, platform, owned, auto, project) {
            Err(e) => Err(e),
            Ok((adopt, skipped, seeds)) => {
                let key = keys[k - 1];
                let ex = is_explicit(sels, key);
                match snap_find(snap, key) {
                    None => Ok((adopt, skipped.push((key, not_in_snapshot_msg())), seeds)),
                    Some(i) => match lookup_spec(owned, key) {
                        Some(owner) => if owner == project {
                            if ex {
                                Ok((adopt, skipped.push((key, already_managed_msg())), seeds.push(i)))
                            } else {
                                Ok((adopt, skipped, seeds))
                            }
                        } else if ex {
                            Err(owned_elsewhere_msg(key, owner))
                        } else {
                            Ok((adopt, skipped, seeds))
                        },
                        None => match lookup_spec(auto, key) {
                            Some(ks) => if ex {
                                Ok((adopt, skipped.push((key, auto_created_msg(ks))), seeds))
                            } else {
                                Ok((adopt, skipped, seeds))
                            },
                            None => if platform[i] {
                                if ex {
                                    Ok((adopt, skipped.push((key, platform_managed_msg())), seeds))
                                } else {
                                    Ok((adopt, skipped, seeds))
                                }
                            } else {
                                Ok((adopt.push(i), skipped, seeds))
                            },
                        },
                    },
                }
            },
        }
    }
}

/// What an adoption will do with its candidates.
#[derive(Debug)]
pub struct AdoptPlan {
    /// Snapshot positions of the resources to adopt, in candidate order.
    pub to_adopt: Vec<usize>,
    /// Candidates left alone, with the reason.
    pub skipped: Vec<(String, String)>,
    /// Snapshot positions of explicitly named resources this project
    /// already owns (they still seed dependency expansion).
    pub owned_seeds: Vec<usize>,
}

/// The plan as plain values.
pub open spec fn plan_view(p: AdoptPlan) -> PlanView {
    (
        p.to_adopt@.map_values(|i: usize| i as int),
        p.skipped@.map_values(|x: (String, String)| (x.0@, x.1@)),
        p.owned_seeds@.map_values(|i: usize| i as int),
    )
}

/// The value recorded for `key` (the last entry with that key).
fn lookup_last<'a>(es: &'a Vec<(String, String)>, key: &str) -> (r: Option<&'a String>)
    ensures
        match (r, lookup_spec(es@, key@)) {
            (Some(v), Some(w)) => v@ == w,
            (None, None) => true,
            _ => false,
        },
{
    let mut i = es.len();
    assert(es@.subrange(0, i as int) =~= es@);
    while i > 0
        invariant
            i <= es@.len(),
            lookup_spec(es@, key@) == lookup_spec(es@.subrange(0, i as int), key@),
        decreases i,
    {
        assert(es@.subrange(0, i as int).last() == es@[i - 1]);
        assert(es@.subrange(0, i as int).drop_last() =~= es@.subrange(0, i - 1));
        if str_eq(es[i - 1].0.as_str(), key) {
            return Some(&es[i - 1].1);
        }
        i -= 1;
    }
    None
}

/// The snapshot position of `key`.
fn find_in_snapshot(snap: &Vec<ResourceRef>, key: &str) -> (r: Option<usize>)
    ensures
        match (r, snap_find(snap@, key@)) {
            (Some(i), Some(j)) => i == j && i < snap@.len(),
            (None, None) => true,
            _ => false,
        },
{
    let mut i = snap.len();
    assert(snap@.subrange(0, i as int) =~= snap@);
    while i > 0
        invariant
            i <= snap@.len(),
            snap_find(snap@, key@) == snap_find(snap@.subrange(0, i as int), key@),
        decreases i,
    {
        assert(snap@.subrange(0, i as int).last() == snap@[i - 1]);
        assert(snap@.subrange(0, i as int).drop_last() =~= snap@.subrange(0, i - 1));
        let k = snap[i - 1].key();
        if str_eq(k.as_str(), key) {
            return Some(i - 1);
        }
        i -= 1;
    }
    None
}

/// Whether some selector names `key` explicitly.
fn explicit_key(sels: &Vec<Selector>, key: &str) -> (b: bool)
    ensures
        b == is_explicit(sels@, key@),
{
    let mut i: usize = 0;
    while i < sels.len()
        invariant
            0 <= i <= sels@.len(),
            forall|j: int| 0 <= j < i ==> !names_key(#[trigger] sels@[j], key@),
        decreases sels@.len() - i,
    {
        if let Selector::One(rf) = &sels[i] {
            let k = rf.key();
            if str_eq(k.as_str(), key) {
                return true;
            }
        }
        i += 1;
    }
    false
}

proof fn lemma_plan_err_sticks(
    keys: Seq<Seq<char>>,
    k: int,
    n: int,
    sels: Seq<Selector>,
    snap: Seq<ResourceRef>,
    platform: Seq<bool>,
    owned: Seq<(String, String)>,
    auto: Seq<(String, String)>,
    project: Seq<char>,
)
    requires
        0 <= k <= n,
        plan_upto(keys, k, sels, snap, platform, owned, auto, project) is Err,
    ensures
        plan_upto(keys, n, sels, snap, platform, owned, auto, project) == plan_upto(keys, k, sels, snap, platform, owned, auto, project),
    decreases n - k,
{
    if k < n {
        lemma_plan_err_sticks(keys, k, n - 1, sels, snap, platform, owned, auto, project);
    }
}

/// Classify each candidate key: adopt it, skip it with a reason, or refuse
/// the whole adoption when an explicitly named resource belongs to another
/// project. `platform_managed[i]` says whether snapshot resource `i` is
/// provided by the platform; `owned` maps resource keys to their owning
/// project, `auto_created` to the knowledge source that created them.
pub fn plan_adoption(
    keys: &Vec<String>,
    selectors: &Vec<Selector>,
    snapshot: &Vec<ResourceRef>,
    platform_managed: &Vec<bool>,
    owned: &Vec<(String, String)>,
    auto_created: &Vec<(String, String)>,
    project: &str,
) -> (r: Result<AdoptPlan, String>)
    requires
        platform_managed@.len() == snapshot@.len(),
    ensures
        match (r, plan_upto(views(keys@), keys@.len() as int, selectors@, snapshot@, platform_managed@, owned@, auto_created@, project@)) {
            (Ok(p), Ok(v)) => plan_view(p) == v,
            (Err(e), Err(m)) => e@ == m,
            _ => false,
        },
{
    let ghost kv = views(keys@);
    let mut plan = AdoptPlan { to_adopt: Vec::new(), skipped: Vec::new(), owned_seeds: Vec::new() };
    assert(plan_view(plan) =~= (Seq::<int>::empty(), Seq::<(Seq<char>, Seq<char>)>::empty(), Seq::<int>::empty()));
    let mut k: usize = 0;
    while k < keys.len()
        invariant
            kv == views(keys@),
            platform_managed@.len() == snapshot@.len(),
            0 <= k <= keys@.len(),
            plan_upto(kv, k as int, selectors@, snapshot@, platform_managed@, owned@, auto_created@, project@) == Ok::<PlanView, Seq<char>>(plan_view(plan)),
        decreases keys@.len() - k,
    {
        let key = keys[k].as_str();
        assert(kv[k as int] == key@);
        let ex = explicit_key(selectors, key);
        let ghost before = plan_view(plan);
        match find_in_snapshot(snapshot, key) {
            None => {
                plan.skipped.push((keys[k].clone(), copy_str("no matching unmanaged remote resource")));
                assert(plan_view(plan).1 =~= before.1.push((key@, not_in_snapshot_msg())));
            },
            Some(i) => match lookup_last(owned, key) {
                Some(owner) => {
                    if str_eq(owner.as_str(), project) {
                        if ex {
                            plan.skipped.push((keys[k].clone(), copy_str("already managed by this project")));
                            plan.owned_seeds.push(i);
                            assert(plan_view(plan).1 =~= before.1.push((key@, already_managed_msg())));
                            assert(plan_view(plan).2 =~= before.2.push(i as int));
                        }
                    } else if ex {
                        let mut e = copy_str(key);
                        push_str(&mut e, " is owned by project '");
                        push_str(&mut e, owner.as_str());
                        push_str(&mut e, "' \u{2014} a resource belongs to exactly one project");
                        proof {
                            lemma_plan_err_sticks(kv, k + 1, keys@.len() as int, selectors@, snapshot@, platform_managed@, owned@, auto_created@, project@);
                        }
                        return Err(e);
                    }
                },
                None => match lookup_last(auto_created, key) {
                    Some(ks) => {
                        if ex {
                            let mut m = copy_str("auto-created by knowledge source '");
                            push_str(&mut m, ks.as_str());
                            push_str(&mut m, "' \u{2014} manage it via the knowledge source");
                            plan.skipped.push((keys[k].clone(), m));
                            assert(plan_view(plan).1 =~= before.1.push((key@, auto_created_msg(ks@))));
                        }
                    },
                    None => {
                        if platform_managed[i] {
                            if ex {
                                plan.skipped.push((
                                    keys[k].clone(),
                                    copy_str("platform-managed (provided by Microsoft) \u{2014} reference it, don't adopt it"),
                                ));
                                assert(plan_view(plan).1 =~= before.1.push((key@, platform_managed_msg())));
                            }
                        } else {
                            plan.to_adopt.push(i);
                            assert(plan_view(plan).0 =~= before.0.push(i as int));
                        }
                    },
                },
            },
        }
        k += 1;
    }
    Ok(plan)
}

/// Law (exclusive ownership): an adoption never takes a resource any
/// project owns, one a knowledge source created, or one the platform
/// provides.
pub proof fn law_adoption_takes_only_unmanaged(
    keys: Seq<Seq<char>>,
    k: int,
    sels: Seq<Selector>,
    snap: Seq<ResourceRef>,
    platform: Seq<bool>,
    owned: Seq<(String, String)>,
    auto: Seq<(String, String)>,
    project: Seq<char>,
)
    requires
        platform.len() == snap.len(),
        plan_upto(keys, k, sels, snap, platform, owned, auto, project) is Ok,
    ensures
        ({
            let adopt = plan_upto(keys, k, sels, snap, platform, owned, auto, project)->Ok_0.0;
            forall|j: int| 0 <= j < adopt.len() ==> {
                &&& 0 <= #[trigger] adopt[j] < snap.len()
                &&& lookup_spec(owned, snap[adopt[j]].key_spec()) is None
                &&& lookup_spec(auto, snap[adopt[j]].key_spec()) is None
                &&& !platform[adopt[j]]
            }
        }),
    decreases k,
{
    if k > 0 {
        law_adoption_takes_only_unmanaged(keys, k - 1, sels, snap, platform, owned, auto, project);
        let key = keys[k - 1];
        lemma_snap_find(snap, key);
    }
}

proof fn lemma_snap_find(snap: Seq<ResourceRef>, key: Seq<char>)
    ensures
        snap_find(snap, key) matches Some(i) ==> 0 <= i < snap.len() && snap[i].key_spec() == key,
    decreases snap.len(),
{
    if snap.len() > 0 && snap.last().key_spec() != key {
        lemma_snap_find(snap.drop_last(), key);
    }
}

/// The refusal when no project is named outside the wizard.
pub open spec fn name_a_project_msg() -> Seq<char> {
    "name a project (rigg adopt <project> <selector>...), or run on an interactive terminal for the wizard"@
}

/// The refusal when no selector is given outside the wizard.
pub open spec fn name_a_selector_msg() -> Seq<char> {
    "name at least one selector: `all`, a kind (`indexes`), or `<kind>/<name>` (`agents/regulus`)"@
}

/// Whether `rigg adopt` runs its wizard: on an interactive terminal without
/// JSON output, when the project or the selectors are missing. Outside the
/// wizard both must be given.
pub fn adoption_mode(interactive: bool, json: bool, has_project: bool, has_selectors: bool) -> (r: Result<bool, String>)
    ensures
        ({
            let wizard = interactive && !json && (!has_project || !has_selectors);
            if wizard {
                r == Ok::<bool, String>(true)
            } else if !has_project {
                r matches Err(e) && e@ == name_a_project_msg()
            } else if !has_selectors {
                r matches Err(e) && e@ == name_a_selector_msg()
            } else {
                r == Ok::<bool, String>(false)
            }
        }),
{
    let wizard = interactive && !json && (!has_project || !has_selectors);
    if !wizard {
        if !has_project {
            return Err(copy_str(
                "name a project (rigg adopt <project> <selector>...), or run on an interactive terminal for the wizard",
            ));
        }
        if !has_selectors {
            return Err(copy_str(
                "name at least one selector: `all`, a kind (`indexes`), or `<kind>/<name>` (`agents/regulus`)",
            ));
        }
    }
    Ok(wizard)
}

/// What `adoption_mode` decides: whether the wizard runs, or the refusal.
pub open spec fn adoption_mode_spec(interactive: bool, json: bool, has_project: bool, has_selectors: bool) -> Result<bool, Seq<char>> {
    if interactive && !json && (!has_project || !has_selectors) {
        Ok(true)
    } else if !has_project {
        Err(name_a_project_msg())
    } else if !has_selectors {
        Err(name_a_selector_msg())
    } else {
        Ok(false)
    }
}

/// `sel` is what `Selector::parse` gives for `s`.
pub open spec fn parses_to(s: Seq<char>, sel: Selector) -> bool {
    if s == "all"@ {
        sel == Selector::All
    } else {
        match (sel, parse_selector_spec(s)) {
            (Selector::Kind(k), Ok((k2, None))) => k == k2,
            (Selector::One(rf), Ok((k2, Some(n)))) => rf.kind == k2 && rf.name@ == n,
            _ => false,
        }
    }
}

/// Why `s` is not a selector, if it is not one.
pub open spec fn selector_error(s: Seq<char>) -> Option<Seq<char>> {
    if s == "all"@ {
        None
    } else {
        match parse_selector_spec(s) {
            Ok(_) => None,
            Err(e) => Some(e),
        }
    }
}

/// The first selector among `ss[from..]` that does not parse, and why.
pub open spec fn first_selector_error(ss: Seq<Seq<char>>, from: int) -> Option<Seq<char>>
    decreases ss.len() - from,
{
    if from < 0 || from >= ss.len() {
        None
    } else {
        match selector_error(ss[from]) {
            Some(e) => Some(e),
            None => first_selector_error(ss, from + 1),
        }
    }
}

proof fn lemma_first_selector_error(ss: Seq<Seq<char>>, from: int)
    requires
        0 <= from,
    ensures
        first_selector_error(ss, from) is Some <==> exists|i: int| from <= i < ss.len() && #[trigger] selector_error(ss[i]) is Some,
    decreases ss.len() - from,
{
    if from < ss.len() {
        lemma_first_selector_error(ss, from + 1);
    }
}

/// The usage checks `rigg adopt` makes before it reads a workspace or
/// calls Azure: every given selector parses (the first that does not is
/// the refusal), and outside the wizard both a project and a selector are
/// named. The result is the parsed selectors, in order, and whether the
/// wizard runs.
pub fn adopt_usage(selectors: &[String], has_project: bool, interactive: bool, json: bool) -> (r: Result<(Vec<Selector>, bool), String>)
    ensures
        r is Err <==> (exists|i: int| 0 <= i < selectors@.len() && #[trigger] selector_error(selectors@[i]@) is Some)
            || (!(interactive && !json) && (!has_project || selectors@.len() == 0)),
        match first_selector_error(views(selectors@), 0) {
            Some(e) => r matches Err(m) && m@ == e,
            None => match r {
                Ok((sels, wizard)) => {
                    &&& sels@.len() == selectors@.len()
                    &&& forall|i: int| 0 <= i < sels@.len() ==> parses_to(selectors@[i]@, #[trigger] sels@[i])
                    &&& adoption_mode_spec(interactive, json, has_project, selectors@.len() > 0) == Ok::<bool, Seq<char>>(wizard)
                },
                Err(m) => adoption_mode_spec(interactive, json, has_project, selectors@.len() > 0) == Err::<bool, Seq<char>>(m@),
            },
        },
{
    let ghost ss = views(selectors@);
    let mut sels: Vec<Selector> = Vec::new();
    let mut i: usize = 0;
    while i < selectors.len()
        invariant
            i <= selectors@.len(),
            ss == views(selectors@),
            sels@.len() == i,
            forall|k: int| 0 <= k < i ==> parses_to(selectors@[k]@, #[trigger] sels@[k]),
            first_selector_error(ss, 0) == first_selector_error(ss, i as int),
        decreases selectors@.len() - i,
    {
        assert(ss[i as int] == selectors@[i as int]@);
        match Selector::parse(selectors[i].as_str()) {
            Ok(sel) => {
                sels.push(sel);
            },
            Err(e) => {
                proof {
                    assert(selector_error(selectors@[i as int]@) is Some);
                }
                return Err(e);
            },
        }
        i += 1;
    }
    assert(first_selector_error(ss, i as int) is None);
    proof {
        lemma_first_selector_error(ss, 0);
        assert forall|k: int| 0 <= k < selectors@.len() implies #[trigger] selector_error(selectors@[k]@) is None by {
            assert(ss[k] == selectors@[k]@);
            assert(selector_error(ss[k]) is None);
        }
    }
    match adoption_mode(interactive, json, has_project, selectors.len() > 0) {
        Ok(wizard) => Ok((sels, wizard)),
        Err(m) => Err(m),
    }
}

/// Foundry kinds come before Search kinds in the wizard.
pub open spec fn domain_rank(k: ResourceKind) -> int {
    match k.domain_spec() {
        ServiceDomain::Foundry => 0,
        ServiceDomain::Search => 1,
    }
}

/// The wizard's order: by domain (Foundry first), kind directory, name.
pub open spec fn wizard_precedes(a: ResourceRef, b: ResourceRef) -> bool {
    let (ra, rb) = (domain_rank(a.kind), domain_rank(b.kind));
    ||| ra < rb
    ||| ra == rb && text_less(a.kind.dir(), b.kind.dir())
    ||| ra == rb && a.kind.dir() == b.kind.dir() && text_less(a.name@, b.name@)
}

proof fn lemma_wizard_order(a: ResourceRef, b: ResourceRef, c: ResourceRef)
    ensures
        wizard_precedes(a, b) ==> !wizard_precedes(b, a),
        !wizard_precedes(a, b) && !wizard_precedes(b, c) ==> !wizard_precedes(a, c),
{
    let (da, db, dc) = (a.kind.dir(), b.kind.dir(), c.kind.dir());
    let (na, nb, nc) = (a.name@, b.name@, c.name@);
    lemma_text_less_asymmetric(da, db);
    lemma_text_less_asymmetric(na, nb);
    lemma_text_less_total(da, db);
    lemma_text_less_total(db, dc);
    lemma_text_less_total(da, dc);
    lemma_text_less_total(na, nb);
    lemma_text_less_total(nb, nc);
    lemma_text_less_total(na, nc);
    lemma_text_less_irreflexive(da);
    lemma_text_less_irreflexive(na);
    lemma_text_less_asymmetric(da, dc);
    lemma_text_less_asymmetric(na, nc);
    if text_less(dc, db) && text_less(db, da) {
        lemma_text_less_transitive(dc, db, da);
    }
    if text_less(nc, nb) && text_less(nb, na) {
        lemma_text_less_transitive(nc, nb, na);
    }
}

fn domain_rank_exec(k: ResourceKind) -> (r: u8)
    ensures
        r == domain_rank(k),
{
    match k.domain() {
        ServiceDomain::Foundry => 0,
        ServiceDomain::Search => 1,
    }
}

/// Wizard entries are listed in the wizard's order of their resources.
impl Ranked for (ResourceRef, String) {
    open spec fn precedes(&self, other: &Self) -> bool {
        wizard_precedes(self.0, other.0)
    }

    proof fn lemma_order(a: Self, b: Self, c: Self) {
        lemma_wizard_order(a.0, b.0, c.0);
    }

    fn precedes_exec(&self, other: &Self) -> (r: bool) {
        let (ra, rb) = (domain_rank_exec(self.0.kind), domain_rank_exec(other.0.kind));
        if ra != rb {
            return ra < rb;
        }
        let (da, db) = (self.0.kind.directory_name(), other.0.kind.directory_name());
        if text_less_exec(da, db) {
            return true;
        }
        str_eq(da, db) && text_less_exec(self.0.name.as_str(), other.0.name.as_str())
    }
}

/// The label's prefix naming the resource's service.
pub open spec fn domain_label(k: ResourceKind) -> Seq<char> {
    match k.domain_spec() {
        ServiceDomain::Foundry => "[Foundry]"@,
        ServiceDomain::Search => "[Search]"@,
    }
}

/// The wizard's label of a resource: `[Foundry] agents/x`, with
/// ` (managed)` when the target project already owns it.
pub open spec fn wizard_label(r: ResourceRef, managed: bool) -> Seq<char> {
    let base = domain_label(r.kind) + " "@ + r.kind.dir() + "/"@ + r.name@;
    if managed {
        base + " (managed)"@
    } else {
        base
    }
}

/// The wizard offers a resource unless another project owns it, the
/// platform provides it, or a knowledge source created it.
pub open spec fn wizard_offers(r: ResourceRef, platform: bool, owned: Seq<(String, String)>, auto: Seq<(String, String)>, project: Seq<char>) -> bool {
    &&& !(lookup_spec(owned, r.key_spec()) matches Some(o) && o != project)
    &&& !platform
    &&& lookup_spec(auto, r.key_spec()) is None
}

/// The wizard's entry for an offered resource, as plain values.
pub open spec fn wizard_entry(r: ResourceRef, owned: Seq<(String, String)>, project: Seq<char>) -> WizardEntry {
    (r.kind, r.name@, wizard_label(r, lookup_spec(owned, r.key_spec()) == Some(project)))
}

/// A wizard entry as plain values: the resource's kind and name, and the label.
pub type WizardEntry = (ResourceKind, Seq<char>, Seq<char>);

/// The entries for the offered resources among the first `n` of the
/// snapshot, in snapshot order.
pub open spec fn offered_upto(
    snap: Seq<ResourceRef>,
    platform: Seq<bool>,
    owned: Seq<(String, String)>,
    auto: Seq<(String, String)>,
    project: Seq<char>,
    n: int,
) -> Seq<WizardEntry>
    decreases n,
{
    if n <= 0 {
        Seq::empty()
    } else {
        let prev = offered_upto(snap, platform, owned, auto, project, n - 1);
        if wizard_offers(snap[n - 1], platform[n - 1], owned, auto, project) {
            prev.push(wizard_entry(snap[n - 1], owned, project))
        } else {
            prev
        }
    }
}

/// `e` is the entry of one of the first `n` snapshot resources that the
/// wizard offers.
pub open spec fn offered_entry(
    e: WizardEntry,
    snap: Seq<ResourceRef>,
    platform: Seq<bool>,
    owned: Seq<(String, String)>,
    auto: Seq<(String, String)>,
    project: Seq<char>,
    n: int,
) -> bool {
    exists|i: int| 0 <= i < n && #[trigger] wizard_offers(snap[i], platform[i], owned, auto, project)
        && e == wizard_entry(snap[i], owned, project)
}

/// Law: every entry the wizard offers comes from a snapshot resource that
/// no other project owns, that the platform does not provide and that no
/// knowledge source created, labelled as `wizard_entry` labels it.
pub proof fn law_wizard_offers_only_adoptable(
    snap: Seq<ResourceRef>,
    platform: Seq<bool>,
    owned: Seq<(String, String)>,
    auto: Seq<(String, String)>,
    project: Seq<char>,
    n: int,
)
    requires
        0 <= n <= snap.len(),
        platform.len() == snap.len(),
    ensures
        forall|j: int| 0 <= j < offered_upto(snap, platform, owned, auto, project, n).len() ==> offered_entry(
            #[trigger] offered_upto(snap, platform, owned, auto, project, n)[j],
            snap,
            platform,
            owned,
            auto,
            project,
            n,
        ),
    decreases n,
{
    if n > 0 {
        law_wizard_offers_only_adoptable(snap, platform, owned, auto, project, n - 1);
        let prev = offered_upto(snap, platform, owned, auto, project, n - 1);
        let cur = offered_upto(snap, platform, owned, auto, project, n);
        assert forall|j: int| 0 <= j < cur.len() implies offered_entry(#[trigger] cur[j], snap, platform, owned, auto, project, n) by {
            if j < prev.len() {
                assert(cur[j] == prev[j]);
                assert(offered_entry(prev[j], snap, platform, owned, auto, project, n - 1));
                let i = choose|i: int| 0 <= i < n - 1 && #[trigger] wizard_offers(snap[i], platform[i], owned, auto, project)
                    && prev[j] == wizard_entry(snap[i], owned, project);
                assert(wizard_offers(snap[i], platform[i], owned, auto, project));
            } else {
                assert(cur[j] == wizard_entry(snap[n - 1], owned, project));
                assert(wizard_offers(snap[n - 1], platform[n - 1], owned, auto, project));
            }
        }
    }
}

/// Entries as plain values.
pub open spec fn entry_views(es: Seq<(ResourceRef, String)>) -> Seq<WizardEntry> {
    es.map_values(|e: (ResourceRef, String)| (e.0.kind, e.0.name@, e.1@))
}

/// The wizard's multi-select: the unmanaged resources of the snapshot (and
/// those the target project already owns, marked managed, so that picking
/// one seeds its missing dependencies), sorted Foundry first, then by kind
/// directory and name. `platform_managed[i]` says whether snapshot resource
/// `i` is provided by the platform; `owned` maps resource keys to their
/// owning project, `auto_created` to the knowledge source that created them.
pub fn wizard_candidates(
    snapshot: &Vec<ResourceRef>,
    platform_managed: &Vec<bool>,
    owned: &Vec<(String, String)>,
    auto_created: &Vec<(String, String)>,
    project: &str,
) -> (r: Vec<(ResourceRef, String)>)
    requires
        platform_managed@.len() == snapshot@.len(),
    ensures
        exists|offered: Seq<(ResourceRef, String)>|
            entry_views(offered) == offered_upto(snapshot@, platform_managed@, owned@, auto_created@, project@, snapshot@.len() as int)
                && r@ == ranked(offered),
{
    let mut items: Vec<(ResourceRef, String)> = Vec::new();
    let mut i: usize = 0;
    while i < snapshot.len()
        invariant
            i <= snapshot@.len(),
            platform_managed@.len() == snapshot@.len(),
            entry_views(items@) == offered_upto(snapshot@, platform_managed@, owned@, auto_created@, project@, i as int),
        decreases snapshot@.len() - i,
    {
        let r = &snapshot[i];
        let key = r.key();
        let owner = lookup_last(owned, key.as_str());
        let by_other = match owner {
            Some(o) => !str_eq(o.as_str(), project),
            None => false,
        };
        let auto = lookup_last(auto_created, key.as_str());
        if !by_other && !platform_managed[i] && auto.is_none() {
            let managed = match owner {
                Some(o) => str_eq(o.as_str(), project),
                None => false,
            };
            let mut label = copy_str(match r.kind.domain() {
                ServiceDomain::Foundry => "[Foundry]",
                ServiceDomain::Search => "[Search]",
            });
            push_str(&mut label, " ");
            push_str(&mut label, r.kind.directory_name());
            push_str(&mut label, "/");
            push_str(&mut label, r.name.as_str());
            if managed {
                push_str(&mut label, " (managed)");
            }
            let ghost before = items@;
            items.push((ResourceRef::new(r.kind, copy_str(r.name.as_str())), label));
            proof {
                assert(lookup_spec(owned@, r.key_spec()) == Some(project@) <==> managed);
                assert(entry_views(items@) =~= entry_views(before).push(wizard_entry(snapshot@[i as int], owned@, project@)));
            }
        }
        i += 1;
    }
    sort_ranked(&mut items);
    items
}

/// How an adoption is confirmed before anything is written.
#[derive(Clone, Debug, PartialEq, Eq)]
pub enum Confirmation {
    /// Write without asking.
    Proceed,
    /// The wizard lists the resources and asks (default yes).
    Wizard,
    /// A broad selector on a terminal: list and ask.
    Prompt,
    /// A broad selector without a terminal and without `--yes`.
    Refuse(String),
}

/// The refusal for a broad selector in non-interactive mode.
pub open spec fn broad_refusal_msg() -> Seq<char> {
    "broad selector in non-interactive mode: pass --yes to adopt, or --dry-run to preview"@
}

/// Decide how an adoption is confirmed: the wizard always asks; a broad
/// selector asks on a terminal and is refused elsewhere unless `--yes`;
/// nothing is asked for an empty plan or a dry run.
pub fn adoption_confirmation(
    wizard: bool,
    anything: bool,
    broad: bool,
    yes: bool,
    dry_run: bool,
    interactive: bool,
    json: bool,
) -> (c: Confirmation)
    ensures
        wizard && anything && !dry_run ==> c == Confirmation::Wizard,
        !(wizard && anything && !dry_run) && anything && broad && !yes && !dry_run ==> if interactive && !json {
            c == Confirmation::Prompt
        } else {
            c matches Confirmation::Refuse(m) && m@ == broad_refusal_msg()
        },
        !(wizard && anything && !dry_run) && !(anything && broad && !yes && !dry_run) ==> c == Confirmation::Proceed,
{
    if wizard && anything && !dry_run {
        Confirmation::Wizard
    } else if anything && broad && !yes && !dry_run {
        if interactive && !json {
            Confirmation::Prompt
        } else {
            Confirmation::Refuse(
                copy_str("broad selector in non-interactive mode: pass --yes to adopt, or --dry-run to preview"),
            )
        }
    } else {
        Confirmation::Proceed
    }
}

} // verus!
