//! Editing the environments of `rigg.yaml`: declaring and removing
//! dependency bindings, choosing the default environment, removing an
//! environment, and planning `rigg env add`.
use vstd::prelude::*;

use crate::binding::{
    Binding, BindingType, NamedBinding, binding_name_problem, parse_bind_flag, parse_bind_flag_spec,
    valid_binding_name_spec, validate_binding_name,
};
use crate::proposals::{is_skip, skip_answer};
use crate::sorting::{
    text_less, text_less_exec, lemma_text_less_total, lemma_text_less_transitive,
};
use crate::text::{chars_of, copy_str, lower_seq, push_str, str_eq};
use crate::workspace::{
    Environment, FoundryConnection, NamedEnvironment, Policy, SearchConnection, WorkspaceConfig,
    default_index, env_index, find_env, lemma_default_index, lemma_env_index, selected_env_name,
};

verus! {

// ---------------------------------------------------------------------------
// Bindings of one environment
// ---------------------------------------------------------------------------

/// The first index at or after `from` of a binding named `n`, or -1.
pub open spec fn dep_find(ds: Seq<NamedBinding>, n: Seq<char>, from: int) -> int
    decreases ds.len() - from,
{
    if from < 0 || from >= ds.len() {
        -1
    } else if ds[from].name@ == n {
        from
    } else {
        dep_find(ds, n, from + 1)
    }
}

/// The binding named `n`.
pub open spec fn binding_named(ds: Seq<NamedBinding>, n: Seq<char>) -> Option<Binding> {
    let i = dep_find(ds, n, 0);
    if i >= 0 {
        Some(ds[i].binding)
    } else {
        None
    }
}

/// `ds` with `nb` declared: a binding of that name is replaced where it
/// stands, a new one is added at the end.
pub open spec fn deps_set(ds: Seq<NamedBinding>, nb: NamedBinding) -> Seq<NamedBinding> {
    let i = dep_find(ds, nb.name@, 0);
    if i >= 0 {
        ds.update(i, nb)
    } else {
        ds.push(nb)
    }
}

/// A `(name, binding)` pair as a named binding.
pub open spec fn as_named(p: (String, Binding)) -> NamedBinding {
    NamedBinding { name: p.0, binding: p.1 }
}

/// `ds` with every pair of `bs` declared, in order.
pub open spec fn deps_set_all(ds: Seq<NamedBinding>, bs: Seq<(String, Binding)>) -> Seq<NamedBinding>
    decreases bs.len(),
{
    if bs.len() == 0 {
        ds
    } else {
        deps_set(deps_set_all(ds, bs.drop_last()), as_named(bs.last()))
    }
}

/// The binding the last pair named `n` in `bs` declares.
pub open spec fn last_named(bs: Seq<(String, Binding)>, n: Seq<char>) -> Option<Binding>
    decreases bs.len(),
{
    if bs.len() == 0 {
        None
    } else if bs.last().0@ == n {
        Some(bs.last().1)
    } else {
        last_named(bs.drop_last(), n)
    }
}

/// The first pair whose name is not a valid binding name.
pub open spec fn first_invalid_name(bs: Seq<(String, Binding)>) -> Option<int> {
    if exists|k: int| 0 <= k < bs.len() && !valid_binding_name_spec(#[trigger] bs[k].0@) {
        Some(
            choose|k: int|
                0 <= k < bs.len() && !valid_binding_name_spec(#[trigger] bs[k].0@) && forall|j: int|
                    0 <= j < k ==> valid_binding_name_spec(#[trigger] bs[j].0@),
        )
    } else {
        None
    }
}

/// What `dep_find` returns.
pub proof fn lemma_dep_find(ds: Seq<NamedBinding>, n: Seq<char>, from: int)
    requires
        0 <= from,
    ensures
        dep_find(ds, n, from) == -1 || (from <= dep_find(ds, n, from) < ds.len()
            && ds[dep_find(ds, n, from)].name@ == n),
        dep_find(ds, n, from) == -1 ==> forall|j: int| from <= j < ds.len() ==> ds[j].name@ != n,
        dep_find(ds, n, from) >= 0 ==> forall|j: int| from <= j < dep_find(ds, n, from) ==> ds[j].name@ != n,
    decreases ds.len() - from,
{
    if from < ds.len() && ds[from].name@ != n {
        lemma_dep_find(ds, n, from + 1);
    }
}

/// The first binding named `n` is at `i` when no earlier one is.
pub proof fn lemma_dep_find_at(ds: Seq<NamedBinding>, n: Seq<char>, i: int)
    requires
        0 <= i <= ds.len(),
        forall|j: int| 0 <= j < i ==> ds[j].name@ != n,
        i < ds.len() ==> ds[i].name@ == n,
    ensures
        dep_find(ds, n, 0) == if i < ds.len() { i } else { -1 },
{
    lemma_dep_find(ds, n, 0);
    let r = dep_find(ds, n, 0);
    if r >= 0 && r < i {
        assert(ds[r].name@ != n);
    }
    if i < ds.len() && r == -1 {
        assert(ds[i].name@ != n);
    }
}

/// The position of the binding named `name`, or the count.
pub(crate) fn dep_position(ds: &Vec<NamedBinding>, name: &str) -> (i: usize)
    ensures
        i <= ds@.len(),
        dep_find(ds@, name@, 0) == if i < ds@.len() { i as int } else { -1 },
{
    let mut i: usize = 0;
    while i < ds.len()
        invariant
            i <= ds@.len(),
            forall|j: int| 0 <= j < i ==> ds@[j].name@ != name@,
        ensures
            i <= ds@.len(),
            forall|j: int| 0 <= j < i ==> ds@[j].name@ != name@,
            i < ds@.len() ==> ds@[i as int].name@ == name@,
        decreases ds@.len() - i,
    {
        if str_eq(ds[i].name.as_str(), name) {
            break;
        }
        i = i + 1;
    }
    proof {
        lemma_dep_find_at(ds@, name@, i as int);
    }
    i
}

/// Declare every pair of `bs` in `ds`.
fn declare_all(ds: &mut Vec<NamedBinding>, bs: &Vec<(String, Binding)>)
    ensures
        final(ds)@ == deps_set_all(old(ds)@, bs@),
{
    let ghost start = ds@;
    let mut k: usize = 0;
    while k < bs.len()
        invariant
            k <= bs@.len(),
            ds@ == deps_set_all(start, bs@.take(k as int)),
        decreases bs@.len() - k,
    {
        assert(bs@.take(k + 1).drop_last() =~= bs@.take(k as int));
        let nb = NamedBinding { name: bs[k].0.clone(), binding: bs[k].1.copy() };
        assert(nb == as_named(bs@[k as int]));
        let i = dep_position(ds, bs[k].0.as_str());
        if i < ds.len() {
            ds.set(i, nb);
        } else {
            ds.push(nb);
        }
        k = k + 1;
    }
    assert(bs@.take(bs@.len() as int) =~= bs@);
}

// ---------------------------------------------------------------------------
// Editing the configuration
// ---------------------------------------------------------------------------

/// `new` is `old` with the environment at `i` given the bindings `ds` and
/// nothing else changed.
pub open spec fn deps_replaced(old: WorkspaceConfig, new: WorkspaceConfig, i: int, ds: Seq<NamedBinding>) -> bool {
    &&& new.name == old.name
    &&& new.root == old.root
    &&& new.environments@.len() == old.environments@.len()
    &&& forall|j: int| 0 <= j < old.environments@.len() && j != i ==> new.environments@[j] == old.environments@[j]
    &&& new.environments@[i].name == old.environments@[i].name
    &&& new.environments@[i].env.default == old.environments@[i].env.default
    &&& new.environments@[i].env.tenant == old.environments@[i].env.tenant
    &&& new.environments@[i].env.subscription == old.environments@[i].env.subscription
    &&& new.environments@[i].env.search == old.environments@[i].env.search
    &&& new.environments@[i].env.foundry == old.environments@[i].env.foundry
    &&& new.environments@[i].env.policy == old.environments@[i].env.policy
    &&& new.environments@[i].env.dependencies@ == ds
}

/// The message for an environment `rigg.yaml` does not have.
pub open spec fn unknown_env_msg(env: Seq<char>) -> Seq<char> {
    "unknown environment '"@ + env + "'"@
}

/// The message for a binding an environment does not have.
pub open spec fn no_binding_msg(env: Seq<char>, name: Seq<char>) -> Seq<char> {
    "environment '"@ + env + "' has no binding '"@ + name + "'"@
}

/// `unknown environment '<env>'`.
fn unknown_env(env: &str) -> (e: String)
    ensures
        e@ == unknown_env_msg(env@),
{
    let mut e = copy_str("unknown environment '");
    push_str(&mut e, env);
    push_str(&mut e, "'");
    e
}

/// Replace the bindings of the environment at `i` by applying `f`-like
/// edits: take it out, hand back its parts.
fn take_env(config: &mut WorkspaceConfig, i: usize) -> (r: (String, Environment))
    requires
        i < old(config).environments@.len(),
    ensures
        r.0 == old(config).environments@[i as int].name,
        r.1 == old(config).environments@[i as int].env,
        final(config).environments@ == old(config).environments@.remove(i as int),
        final(config).name == old(config).name,
        final(config).root == old(config).root,
{
    let ne = config.environments.remove(i);
    (ne.name, ne.env)
}

/// Put an environment back at `i`, with the bindings `deps`.
fn put_env(config: &mut WorkspaceConfig, i: usize, name: String, env: Environment, deps: Vec<NamedBinding>)
    requires
        i <= old(config).environments@.len(),
    ensures
        final(config).name == old(config).name,
        final(config).root == old(config).root,
        final(config).environments@.len() == old(config).environments@.len() + 1,
        forall|j: int| 0 <= j < i ==> final(config).environments@[j] == old(config).environments@[j],
        forall|j: int| i < j < final(config).environments@.len() ==> final(config).environments@[j] == old(config).environments@[j - 1],
        final(config).environments@[i as int].name == name,
        final(config).environments@[i as int].env.default == env.default,
        final(config).environments@[i as int].env.tenant == env.tenant,
        final(config).environments@[i as int].env.subscription == env.subscription,
        final(config).environments@[i as int].env.search == env.search,
        final(config).environments@[i as int].env.foundry == env.foundry,
        final(config).environments@[i as int].env.policy == env.policy,
        final(config).environments@[i as int].env.dependencies@ == deps@,
{
    let Environment { default, tenant, subscription, search, foundry, policy, dependencies: _ } = env;
    let ne = NamedEnvironment {
        name,
        env: Environment { default, tenant, subscription, search, foundry, policy, dependencies: deps },
    };
    config.environments.insert(i, ne);
}

/// Changing only what an environment holds, not its name, keeps the order.
proof fn lemma_names_kept_sorted(old: Seq<NamedEnvironment>, new: Seq<NamedEnvironment>)
    requires
        envs_sorted(old),
        new.len() == old.len(),
        forall|j: int| 0 <= j < old.len() ==> (#[trigger] new[j]).name == old[j].name,
    ensures
        envs_sorted(new),
{
    assert forall|a: int, b: int| 0 <= a < b < new.len() implies text_less((#[trigger] new[a]).name@, (#[trigger] new[b]).name@) by {
        assert(new[a].name == old[a].name && new[b].name == old[b].name);
    }
}

/// Declare (or replace) bindings of environment `env` in one edit. Every
/// name must be a valid binding name (the first invalid one is refused),
/// and the environment must exist.
pub fn set_bindings(config: &mut WorkspaceConfig, env: &str, bindings: &Vec<(String, Binding)>) -> (r: Result<(), String>)
    ensures
        match first_invalid_name(bindings@) {
            Some(k) => r matches Err(e) && e@ == binding_name_problem(bindings@[k].0@) && *final(config) == *old(config),
            None => match env_index(old(config).environments@, env@) {
                None => r matches Err(e) && e@ == unknown_env_msg(env@) && *final(config) == *old(config),
                Some(i) => r is Ok && deps_replaced(
                    *old(config),
                    *final(config),
                    i,
                    deps_set_all(old(config).environments@[i].env.dependencies@, bindings@),
                ),
            },
        },
        envs_sorted(old(config).environments@) ==> envs_sorted(final(config).environments@),
{
    let mut k: usize = 0;
    while k < bindings.len()
        invariant
            k <= bindings@.len(),
            forall|j: int| 0 <= j < k ==> valid_binding_name_spec(#[trigger] bindings@[j].0@),
        decreases bindings@.len() - k,
    {
        match validate_binding_name(bindings[k].0.as_str()) {
            Ok(()) => {},
            Err(e) => {
                proof {
                    let c = choose|c: int|
                        0 <= c < bindings@.len() && !valid_binding_name_spec(#[trigger] bindings@[c].0@) && forall|j: int|
                            0 <= j < c ==> valid_binding_name_spec(#[trigger] bindings@[j].0@);
                    if c < k {
                        assert(valid_binding_name_spec(bindings@[c].0@));
                    } else if c > k {
                        assert(valid_binding_name_spec(bindings@[k as int].0@));
                    }
                }
                return Err(e);
            },
        }
        k = k + 1;
    }
    let i = match find_env(&config.environments, env) {
        Some(i) => i,
        None => return Err(unknown_env(env)),
    };
    let ghost before = *config;
    let (name, e) = take_env(config, i);
    let mut deps = Vec::new();
    let mut old_deps = e.dependencies;
    std::mem::swap(&mut deps, &mut old_deps);
    let e = Environment { dependencies: Vec::new(), ..e };
    declare_all(&mut deps, bindings);
    put_env(config, i, name, e, deps);
    proof {
        assert forall|j: int| 0 <= j < before.environments@.len() && j != i implies config.environments@[j]
            == before.environments@[j] by {
            if j > i {
                assert(before.environments@.remove(i as int)[j - 1] == before.environments@[j]);
            }
        }
        if envs_sorted(before.environments@) {
            assert forall|j: int| 0 <= j < before.environments@.len() implies (#[trigger] config.environments@[j]).name
                == before.environments@[j].name by {
                if j != i {
                    assert(config.environments@[j] == before.environments@[j]);
                }
            }
            lemma_names_kept_sorted(before.environments@, config.environments@);
        }
    }
    Ok(())
}

/// Remove binding `name` from environment `env`.
pub fn remove_binding(config: &mut WorkspaceConfig, env: &str, name: &str) -> (r: Result<(), String>)
    ensures
        match env_index(old(config).environments@, env@) {
            None => r matches Err(e) && e@ == unknown_env_msg(env@) && *final(config) == *old(config),
            Some(i) => {
                let ds = old(config).environments@[i].env.dependencies@;
                let k = dep_find(ds, name@, 0);
                if k < 0 {
                    r matches Err(e) && e@ == no_binding_msg(env@, name@) && *final(config) == *old(config)
                } else {
                    r is Ok && deps_replaced(*old(config), *final(config), i, ds.remove(k))
                }
            },
        },
        envs_sorted(old(config).environments@) ==> envs_sorted(final(config).environments@),
{
    let i = match find_env(&config.environments, env) {
        Some(i) => i,
        None => return Err(unknown_env(env)),
    };
    let k = dep_position(&config.environments[i].env.dependencies, name);
    if k >= config.environments[i].env.dependencies.len() {
        let mut e = copy_str("environment '");
        push_str(&mut e, env);
        push_str(&mut e, "' has no binding '");
        push_str(&mut e, name);
        push_str(&mut e, "'");
        return Err(e);
    }
    let ghost before = *config;
    let (n, e) = take_env(config, i);
    let mut deps = Vec::new();
    let mut old_deps = e.dependencies;
    std::mem::swap(&mut deps, &mut old_deps);
    let e = Environment { dependencies: Vec::new(), ..e };
    deps.remove(k);
    put_env(config, i, n, e, deps);
    proof {
        assert forall|j: int| 0 <= j < before.environments@.len() && j != i implies config.environments@[j]
            == before.environments@[j] by {
            if j > i {
                assert(before.environments@.remove(i as int)[j - 1] == before.environments@[j]);
            }
        }
        if envs_sorted(before.environments@) {
            assert forall|j: int| 0 <= j < before.environments@.len() implies (#[trigger] config.environments@[j]).name
                == before.environments@[j].name by {
                if j != i {
                    assert(config.environments@[j] == before.environments@[j]);
                }
            }
            lemma_names_kept_sorted(before.environments@, config.environments@);
        }
    }
    Ok(())
}

/// `new` is `old` with only the default flags changed: the environments
/// named `name` are the default, and no other is.
pub open spec fn default_moved(old: WorkspaceConfig, new: WorkspaceConfig, name: Seq<char>) -> bool {
    &&& new.name == old.name
    &&& new.root == old.root
    &&& new.environments@.len() == old.environments@.len()
    &&& forall|j: int| #![trigger new.environments@[j]] 0 <= j < old.environments@.len() ==> {
        let a = old.environments@[j];
        let b = new.environments@[j];
        &&& b.name == a.name
        &&& b.env.default == (a.name@ == name)
        &&& b.env.tenant == a.env.tenant
        &&& b.env.subscription == a.env.subscription
        &&& b.env.search == a.env.search
        &&& b.env.foundry == a.env.foundry
        &&& b.env.policy == a.env.policy
        &&& b.env.dependencies == a.env.dependencies
    }
}

/// Make `name` the default environment (and no other).
pub fn set_default(config: &mut WorkspaceConfig, name: &str) -> (r: Result<(), String>)
    ensures
        match env_index(old(config).environments@, name@) {
            None => r matches Err(e) && e@ == unknown_env_msg(name@) && *final(config) == *old(config),
            Some(_) => r is Ok && default_moved(*old(config), *final(config), name@),
        },
        envs_sorted(old(config).environments@) ==> envs_sorted(final(config).environments@),
{
    match find_env(&config.environments, name) {
        Some(_) => {},
        None => return Err(unknown_env(name)),
    }
    let ghost before = *config;
    let mut j: usize = 0;
    let n = config.environments.len();
    while j < n
        invariant
            n == before.environments@.len(),
            j <= n,
            config.name == before.name,
            config.root == before.root,
            config.environments@.len() == n,
            forall|m: int| #![trigger config.environments@[m]] 0 <= m < n ==> {
                let a = before.environments@[m];
                let b = config.environments@[m];
                &&& b.name == a.name
                &&& b.env.default == if m < j { a.name@ == name@ } else { a.env.default }
                &&& b.env.tenant == a.env.tenant
                &&& b.env.subscription == a.env.subscription
                &&& b.env.search == a.env.search
                &&& b.env.foundry == a.env.foundry
                &&& b.env.policy == a.env.policy
                &&& b.env.dependencies == a.env.dependencies
            },
        decreases n - j,
    {
        let is_target = str_eq(config.environments[j].name.as_str(), name);
        let ghost prev = config.environments@;
        let ne = config.environments.remove(j);
        let NamedEnvironment { name: en, env: e } = ne;
        let e2 = Environment { default: is_target, ..e };
        config.environments.insert(j, NamedEnvironment { name: en, env: e2 });
        proof {
            assert forall|m: int| 0 <= m < n && m != j implies config.environments@[m] == prev[m] by {
                if m > j {
                    assert(prev.remove(j as int)[m - 1] == prev[m]);
                }
            }
        }
        j = j + 1;
    }
    Ok(())
}

/// The new environment's bindings: the copied ones, then every `--bind`
/// override declared over them.
pub fn add_dependencies(copy: Vec<NamedBinding>, overrides: &Vec<(String, Binding)>) -> (r: Vec<NamedBinding>)
    ensures
        r@ == deps_set_all(copy@, overrides@),
{
    let mut ds = copy;
    declare_all(&mut ds, overrides);
    ds
}

/// Whether some override names `n`.
fn overridden(overrides: &Vec<(String, Binding)>, n: &str) -> (r: bool)
    ensures
        r == exists|j: int| 0 <= j < overrides@.len() && overrides@[j].0@ == n@,
{
    let mut j: usize = 0;
    while j < overrides.len()
        invariant
            j <= overrides@.len(),
            forall|m: int| 0 <= m < j ==> overrides@[m].0@ != n@,
        decreases overrides@.len() - j,
    {
        if str_eq(overrides[j].0.as_str(), n) {
            return true;
        }
        j = j + 1;
    }
    false
}

/// Whether a copied binding is kept without a question: `--same` names it
/// and no `--bind` overrides it.
pub open spec fn kept_silently(d: NamedBinding, overrides: Seq<(String, Binding)>, same: Seq<String>) -> bool {
    &&& !(exists|j: int| 0 <= j < overrides.len() && overrides[j].0@ == d.name@)
    &&& exists|j: int| 0 <= j < same.len() && same[j]@ == d.name@
}

/// Whether a copied binding is asked about: neither overridden nor named
/// by `--same`.
pub open spec fn asked_about(d: NamedBinding, overrides: Seq<(String, Binding)>, same: Seq<String>) -> bool {
    &&& !(exists|j: int| 0 <= j < overrides.len() && overrides[j].0@ == d.name@)
    &&& !(exists|j: int| 0 <= j < same.len() && same[j]@ == d.name@)
}

/// Split the bindings `--like` copies into those kept without a question
/// and those to ask about; overridden ones are in neither.
pub fn split_like_copy(copy: &Vec<NamedBinding>, overrides: &Vec<(String, Binding)>, same: &Vec<String>) -> (r: (Vec<NamedBinding>, Vec<NamedBinding>))
    ensures
        r.0@ == copy@.filter(|d: NamedBinding| kept_silently(d, overrides@, same@)),
        r.1@ == copy@.filter(|d: NamedBinding| asked_about(d, overrides@, same@)),
{
    let ghost kp = |d: NamedBinding| kept_silently(d, overrides@, same@);
    let ghost ap = |d: NamedBinding| asked_about(d, overrides@, same@);
    let mut kept: Vec<NamedBinding> = Vec::new();
    let mut asked: Vec<NamedBinding> = Vec::new();
    let mut i: usize = 0;
    while i < copy.len()
        invariant
            i <= copy@.len(),
            kp == (|d: NamedBinding| kept_silently(d, overrides@, same@)),
            ap == (|d: NamedBinding| asked_about(d, overrides@, same@)),
            kept@ == copy@.take(i as int).filter(kp),
            asked@ == copy@.take(i as int).filter(ap),
        decreases copy@.len() - i,
    {
        proof {
            assert(copy@.take(i + 1) =~= copy@.take(i as int).push(copy@[i as int]));
            copy@.take(i as int).lemma_filter_push(copy@[i as int], kp);
            copy@.take(i as int).lemma_filter_push(copy@[i as int], ap);
        }
        let d = &copy[i];
        if !overridden(overrides, d.name.as_str()) {
            if names_hold(same, d.name.as_str()) {
                kept.push(d.copy());
            } else {
                asked.push(d.copy());
            }
        }
        i = i + 1;
    }
    assert(copy@.take(copy@.len() as int) =~= copy@);
    (kept, asked)
}

/// What an answer about a copied binding keeps: `same` keeps the source's
/// binding, `skip` (any case) or an empty answer drops it, and anything
/// else is the new value for a binding of the same type.
pub open spec fn like_answer_spec(b: Binding, answer: Seq<char>) -> Option<(BindingType, Seq<char>)> {
    if answer == "same"@ {
        Some((b.kind, b.value@))
    } else if answer.len() == 0 || lower_seq(answer) == skip_answer() {
        None
    } else {
        Some((b.kind, answer))
    }
}

/// The binding an answer about a copied binding keeps, if any.
pub fn like_answer(b: &Binding, answer: &str) -> (r: Option<Binding>)
    ensures
        match (r, like_answer_spec(*b, answer@)) {
            (Some(x), Some((k, v))) => x.kind == k && x.value@ == v,
            (None, None) => true,
            _ => false,
        },
{
    if str_eq(answer, "same") {
        Some(b.copy())
    } else if chars_of(answer).len() == 0 || is_skip(answer) {
        None
    } else {
        Some(Binding { kind: b.kind, value: copy_str(answer) })
    }
}

/// A new environment entry: the default when it is the first environment,
/// with the given targets, protection and bindings.
pub fn new_environment(
    first: bool,
    tenant: Option<String>,
    subscription: Option<String>,
    search: Option<String>,
    foundry: Option<(String, String)>,
    protected: bool,
    dependencies: Vec<NamedBinding>,
) -> (e: Environment)
    ensures
        e.default == first,
        e.tenant == tenant,
        e.subscription == subscription,
        match (e.search, search) {
            (Some(s), Some(n)) => s.service == n && s.name is None && s.endpoint is None && s.api_version is None
                && s.preview_api_version is None,
            (None, None) => true,
            _ => false,
        },
        match (e.foundry, foundry) {
            (Some(f), Some((a, p))) => f.account == a && f.project == p && f.name is None && f.endpoint is None
                && f.api_version is None,
            (None, None) => true,
            _ => false,
        },
        e.policy == (Policy { protected, strict_bindings: None }),
        e.dependencies == dependencies,
{
    let search = match search {
        Some(service) => Some(
            SearchConnection { name: None, service, endpoint: None, api_version: None, preview_api_version: None },
        ),
        None => None,
    };
    let foundry = match foundry {
        Some((account, project)) => Some(
            FoundryConnection { name: None, account, endpoint: None, project, api_version: None },
        ),
        None => None,
    };
    Environment {
        default: first,
        tenant,
        subscription,
        search,
        foundry,
        policy: Policy { protected, strict_bindings: None },
        dependencies,
    }
}

/// Environments in ascending name order, each name once: the order in
/// which `rigg.yaml` keeps them.
pub open spec fn envs_sorted(es: Seq<NamedEnvironment>) -> bool {
    forall|i: int, j: int| 0 <= i < j < es.len() ==> text_less((#[trigger] es[i]).name@, (#[trigger] es[j]).name@)
}

/// Where an environment named `n` goes among `es[from..]`: before the first
/// one whose name sorts after `n`, else at the end.
pub open spec fn name_slot(es: Seq<NamedEnvironment>, n: Seq<char>, from: int) -> int
    decreases es.len() - from,
{
    if from < 0 || from >= es.len() {
        es.len() as int
    } else if text_less(n, es[from].name@) {
        from
    } else {
        name_slot(es, n, from + 1)
    }
}

/// What `name_slot` returns.
proof fn lemma_name_slot(es: Seq<NamedEnvironment>, n: Seq<char>, from: int)
    requires
        0 <= from <= es.len(),
    ensures
        from <= name_slot(es, n, from) <= es.len(),
        forall|k: int| from <= k < name_slot(es, n, from) ==> !text_less(n, (#[trigger] es[k]).name@),
        name_slot(es, n, from) < es.len() ==> text_less(n, es[name_slot(es, n, from)].name@),
    decreases es.len() - from,
{
    if from < es.len() && !text_less(n, es[from].name@) {
        lemma_name_slot(es, n, from + 1);
    }
}

/// Inserting a new name at its slot keeps the environments sorted.
proof fn lemma_insert_at_slot_sorted(es: Seq<NamedEnvironment>, ne: NamedEnvironment)
    requires
        envs_sorted(es),
        env_index(es, ne.name@) is None,
    ensures
        envs_sorted(es.insert(name_slot(es, ne.name@, 0), ne)),
{
    let n = ne.name@;
    let p = name_slot(es, n, 0);
    lemma_name_slot(es, n, 0);
    let r = es.insert(p, ne);
    assert forall|k: int| 0 <= k < es.len() implies (#[trigger] es[k]).name@ != n by {
        if es[k].name@ == n {
            assert(exists|i: int| 0 <= i < es.len() && es[i].name@ == n);
        }
    }
    assert forall|i: int, j: int| 0 <= i < j < r.len() implies text_less((#[trigger] r[i]).name@, (#[trigger] r[j]).name@) by {
        if j < p {
            assert(r[i] == es[i] && r[j] == es[j]);
        } else if j == p {
            assert(r[i] == es[i] && r[j] == ne);
            lemma_text_less_total(n, es[i].name@);
        } else if i > p {
            assert(r[i] == es[i - 1] && r[j] == es[j - 1]);
        } else if i == p {
            assert(r[i] == ne && r[j] == es[j - 1]);
            if j - 1 > p {
                lemma_text_less_transitive(n, es[p].name@, es[j - 1].name@);
            }
        } else {
            assert(r[i] == es[i] && r[j] == es[j - 1]);
        }
    }
}

/// Where environment `name` goes in `es`.
fn name_slot_of(es: &Vec<NamedEnvironment>, name: &str) -> (p: usize)
    ensures
        p as int == name_slot(es@, name@, 0),
{
    let mut i: usize = 0;
    while i < es.len() && !text_less_exec(name, es[i].name.as_str())
        invariant
            i <= es@.len(),
            name_slot(es@, name@, 0) == name_slot(es@, name@, i as int),
        decreases es@.len() - i,
    {
        i += 1;
    }
    i
}

/// Add environment `name` at its place in name order; an existing name is
/// refused.
pub fn add_environment(config: &mut WorkspaceConfig, name: String, env: Environment) -> (r: Result<(), String>)
    ensures
        match env_index(old(config).environments@, name@) {
            Some(_) => r matches Err(e) && e@ == "environment '"@ + name@ + "' already exists"@
                && *final(config) == *old(config),
            None => r is Ok && final(config).environments@ == old(config).environments@.insert(
                name_slot(old(config).environments@, name@, 0),
                NamedEnvironment { name, env },
            ) && final(config).name == old(config).name && final(config).root == old(config).root,
        },
        envs_sorted(old(config).environments@) ==> envs_sorted(final(config).environments@),
{
    if find_env(&config.environments, name.as_str()).is_some() {
        let mut e = copy_str("environment '");
        push_str(&mut e, name.as_str());
        push_str(&mut e, "' already exists");
        return Err(e);
    }
    let p = name_slot_of(&config.environments, name.as_str());
    proof {
        lemma_name_slot(config.environments@, name@, 0);
        if envs_sorted(config.environments@) {
            lemma_insert_at_slot_sorted(config.environments@, NamedEnvironment { name, env });
        }
    }
    config.environments.insert(p, NamedEnvironment { name, env });
    Ok(())
}

// ---------------------------------------------------------------------------
// Laws
// ---------------------------------------------------------------------------

/// Reading a binding after declaring one.
proof fn lemma_binding_named_set(ds: Seq<NamedBinding>, nb: NamedBinding, n: Seq<char>)
    ensures
        binding_named(deps_set(ds, nb), n) == if nb.name@ == n { Some(nb.binding) } else { binding_named(ds, n) },
{
    lemma_dep_find(ds, nb.name@, 0);
    lemma_dep_find(ds, n, 0);
    let i = dep_find(ds, nb.name@, 0);
    let ds2 = deps_set(ds, nb);
    lemma_dep_find(ds2, n, 0);
    if nb.name@ == n {
        if i >= 0 {
            lemma_dep_find_at(ds2, n, i);
        } else {
            lemma_dep_find_at(ds2, n, ds.len() as int);
        }
    } else {
        let r = dep_find(ds, n, 0);
        if r >= 0 {
            lemma_dep_find_at(ds2, n, r);
        } else {
            let r2 = dep_find(ds2, n, 0);
            if r2 >= 0 && r2 < ds.len() {
                assert(ds2[r2] == ds[r2] || r2 == i);
            }
        }
    }
}

/// A declared binding reads back: after declaring `bs`, the binding named
/// `n` is the one the last pair named `n` declares, or, when no pair names
/// it, the binding it had before.
pub proof fn law_bindings_read_back(ds: Seq<NamedBinding>, bs: Seq<(String, Binding)>, n: Seq<char>)
    ensures
        binding_named(deps_set_all(ds, bs), n) == match last_named(bs, n) {
            Some(b) => Some(b),
            None => binding_named(ds, n),
        },
    decreases bs.len(),
{
    if bs.len() > 0 {
        law_bindings_read_back(ds, bs.drop_last(), n);
        lemma_binding_named_set(deps_set_all(ds, bs.drop_last()), as_named(bs.last()), n);
    }
}

/// An environment's bindings have distinct names (as the keys of its
/// `dependencies` mapping do).
pub open spec fn distinct_names(ds: Seq<NamedBinding>) -> bool {
    forall|a: int, b: int| 0 <= a < b < ds.len() ==> ds[a].name@ != ds[b].name@
}

/// A removed binding is gone: after removing binding `n`, no binding is
/// named `n`, and every other binding reads as before.
pub proof fn law_removed_binding_is_gone(ds: Seq<NamedBinding>, n: Seq<char>, m: Seq<char>)
    requires
        distinct_names(ds),
        dep_find(ds, n, 0) >= 0,
    ensures
        binding_named(ds.remove(dep_find(ds, n, 0)), n) is None,
        m != n ==> binding_named(ds.remove(dep_find(ds, n, 0)), m) == binding_named(ds, m),
{
    lemma_dep_find(ds, n, 0);
    lemma_dep_find(ds, m, 0);
    let k = dep_find(ds, n, 0);
    let ds2 = ds.remove(k);
    lemma_dep_find(ds2, n, 0);
    lemma_dep_find(ds2, m, 0);
    let r2 = dep_find(ds2, n, 0);
    if r2 >= 0 {
        if r2 < k {
            assert(ds2[r2] == ds[r2]);
        } else {
            assert(ds2[r2] == ds[r2 + 1]);
            assert(ds[k].name@ != ds[r2 + 1].name@);
        }
    }
    if m != n {
        let r = dep_find(ds, m, 0);
        if r >= 0 {
            if r < k {
                lemma_dep_find_at(ds2, m, r);
            } else {
                assert(r != k);
                assert forall|j: int| 0 <= j < r - 1 implies ds2[j].name@ != m by {
                    if j >= k {
                        assert(ds2[j] == ds[j + 1]);
                    }
                }
                lemma_dep_find_at(ds2, m, r - 1);
            }
        } else {
            let q = dep_find(ds2, m, 0);
            if q >= 0 {
                if q < k {
                    assert(ds2[q] == ds[q]);
                } else {
                    assert(ds2[q] == ds[q + 1]);
                }
            }
        }
    }
}

/// The first environment named `n`, below a known one.
proof fn lemma_min_name(es: Seq<NamedEnvironment>, n: Seq<char>, j: int) -> (m: int)
    requires
        0 <= j < es.len(),
        es[j].name@ == n,
    ensures
        0 <= m <= j,
        es[m].name@ == n,
        forall|k: int| 0 <= k < m ==> es[k].name@ != n,
    decreases j,
{
    if exists|k: int| 0 <= k < j && es[k].name@ == n {
        let k = choose|k: int| 0 <= k < j && es[k].name@ == n;
        lemma_min_name(es, n, k)
    } else {
        j
    }
}

/// After `set_default(name)`, a command that selects no environment runs
/// against `name`.
pub proof fn law_set_default_selects(old: WorkspaceConfig, new: WorkspaceConfig, name: Seq<char>)
    requires
        env_index(old.environments@, name) is Some,
        default_moved(old, new, name),
    ensures
        selected_env_name(new.environments@, None, None) == Some(name),
{
    let es = old.environments@;
    let ns = new.environments@;
    let j = choose|j: int| 0 <= j < es.len() && es[j].name@ == name;
    let i = lemma_min_name(es, name, j);
    lemma_env_index(es, name, i);
    assert(ns[i].env.default);
    assert forall|k: int| 0 <= k < i implies !ns[k].env.default by {
        assert(es[k].name@ != name);
    }
    lemma_default_index(ns, i);
}

/// Remove environment `name`.
pub fn remove_environment(config: &mut WorkspaceConfig, name: &str) -> (r: Result<(), String>)
    ensures
        match env_index(old(config).environments@, name@) {
            None => r matches Err(e) && e@ == unknown_env_msg(name@) && *final(config) == *old(config),
            Some(i) => r is Ok && final(config).environments@ == old(config).environments@.remove(i)
                && final(config).name == old(config).name && final(config).root == old(config).root,
        },
        envs_sorted(old(config).environments@) ==> envs_sorted(final(config).environments@),
{
    match find_env(&config.environments, name) {
        Some(i) => {
            config.environments.remove(i);
            Ok(())
        },
        None => Err(unknown_env(name)),
    }
}

// ---------------------------------------------------------------------------
// rigg env add
// ---------------------------------------------------------------------------

/// What `rigg env add` was asked for.
#[derive(Debug)]
pub struct AddRequest {
    pub name: String,
    pub tenant: Option<String>,
    pub subscription: Option<String>,
    pub search_service: Option<String>,
    pub foundry_account: Option<String>,
    pub foundry_project: Option<String>,
    pub protected: bool,
    /// `--bind <name>=<type>:<value>` flags.
    pub bind: Vec<String>,
    /// The environment to model the new one on.
    pub like: Option<String>,
    /// With `like`: bindings to copy verbatim without asking.
    pub same: Vec<String>,
    /// With `like`: bindings not to copy.
    pub skip: Vec<String>,
}

/// Where the new environment's targets come from.
#[derive(Debug)]
pub enum Targets {
    /// From the flags.
    Given { search: Option<String>, foundry: Option<(String, String)> },
    /// From the interactive discovery wizard.
    Wizard,
    /// None: the environment only carries bindings.
    Nothing,
}

/// The checked request: the `--bind` overrides, the bindings copied from
/// `like` (before any question), and where the targets come from.
#[derive(Debug)]
pub struct AddPlan {
    pub overrides: Vec<(String, Binding)>,
    pub like_copy: Option<Vec<NamedBinding>>,
    pub targets: Targets,
}

/// The first `--bind` flag at or after `k` that does not parse.
pub open spec fn first_bad_flag(flags: Seq<String>, k: int) -> Option<int>
    decreases flags.len() - k,
{
    if k < 0 || k >= flags.len() {
        None
    } else if parse_bind_flag_spec(flags[k]@) is Err {
        Some(k)
    } else {
        first_bad_flag(flags, k + 1)
    }
}

/// The first name at or after `k` that `ds` has no binding for.
pub open spec fn first_unbound(names: Seq<String>, ds: Seq<NamedBinding>, k: int) -> Option<int>
    decreases names.len() - k,
{
    if k < 0 || k >= names.len() {
        None
    } else if dep_find(ds, names[k]@, 0) < 0 {
        Some(k)
    } else {
        first_unbound(names, ds, k + 1)
    }
}

/// The first name of `same` at or after `k` that `skip` names too.
pub open spec fn first_in_both(same: Seq<String>, skip: Seq<String>, k: int) -> Option<int>
    decreases same.len() - k,
{
    if k < 0 || k >= same.len() {
        None
    } else if exists|j: int| 0 <= j < skip.len() && skip[j]@ == same[k]@ {
        Some(k)
    } else {
        first_in_both(same, skip, k + 1)
    }
}

/// The bindings `like` copies: the source's, minus the skipped ones.
pub open spec fn kept_copy(ds: Seq<NamedBinding>, skip: Seq<String>) -> Seq<NamedBinding>
    decreases ds.len(),
{
    if ds.len() == 0 {
        Seq::empty()
    } else {
        let rest = kept_copy(ds.drop_last(), skip);
        if exists|j: int| 0 <= j < skip.len() && skip[j]@ == ds.last().name@ {
            rest
        } else {
            rest.push(ds.last())
        }
    }
}

/// Why `rigg env add` refuses a request, checked in this order: foundry
/// flags given alone, a malformed `--bind`, an existing name, an unknown
/// `--like` source, a `--same`/`--skip` naming no source binding, a name
/// in both, and finally nothing to add without a terminal.
pub open spec fn add_refusal(es: Seq<NamedEnvironment>, req: AddRequest, interactive: bool) -> Option<Seq<char>> {
    if req.foundry_account.is_some() != req.foundry_project.is_some() {
        Some("--foundry-account and --foundry-project must be given together"@)
    } else if first_bad_flag(req.bind@, 0) is Some {
        match parse_bind_flag_spec(req.bind@[first_bad_flag(req.bind@, 0).unwrap()]@) {
            Err(m) => Some(m),
            Ok(_) => None,
        }
    } else if env_index(es, req.name@) is Some {
        Some("environment '"@ + req.name@ + "' already exists"@)
    } else {
        match req.like {
            Some(source) => match env_index(es, source@) {
                None => Some("unknown environment '"@ + source@ + "' (--like)"@),
                Some(i) => {
                    let ds = es[i].env.dependencies@;
                    let flags = req.same@ + req.skip@;
                    if first_unbound(flags, ds, 0) is Some {
                        Some("environment '"@ + source@ + "' has no binding '"@
                            + flags[first_unbound(flags, ds, 0).unwrap()]@ + "'"@)
                    } else if first_in_both(req.same@, req.skip@, 0) is Some {
                        Some("'"@ + req.same@[first_in_both(req.same@, req.skip@, 0).unwrap()]@
                            + "' is named by both --same and --skip"@)
                    } else if req.search_service is None && req.foundry_account is None && !interactive
                        && req.bind@.len() == 0 && kept_copy(ds, req.skip@).len() == 0 {
                        Some("nothing to add: pass --search-service/--foundry-account or use --like with an environment that has bindings"@)
                    } else {
                        None
                    }
                },
            },
            None => if req.search_service is None && req.foundry_account is None && !interactive
                && req.bind@.len() == 0 {
                Some("in non-interactive mode pass --search-service and/or --foundry-account/--foundry-project (or run `rigg env add <name>` on a terminal for the interactive wizard)"@)
            } else {
                None
            },
        }
    }
}

/// The overrides are the parsed `--bind` flags, in order.
pub open spec fn parsed_flags(overrides: Seq<(String, Binding)>, flags: Seq<String>) -> bool {
    &&& overrides.len() == flags.len()
    &&& forall|k: int| 0 <= k < flags.len() ==> match parse_bind_flag_spec(#[trigger] flags[k]@) {
        Ok((n, t, v)) => overrides[k].0@ == n && overrides[k].1.kind == t && overrides[k].1.value@ == v,
        Err(_) => false,
    }
}

/// Whether `names` holds `n`.
fn names_hold(names: &Vec<String>, n: &str) -> (r: bool)
    ensures
        r == exists|j: int| 0 <= j < names@.len() && names@[j]@ == n@,
{
    let mut j: usize = 0;
    while j < names.len()
        invariant
            j <= names@.len(),
            forall|m: int| 0 <= m < j ==> names@[m]@ != n@,
        decreases names@.len() - j,
    {
        if str_eq(names[j].as_str(), n) {
            return true;
        }
        j = j + 1;
    }
    false
}

/// Check a `rigg env add` request and work out what it adds before any
/// question is asked.
#[verifier::loop_isolation(false)]
pub fn plan_env_add(config: &WorkspaceConfig, req: &AddRequest, interactive: bool) -> (r: Result<AddPlan, String>)
    ensures
        match add_refusal(config.environments@, *req, interactive) {
            Some(m) => r matches Err(e) && e@ == m,
            None => r matches Ok(plan) && {
                &&& parsed_flags(plan.overrides@, req.bind@)
                &&& match req.like {
                    None => plan.like_copy is None,
                    Some(s) => plan.like_copy matches Some(c) && c@ == kept_copy(
                        config.environments@[env_index(config.environments@, s@).unwrap()].env.dependencies@,
                        req.skip@,
                    ),
                }
                &&& if req.search_service is Some || req.foundry_account is Some {
                    plan.targets matches Targets::Given { search, foundry } && search == req.search_service && match (
                        foundry,
                        req.foundry_account,
                        req.foundry_project,
                    ) {
                        (Some((a, p)), Some(a2), Some(p2)) => a == a2 && p == p2,
                        (None, None, _) => true,
                        _ => false,
                    }
                } else if interactive {
                    plan.targets is Wizard
                } else {
                    plan.targets is Nothing
                }
            },
        },
{
    if req.foundry_account.is_some() != req.foundry_project.is_some() {
        return Err(copy_str("--foundry-account and --foundry-project must be given together"));
    }
    let mut overrides: Vec<(String, Binding)> = Vec::new();
    let mut k: usize = 0;
    while k < req.bind.len()
        invariant
            k <= req.bind@.len(),
            first_bad_flag(req.bind@, 0) == first_bad_flag(req.bind@, k as int),
            overrides@.len() == k,
            forall|m: int| 0 <= m < k ==> match parse_bind_flag_spec(#[trigger] req.bind@[m]@) {
                Ok((n, t, v)) => overrides@[m].0@ == n && overrides@[m].1.kind == t && overrides@[m].1.value@ == v,
                Err(_) => false,
            },
        decreases req.bind@.len() - k,
    {
        match parse_bind_flag(req.bind[k].as_str()) {
            Ok(p) => overrides.push(p),
            Err(e) => {
                assert(first_bad_flag(req.bind@, k as int) == Some(k as int));
                return Err(e);
            },
        }
        k = k + 1;
    }
    if find_env(&config.environments, req.name.as_str()).is_some() {
        let mut e = copy_str("environment '");
        push_str(&mut e, req.name.as_str());
        push_str(&mut e, "' already exists");
        return Err(e);
    }
    let like_copy = match &req.like {
        None => None,
        Some(source) => {
            let i = match find_env(&config.environments, source.as_str()) {
                Some(i) => i,
                None => {
                    let mut e = copy_str("unknown environment '");
                    push_str(&mut e, source.as_str());
                    push_str(&mut e, "' (--like)");
                    return Err(e);
                },
            };
            let ds = &config.environments[i].env.dependencies;
            let ghost flags = req.same@ + req.skip@;
            let mut f: usize = 0;
            while f < req.same.len()
                invariant
                    flags == req.same@ + req.skip@,
                    f <= req.same@.len(),
                    first_unbound(flags, ds@, 0) == first_unbound(flags, ds@, f as int),
                decreases req.same@.len() - f,
            {
                assert(flags[f as int] == req.same@[f as int]);
                if dep_position(ds, req.same[f].as_str()) >= ds.len() {
                    assert(first_unbound(flags, ds@, f as int) == Some(f as int));
                    let mut e = copy_str("environment '");
                    push_str(&mut e, source.as_str());
                    push_str(&mut e, "' has no binding '");
                    push_str(&mut e, req.same[f].as_str());
                    push_str(&mut e, "'");
                    return Err(e);
                }
                f = f + 1;
            }
            let mut g: usize = 0;
            while g < req.skip.len()
                invariant
                    flags == req.same@ + req.skip@,
                    g <= req.skip@.len(),
                    first_unbound(flags, ds@, 0) == first_unbound(flags, ds@, req.same@.len() + g),
                decreases req.skip@.len() - g,
            {
                assert(flags[req.same@.len() + g] == req.skip@[g as int]);
                if dep_position(ds, req.skip[g].as_str()) >= ds.len() {
                    assert(first_unbound(flags, ds@, req.same@.len() + g) == Some(req.same@.len() + g));
                    let mut e = copy_str("environment '");
                    push_str(&mut e, source.as_str());
                    push_str(&mut e, "' has no binding '");
                    push_str(&mut e, req.skip[g].as_str());
                    push_str(&mut e, "'");
                    return Err(e);
                }
                g = g + 1;
            }
            let mut b: usize = 0;
            while b < req.same.len()
                invariant
                    b <= req.same@.len(),
                    first_in_both(req.same@, req.skip@, 0) == first_in_both(req.same@, req.skip@, b as int),
                decreases req.same@.len() - b,
            {
                if names_hold(&req.skip, req.same[b].as_str()) {
                    assert(first_in_both(req.same@, req.skip@, b as int) == Some(b as int));
                    let mut e = copy_str("'");
                    push_str(&mut e, req.same[b].as_str());
                    push_str(&mut e, "' is named by both --same and --skip");
                    return Err(e);
                }
                b = b + 1;
            }
            let mut copy: Vec<NamedBinding> = Vec::new();
            let mut d: usize = 0;
            while d < ds.len()
                invariant
                    d <= ds@.len(),
                    copy@ == kept_copy(ds@.take(d as int), req.skip@),
                decreases ds@.len() - d,
            {
                assert(ds@.take(d + 1).drop_last() =~= ds@.take(d as int));
                if !names_hold(&req.skip, ds[d].name.as_str()) {
                    copy.push(ds[d].copy());
                }
                d = d + 1;
            }
            assert(ds@.take(ds@.len() as int) =~= ds@);
            Some(copy)
        },
    };
    let has_targets = req.search_service.is_some() || req.foundry_account.is_some();
    let targets = if has_targets {
        let foundry = match (&req.foundry_account, &req.foundry_project) {
            (Some(a), Some(p)) => Some((a.clone(), p.clone())),
            _ => None,
        };
        Targets::Given { search: req.search_service.clone(), foundry }
    } else if interactive {
        Targets::Wizard
    } else {
        let something = overrides.len() > 0 || match &like_copy {
            Some(c) => c.len() > 0,
            None => false,
        };
        if !something {
            if req.like.is_some() {
                return Err(copy_str(
                    "nothing to add: pass --search-service/--foundry-account or use --like with an environment that has bindings",
                ));
            } else {
                return Err(copy_str(
                    "in non-interactive mode pass --search-service and/or --foundry-account/--foundry-project (or run `rigg env add <name>` on a terminal for the interactive wizard)",
                ));
            }
        }
        Targets::Nothing
    };
    Ok(AddPlan { overrides, like_copy, targets })
}

/// An added environment can be selected by name: it is found at its place
/// in name order.
pub proof fn law_added_environment_is_found(old: Seq<NamedEnvironment>, ne: NamedEnvironment)
    requires
        env_index(old, ne.name@) is None,
    ensures
        env_index(old.insert(name_slot(old, ne.name@, 0), ne), ne.name@) == Some(name_slot(old, ne.name@, 0)),
{
    let p = name_slot(old, ne.name@, 0);
    lemma_name_slot(old, ne.name@, 0);
    let es = old.insert(p, ne);
    assert forall|k: int| 0 <= k < p implies es[k].name@ != ne.name@ by {
        assert(es[k] == old[k]);
        if old[k].name@ == ne.name@ {
            assert(exists|i: int| 0 <= i < old.len() && old[i].name@ == ne.name@);
        }
    }
    lemma_env_index(es, ne.name@, p);
}

} // verus!
