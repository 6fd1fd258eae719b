use rigg::binding::{Binding, BindingType, NamedBinding};
use rigg::environments::{
    add_dependencies, add_environment, like_answer, new_environment, plan_env_add, remove_binding,
    remove_environment, set_bindings, set_default, split_like_copy, AddRequest, Targets,
};
use rigg::workspace::{
    Environment, NamedEnvironment, Policy, Workspace, WorkspaceConfig,
};

fn nb(name: &str, kind: BindingType, value: &str) -> NamedBinding {
    NamedBinding { name: name.to_string(), binding: Binding { kind, value: value.to_string() } }
}

fn bare(default: bool, deps: Vec<NamedBinding>) -> Environment {
    new_environment(default, None, None, Some("svc".to_string()), None, false, deps)
}

fn config() -> WorkspaceConfig {
    WorkspaceConfig {
        name: None,
        root: None,
        environments: vec![
            NamedEnvironment {
                name: "dev".into(),
                env: bare(true, vec![nb("docs", BindingType::Storage, "devdocs")]),
            },
            NamedEnvironment { name: "prod".into(), env: bare(false, vec![]) },
        ],
    }
}

fn deps_of(c: &WorkspaceConfig, env: &str) -> Vec<(String, String)> {
    c.environments
        .iter()
        .find(|e| e.name == env)
        .unwrap()
        .env
        .dependencies
        .iter()
        .map(|d| (d.name.clone(), d.binding.value.clone()))
        .collect()
}

fn request(name: &str) -> AddRequest {
    AddRequest {
        name: name.to_string(),
        tenant: None,
        subscription: None,
        search_service: None,
        foundry_account: None,
        foundry_project: None,
        protected: false,
        bind: vec![],
        like: None,
        same: vec![],
        skip: vec![],
    }
}

#[test]
fn bindings_are_declared_replaced_and_read_back() {
    let mut c = config();
    let writes = vec![
        ("docs".to_string(), Binding { kind: BindingType::Storage, value: "newdocs".into() }),
        ("fn".to_string(), Binding { kind: BindingType::FunctionApp, value: "enrich".into() }),
    ];
    set_bindings(&mut c, "dev", &writes).unwrap();
    assert_eq!(
        deps_of(&c, "dev"),
        vec![("docs".to_string(), "newdocs".to_string()), ("fn".to_string(), "enrich".to_string())]
    );
    assert!(deps_of(&c, "prod").is_empty());
}

#[test]
fn binding_writes_are_refused_for_bad_names_and_unknown_environments() {
    let mut c = config();
    let bad = vec![("search".to_string(), Binding { kind: BindingType::Storage, value: "x".into() })];
    assert_eq!(
        set_bindings(&mut c, "dev", &bad),
        Err("binding name 'search' is reserved for the environment's own target".to_string())
    );
    let good = vec![("x".to_string(), Binding { kind: BindingType::Storage, value: "x".into() })];
    assert_eq!(set_bindings(&mut c, "qa", &good), Err("unknown environment 'qa'".to_string()));
    assert_eq!(deps_of(&c, "dev").len(), 1);
}

#[test]
fn bindings_are_removed_or_reported_missing() {
    let mut c = config();
    assert_eq!(
        remove_binding(&mut c, "prod", "docs"),
        Err("environment 'prod' has no binding 'docs'".to_string())
    );
    remove_binding(&mut c, "dev", "docs").unwrap();
    assert!(deps_of(&c, "dev").is_empty());
    assert_eq!(remove_binding(&mut c, "qa", "docs"), Err("unknown environment 'qa'".to_string()));
}

#[test]
fn set_default_moves_the_default() {
    let mut c = config();
    set_default(&mut c, "prod").unwrap();
    assert!(!c.environments[0].env.default);
    assert!(c.environments[1].env.default);
    let ws = Workspace { root: "/ws".into(), config: c, projects: vec![] };
    assert_eq!(ws.resolve_env(None, None).unwrap().name, "prod");
    let mut c2 = config();
    assert_eq!(set_default(&mut c2, "qa"), Err("unknown environment 'qa'".to_string()));
}

#[test]
fn environments_are_added_once_and_removed() {
    let mut c = config();
    let e = new_environment(false, Some("t".into()), None, None, None, true, vec![]);
    assert_eq!(e.policy, Policy { protected: true, strict_bindings: None });
    add_environment(&mut c, "qa".to_string(), e).unwrap();
    assert_eq!(c.environments.len(), 3);
    assert_eq!(
        add_environment(&mut c, "qa".to_string(), bare(false, vec![])),
        Err("environment 'qa' already exists".to_string())
    );
    remove_environment(&mut c, "dev").unwrap();
    assert_eq!(c.environments.iter().map(|e| e.name.as_str()).collect::<Vec<_>>(), vec!["prod", "qa"]);
    assert_eq!(remove_environment(&mut c, "dev"), Err("unknown environment 'dev'".to_string()));
}

#[test]
fn env_add_checks_its_flags_in_order() {
    let c = config();
    let mut r = request("qa");
    r.foundry_account = Some("acct".into());
    assert_eq!(
        plan_env_add(&c, &r, false).unwrap_err(),
        "--foundry-account and --foundry-project must be given together"
    );
    let mut r = request("qa");
    r.bind = vec!["docs".into()];
    assert_eq!(
        plan_env_add(&c, &r, false).unwrap_err(),
        "invalid --bind 'docs': expected <name>=<type>:<value>"
    );
    assert_eq!(plan_env_add(&c, &request("dev"), true).unwrap_err(), "environment 'dev' already exists");
    let mut r = request("qa");
    r.like = Some("staging".into());
    assert_eq!(plan_env_add(&c, &r, true).unwrap_err(), "unknown environment 'staging' (--like)");
    let mut r = request("qa");
    r.like = Some("dev".into());
    r.skip = vec!["nope".into()];
    assert_eq!(plan_env_add(&c, &r, true).unwrap_err(), "environment 'dev' has no binding 'nope'");
    let mut r = request("qa");
    r.like = Some("dev".into());
    r.same = vec!["docs".into()];
    r.skip = vec!["docs".into()];
    assert_eq!(plan_env_add(&c, &r, true).unwrap_err(), "'docs' is named by both --same and --skip");
    let mut r = request("qa");
    r.like = Some("prod".into());
    assert!(plan_env_add(&c, &r, false).unwrap_err().starts_with("nothing to add"));
    assert!(plan_env_add(&c, &request("qa"), false).unwrap_err().starts_with("in non-interactive mode"));
}

#[test]
fn env_add_plans_targets_and_copies() {
    let c = config();
    let mut r = request("qa");
    r.search_service = Some("qa-search".into());
    r.bind = vec!["fn=function-app:enrich".into()];
    let plan = plan_env_add(&c, &r, false).unwrap();
    match plan.targets {
        Targets::Given { search, foundry } => {
            assert_eq!(search.as_deref(), Some("qa-search"));
            assert!(foundry.is_none());
        }
        other => panic!("{other:?}"),
    }
    assert_eq!(plan.overrides[0].0, "fn");
    assert!(plan.like_copy.is_none());
    let mut r = request("qa");
    r.like = Some("dev".into());
    let plan = plan_env_add(&c, &r, false).unwrap();
    assert!(matches!(plan.targets, Targets::Nothing));
    assert_eq!(plan.like_copy.unwrap().len(), 1);
    assert!(matches!(plan_env_add(&c, &request("qa"), true).unwrap().targets, Targets::Wizard));
}

#[test]
fn like_copies_are_split_answered_and_overridden() {
    let copy = vec![
        nb("docs", BindingType::Storage, "devdocs"),
        nb("fn", BindingType::FunctionApp, "devfn"),
        nb("kv", BindingType::KeyVault, "devkv"),
    ];
    let overrides = vec![("kv".to_string(), Binding { kind: BindingType::KeyVault, value: "qakv".into() })];
    let (kept, asked) = split_like_copy(&copy, &overrides, &vec!["docs".to_string()]);
    assert_eq!(kept.iter().map(|d| d.name.as_str()).collect::<Vec<_>>(), vec!["docs"]);
    assert_eq!(asked.iter().map(|d| d.name.as_str()).collect::<Vec<_>>(), vec!["fn"]);
    let b = &copy[1].binding;
    assert_eq!(like_answer(b, "same").unwrap().value, "devfn");
    assert_eq!(like_answer(b, "SKIP"), None);
    assert_eq!(like_answer(b, ""), None);
    assert_eq!(like_answer(b, "qafn").unwrap(), Binding { kind: BindingType::FunctionApp, value: "qafn".into() });
    let all = add_dependencies(copy, &overrides);
    assert_eq!(all[2].binding.value, "qakv");
    assert_eq!(all.len(), 3);
}

#[test]
fn environments_are_added_in_name_order() {
    let mut c = config();
    add_environment(&mut c, "alpha".to_string(), bare(false, vec![])).unwrap();
    add_environment(&mut c, "qa".to_string(), bare(false, vec![])).unwrap();
    add_environment(&mut c, "e2e".to_string(), bare(false, vec![])).unwrap();
    assert_eq!(
        c.environments.iter().map(|e| e.name.as_str()).collect::<Vec<_>>(),
        vec!["alpha", "dev", "e2e", "prod", "qa"]
    );
}
