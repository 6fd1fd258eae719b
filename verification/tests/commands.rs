use rigg::ask::{AnswerMap, AskError, InteractiveAsker, ScriptError, ScriptedAsker};
use rigg::binding::{Binding, BindingType, NamedBinding};
use rigg::site_auth::wiring_preconditions;
use rigg::commands::{
    bind_request, confirm_reset, drifted_project_hint, hint_user_role, kinds_for, parse_only, role_lines,
    side_labels, BindRequest, ResetDecision, RoleLine,
};
use rigg::diff_output::{DiffResult, JsonValue};
use rigg::proposals::{resolve_proposals, resolve_proposals_scripted, Proposal, ResolveError};
use rigg::resources::ResourceKind;
use rigg::workspace::{
    Environment, NamedEnvironment, Policy, ResolvedEnv, SearchConnection, Workspace, WorkspaceConfig,
};

fn env(default: bool) -> Environment {
    Environment {
        default,
        tenant: None,
        subscription: None,
        search: None,
        foundry: None,
        policy: Policy { protected: false, strict_bindings: None },
        dependencies: Vec::new(),
    }
}

fn ws() -> Workspace {
    Workspace {
        root: "/ws".into(),
        config: WorkspaceConfig {
            name: None,
            root: None,
            environments: vec![
                NamedEnvironment { name: "dev".into(), env: env(true) },
                NamedEnvironment { name: "prod".into(), env: env(false) },
            ],
        },
        projects: vec![],
    }
}

#[test]
fn diff_sides_are_local_and_azure_by_default() {
    let l = side_labels(&ws(), None, None, None).unwrap();
    assert_eq!(l.new_side, "local");
    assert_eq!(l.old_side, "Azure (dev)");
    let c = side_labels(&ws(), Some("dev"), Some("prod"), None).unwrap();
    assert_eq!(c.new_side, "dev");
    assert_eq!(c.old_side, "prod");
    assert!(side_labels(&ws(), Some("nope"), None, None).is_err());
}

fn diff(key: &str, equal: bool) -> (String, DiffResult) {
    (key.to_string(), DiffResult { is_equal: equal, changes: vec![] })
}

#[test]
fn the_hint_names_the_single_drifted_project() {
    assert_eq!(
        drifted_project_hint(&[diff("alpha/indexes/a", false), diff("alpha/agents/b", false), diff("beta/indexes/c", true)]),
        "alpha"
    );
    assert_eq!(
        drifted_project_hint(&[diff("alpha/indexes/a", false), diff("beta/indexes/c", false)]),
        "<project>"
    );
    assert_eq!(drifted_project_hint(&[]), "<project>");
}

#[test]
fn only_takes_a_kind_dir_and_a_name() {
    let r = parse_only("indexes/my-index").unwrap();
    assert_eq!(r.kind, ResourceKind::Index);
    assert_eq!(r.name, "my-index");
    assert_eq!(parse_only("nope").unwrap_err(), "--only takes <kind-dir>/<name> (e.g. indexes/my-index)");
    assert_eq!(parse_only("widgets/x").unwrap_err(), "unknown resource kind directory 'widgets'");
}

#[test]
fn env_bind_validates_its_arguments() {
    assert!(matches!(bind_request(None, None, true), Ok(BindRequest::Learn)));
    assert!(bind_request(Some("x"), None, true).is_err());
    match bind_request(Some("docs"), Some("storage:acct"), false) {
        Ok(BindRequest::Bind { name, binding }) => {
            assert_eq!(name, "docs");
            assert_eq!(binding.kind, BindingType::Storage);
            assert_eq!(binding.value, "acct");
        }
        other => panic!("{other:?}"),
    }
    assert!(bind_request(Some("search"), Some("storage:acct"), false).is_err());
    assert!(bind_request(Some("docs"), None, false).unwrap_err().starts_with("usage:"));
}

#[test]
fn resets_need_confirmation() {
    assert!(matches!(confirm_reset(true, false, "ix"), ResetDecision::Proceed));
    match confirm_reset(false, false, "ix") {
        ResetDecision::Refuse(m) => assert!(m.contains("pass --yes")),
        other => panic!("{other:?}"),
    }
    assert!(matches!(confirm_reset(false, true, "ix"), ResetDecision::Ask(_)));
}

#[test]
fn permission_failures_get_a_role_hint() {
    let h = hint_user_role("HTTP 403 Forbidden", "Search Index Data Reader").unwrap();
    assert!(h.contains("'Search Index Data Reader' role"));
    assert!(hint_user_role("Access Denied", "R").is_some());
    assert!(hint_user_role("timeout", "R").is_none());
}

#[test]
fn role_lines_list_grants_once() {
    let op = vec![("Reader".to_string(), "guid-r".to_string(), "/s".to_string())];
    let grants = vec![
        ("Writer".to_string(), "guid-w".to_string(), "/a".to_string()),
        ("Writer".to_string(), "guid-w".to_string(), "/a".to_string()),
        ("Reader".to_string(), "guid-r".to_string(), "/s".to_string()),
    ];
    let lines = role_lines(&op, &grants);
    assert_eq!(lines.len(), 3);
    assert!(!lines[0].grant);
    assert!(lines[1].grant && lines[2].grant);
    let l = RoleLine { role: "Reader".into(), role_id: "guid".into(), scope: "/s".into(), grant: false };
    assert_eq!(l.display(), "guid  # Reader");
}

#[test]
fn resolving_proposals_uses_supplied_answers() {
    let proposals = vec![Proposal {
        name: "acct".into(),
        kind: BindingType::Storage,
        value: "acct".into(),
        sources: vec![],
    }];
    let mut a = InteractiveAsker::new(
        AnswerMap::from_pairs(vec![("learn.dev.acct".to_string(), "docs".to_string())]),
        true,
    );
    let out = resolve_proposals(&mut a, "dev", &proposals).unwrap();
    assert_eq!(out[0].0, "docs");
    let mut b = InteractiveAsker::new(AnswerMap::new(), true);
    assert!(matches!(
        resolve_proposals(&mut b, "dev", &proposals),
        Err(ResolveError::Ask(AskError::NeedsPrompt))
    ));
    assert!(resolve_proposals(&mut b, "dev", &[]).unwrap().is_empty());
}

#[test]
fn pushed_kinds_come_from_the_documents_by_directory_name() {
    let e = ResolvedEnv { name: "dev".into(), env: env(true) };
    let docs = vec![
        ResourceKind::Skillset,
        ResourceKind::Index,
        ResourceKind::Agent,
        ResourceKind::Index,
        ResourceKind::DataSource,
    ];
    assert_eq!(
        kinds_for(&e, &docs),
        vec![ResourceKind::Agent, ResourceKind::DataSource, ResourceKind::Index, ResourceKind::Skillset]
    );
}

#[test]
fn without_documents_every_served_kind_is_pushed() {
    let mut with_search = env(true);
    with_search.search = Some(SearchConnection {
        name: None,
        service: "srch".into(),
        endpoint: None,
        api_version: None,
        preview_api_version: None,
    });
    let e = ResolvedEnv { name: "dev".into(), env: with_search };
    assert_eq!(
        kinds_for(&e, &vec![]),
        vec![
            ResourceKind::Index,
            ResourceKind::Indexer,
            ResourceKind::DataSource,
            ResourceKind::Skillset,
            ResourceKind::SynonymMap,
            ResourceKind::Alias,
            ResourceKind::KnowledgeBase,
            ResourceKind::KnowledgeSource,
        ]
    );
    let none = ResolvedEnv { name: "dev".into(), env: env(true) };
    assert!(kinds_for(&none, &vec![]).is_empty());
}

#[test]
fn scripted_resolution_lists_every_unanswered_proposal() {
    let proposals = vec![
        Proposal { name: "acct".into(), kind: BindingType::Storage, value: "acct".into(), sources: vec![] },
        Proposal { name: "srch".into(), kind: BindingType::Storage, value: "srch".into(), sources: vec![] },
        Proposal { name: "fn".into(), kind: BindingType::Storage, value: "fn".into(), sources: vec![] },
    ];
    let mut a = ScriptedAsker::new(
        AnswerMap::from_pairs(vec![("learn.dev.srch".to_string(), "search".to_string())]),
        "env bind",
        JsonValue::Null,
    );
    match resolve_proposals_scripted(&mut a, "dev", &proposals) {
        Err(ResolveError::Script(ScriptError::NeedsInput(ni))) => {
            let ids: Vec<&str> = ni.questions.iter().map(|q| q.id.as_str()).collect();
            assert_eq!(ids, vec!["learn.dev.acct", "learn.dev.fn"]);
            assert_eq!(ni.command, "env bind");
            assert_eq!(ni.questions[0].default.as_deref(), Some("acct"));
        }
        other => panic!("expected NeedsInput, got {other:?}"),
    }
    let mut b = ScriptedAsker::new(
        AnswerMap::from_pairs(vec![
            ("learn.dev.acct".to_string(), "docs".to_string()),
            ("learn.dev.srch".to_string(), "skip".to_string()),
            ("learn.dev.fn".to_string(), "enrich".to_string()),
        ]),
        "env bind",
        JsonValue::Null,
    );
    let out = resolve_proposals_scripted(&mut b, "dev", &proposals).unwrap();
    assert_eq!(out.len(), 2);
    assert_eq!(out[0].0, "docs");
    assert_eq!(out[1].0, "enrich");
    assert!(resolve_proposals_scripted(&mut b, "dev", &[]).unwrap().is_empty());
}

#[test]
fn easy_auth_needs_a_declared_function_app_and_a_tenant() {
    let mut e = env(true);
    e.dependencies.push(NamedBinding {
        name: "enrich".into(),
        binding: Binding { kind: BindingType::FunctionApp, value: "fn-app".into() },
    });
    e.dependencies.push(NamedBinding {
        name: "docs".into(),
        binding: Binding { kind: BindingType::Storage, value: "acct".into() },
    });
    let r = ResolvedEnv { name: "dev".into(), env: e };
    assert_eq!(
        wiring_preconditions(&r, "nope").unwrap_err(),
        "environment 'dev' has no dependency named 'nope' — declare the function app first: \
         `rigg env bind dev nope function-app:<app-name>`"
    );
    assert_eq!(
        wiring_preconditions(&r, "docs").unwrap_err(),
        "'docs' is a storage binding, not a function-app binding — easy-auth wires Entra \
         authentication onto a function app"
    );
    assert!(wiring_preconditions(&r, "enrich").unwrap_err().starts_with("environment 'dev' declares no `tenant:`"));
    let mut with_tenant = r;
    with_tenant.env.tenant = Some("contoso".into());
    assert_eq!(wiring_preconditions(&with_tenant, "enrich").unwrap(), "contoso");
}
