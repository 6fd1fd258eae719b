use rigg::binding::{Binding, BindingType, NamedBinding};
use rigg::workspace::{
    check_binding_names, join_path, Environment, FoundryConnection, NamedEnvironment, Policy,
    Project, ProjectManifest, SearchConnection, Workspace, WorkspaceConfig, WorkspaceError,
};

fn env(default: bool, protected: bool, service: &str) -> Environment {
    Environment {
        default,
        tenant: None,
        subscription: None,
        search: Some(SearchConnection {
            name: None,
            service: service.to_string(),
            endpoint: None,
            api_version: None,
            preview_api_version: None,
        }),
        foundry: None,
        policy: Policy { protected, strict_bindings: None },
        dependencies: Vec::new(),
    }
}

fn project(name: &str) -> Project {
    Project {
        name: name.to_string(),
        dir: format!("/ws/projects/{name}"),
        manifest: ProjectManifest { description: None },
    }
}

fn workspace(root: Option<&str>) -> Workspace {
    Workspace {
        root: "/ws".to_string(),
        config: WorkspaceConfig {
            name: None,
            root: root.map(|s| s.to_string()),
            environments: vec![
                NamedEnvironment { name: "dev".into(), env: env(true, false, "s") },
                NamedEnvironment { name: "prod".into(), env: env(false, true, "p") },
            ],
        },
        projects: vec![project("alpha"), project("beta")],
    }
}

#[test]
fn env_resolution_precedence() {
    let ws = workspace(None);
    assert_eq!(ws.resolve_env(Some("prod"), Some("dev")).unwrap().name, "prod");
    assert_eq!(ws.resolve_env(None, Some("prod")).unwrap().name, "prod");
    assert_eq!(ws.resolve_env(None, None).unwrap().name, "dev");
    match ws.resolve_env(Some("staging"), None) {
        Err(WorkspaceError::UnknownEnvironment(name, avail)) => {
            assert_eq!(name, "staging");
            assert_eq!(avail, "dev, prod");
        }
        other => panic!("{other:?}"),
    }
}

#[test]
fn no_default_env_errors() {
    let mut ws = workspace(None);
    ws.config.environments[0].env.default = false;
    assert!(matches!(ws.resolve_env(None, None), Err(WorkspaceError::NoDefaultEnvironment)));
}

#[test]
fn policy_protected_and_strict_bindings_default() {
    let ws = workspace(None);
    assert!(!ws.resolve_env(Some("dev"), None).unwrap().protected());
    let prod = ws.resolve_env(Some("prod"), None).unwrap();
    assert!(prod.protected());
    assert!(prod.strict_bindings());
    let p = Policy { protected: true, strict_bindings: Some(false) };
    assert!(!p.strict_bindings());
    assert!(Policy { protected: false, strict_bindings: None }.is_default());
}

#[test]
fn root_setting_relocates_file_trees() {
    let ws = workspace(Some("rag"));
    assert_eq!(ws.files_root(), "/ws/rag");
    assert_eq!(ws.apis_dir(), "/ws/rag/apis");
    assert_eq!(ws.state_dir("dev", "alpha"), "/ws/rag/.rigg/dev/alpha");
    let plain = workspace(None);
    assert_eq!(plain.files_root(), "/ws");
}

#[test]
fn projects_are_found_by_name() {
    let ws = workspace(None);
    assert_eq!(ws.project("beta").unwrap().name, "beta");
    match ws.project("gamma") {
        Err(WorkspaceError::UnknownProject(name, avail)) => {
            assert_eq!(name, "gamma");
            assert_eq!(avail, "alpha, beta");
        }
        other => panic!("{other:?}"),
    }
    assert_eq!(ws.default_env_name(), Some("dev"));
}

#[test]
fn urls_default_to_the_public_cloud() {
    let s = SearchConnection {
        name: None,
        service: "svc".into(),
        endpoint: None,
        api_version: None,
        preview_api_version: None,
    };
    assert_eq!(s.url(), "https://svc.search.windows.net");
    let f = FoundryConnection {
        name: None,
        account: "acct".into(),
        endpoint: Some("https://custom.example//".into()),
        project: "p".into(),
        api_version: None,
    };
    assert_eq!(f.url(), "https://custom.example");
}

#[test]
fn paths_join_like_path_join() {
    assert_eq!(join_path("/a", "b"), "/a/b");
    assert_eq!(join_path("/a/", "b"), "/a/b");
    assert_eq!(join_path("/a", "/b"), "/b");
    assert_eq!(join_path("", "b"), "b");
}

#[test]
fn invalid_binding_names_in_the_config_are_reported() {
    let mut ws = workspace(None);
    ws.config.environments[1].env.dependencies.push(NamedBinding {
        name: "Docs".into(),
        binding: Binding { kind: BindingType::Storage, value: "acct".into() },
    });
    match check_binding_names("/ws/rigg.yaml", &ws.config) {
        Err(WorkspaceError::InvalidBindingName { path, env, name, .. }) => {
            assert_eq!(path, "/ws/rigg.yaml");
            assert_eq!(env, "prod");
            assert_eq!(name, "Docs");
        }
        other => panic!("{other:?}"),
    }
    assert!(check_binding_names("/ws/rigg.yaml", &workspace(None).config).is_ok());
}

#[test]
fn discovery_searches_the_start_directory_and_its_parents() {
    assert_eq!(
        rigg::workspace::search_dirs("/ws/projects/alpha"),
        vec!["/ws/projects/alpha", "/ws/projects", "/ws", "/"]
    );
    assert_eq!(rigg::workspace::search_dirs("/"), vec!["/"]);
}
