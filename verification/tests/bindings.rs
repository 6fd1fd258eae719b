use rigg::ask::Answer;
use rigg::binding::{
    kebab, origin, parse_bind_flag, parse_binding, storage_resource_id, validate_binding_name,
    workspace_yaml_header, BindingType,
};
use rigg::proposals::{
    answers_to_bindings, name_proposals, proposals_to_questions, Proposal,
};

#[test]
fn binding_names_are_validated_and_reserved() {
    assert!(validate_binding_name("docs-storage").is_ok());
    assert!(validate_binding_name("Docs").is_err());
    assert!(validate_binding_name("search").is_err());
    assert!(validate_binding_name("foundry").is_err());
}

#[test]
fn kebab_and_origin_shape_proposal_names() {
    assert_eq!(kebab("MKLab_Storage.01"), "mklab-storage-01");
    assert_eq!(kebab("--weird--"), "weird");
    assert_eq!(
        origin("https://api.partner.example/v1/x"),
        "https://api.partner.example"
    );
    assert_eq!(origin("nonsense"), "nonsense");
}

#[test]
fn parse_binding_accepts_urls_and_rejects_unknown_types() {
    let b = parse_binding("api:https://api.partner.example/v1").unwrap();
    assert_eq!(b.kind, BindingType::Api);
    assert_eq!(b.value, "https://api.partner.example/v1");
    assert!(parse_binding("cosmos:x").is_err());
    assert!(parse_binding("storage:").is_err());
    assert!(parse_binding("storage").is_err());
    let (name, b) = parse_bind_flag("docs=storage:acct").unwrap();
    assert_eq!(name, "docs");
    assert_eq!(b.value, "acct");
    assert!(parse_bind_flag("search=storage:acct").is_err());
}

#[test]
fn storage_resource_id_is_located_anywhere_and_trimmed() {
    assert_eq!(
        storage_resource_id("resourceid=/subscriptions/s/x/;Database=d").as_deref(),
        Some("/subscriptions/s/x")
    );
    assert_eq!(storage_resource_id("AccountName=x"), None);
}

#[test]
fn workspace_yaml_header_matches_init() {
    assert_eq!(
        workspace_yaml_header(None),
        "# Rigg workspace configuration.\n# Resource definitions live in projects/<name>/ — see `rigg new project`.\n"
    );
    assert!(workspace_yaml_header(Some("cfg"))
        .contains("live in cfg/projects/<name>/ — see `rigg new project`."));
}

fn proposal(name: &str, kind: BindingType, value: &str) -> Proposal {
    Proposal {
        name: name.into(),
        kind,
        value: value.into(),
        sources: vec![],
    }
}

#[test]
fn answers_must_match_the_proposals_one_for_one() {
    let proposals = vec![proposal("acct", BindingType::Storage, "acct")];
    let err = answers_to_bindings(&proposals, &[]).unwrap_err();
    assert!(err.to_string().contains("0 answer(s) for 1"), "{err}");
}

#[test]
fn answers_skip_and_rename_proposals() {
    let proposals = vec![
        proposal("acct", BindingType::Storage, "acct"),
        proposal("other", BindingType::Storage, "other"),
    ];
    let qs = proposals_to_questions("dev", &proposals);
    assert_eq!(qs[0].id, "learn.dev.acct");
    assert_eq!(qs[0].default.as_deref(), Some("acct"));
    let out = answers_to_bindings(
        &proposals,
        &[Answer::Text("docs".into()), Answer::Text("skip".into())],
    )
    .unwrap();
    assert_eq!(out.len(), 1);
    assert_eq!(out[0].0, "docs");
    assert_eq!(out[0].1.value, "acct");
}

#[test]
fn answers_rejects_two_proposals_renamed_to_the_same_name() {
    let proposals = vec![
        proposal("acct", BindingType::Storage, "acct"),
        proposal("other", BindingType::AiServices, "other"),
    ];
    let err = answers_to_bindings(
        &proposals,
        &[Answer::Text("docs".into()), Answer::Text("docs".into())],
    )
    .unwrap_err();
    assert!(err.to_string().contains("docs"), "{err}");
}

#[test]
fn learned_names_get_numeric_suffixes_on_collision() {
    let grouped = vec![
        proposal("", BindingType::Storage, "/subscriptions/s/rg/providers/x/storageAccounts/Docs_Acct"),
        proposal("", BindingType::Storage, "docs-acct"),
        proposal("", BindingType::Api, "https://api.partner.example/v1"),
        proposal("", BindingType::Storage, "search"),
        proposal("", BindingType::KeyVault, "!!!"),
    ];
    let existing = vec!["docs-acct".to_string()];
    let named = name_proposals(grouped, &existing);
    let names: Vec<&str> = named.iter().map(|p| p.name.as_str()).collect();
    assert_eq!(names, vec!["docs-acct-2", "docs-acct-3", "api", "search-2", "key-vault"]);
    assert_eq!(named[2].value, "https://api.partner.example/v1");
}

#[test]
fn an_empty_or_skip_answer_declines_and_a_bad_name_is_refused() {
    let proposals = vec![
        proposal("a", BindingType::Storage, "a"),
        proposal("b", BindingType::Storage, "b"),
    ];
    let out = answers_to_bindings(&proposals, &[Answer::Text("  ".into()), Answer::Text("SKIP".into())]).unwrap();
    assert!(out.is_empty());
    let err = answers_to_bindings(&proposals, &[Answer::Text("Bad Name".into()), Answer::Text("skip".into())]).unwrap_err();
    assert!(err.contains("may only contain"), "{err}");
}

#[test]
fn kept_answers_become_bindings_in_proposal_order() {
    let proposals = vec![
        proposal("a", BindingType::Storage, "va"),
        proposal("b", BindingType::KeyVault, "vb"),
        proposal("c", BindingType::Api, "vc"),
    ];
    let out = answers_to_bindings(
        &proposals,
        &[Answer::Text(" x ".into()), Answer::Text(" SKIP ".into()), Answer::Text("y".into())],
    )
    .unwrap();
    assert_eq!(out.len(), 2);
    assert_eq!((out[0].0.as_str(), out[0].1.value.as_str()), ("x", "va"));
    assert_eq!((out[1].0.as_str(), out[1].1.value.as_str()), ("y", "vc"));
    assert_eq!(out[1].1.kind, BindingType::Api);
    assert!(answers_to_bindings(
        &proposals,
        &[Answer::Text("x".into()), Answer::Text("".into()), Answer::Text("x".into())],
    )
    .is_err());
}
