use rigg::adopt::{
    adopt_usage, adoption_confirmation, adoption_mode, wizard_candidates, equivalent_command, plan_adoption, select_candidates,
    Confirmation, Selector,
};
use rigg::resources::{ResourceKind, ResourceRef};

#[test]
fn parses_all() {
    assert_eq!(Selector::parse("all").unwrap(), Selector::All);
}

#[test]
fn parses_bare_kind() {
    assert_eq!(
        Selector::parse("indexes").unwrap(),
        Selector::Kind(ResourceKind::Index)
    );
}

#[test]
fn parses_kind_slash_name() {
    assert_eq!(
        Selector::parse("indexes/hotels").unwrap(),
        Selector::One(ResourceRef::new(ResourceKind::Index, "hotels".to_string()))
    );
}

#[test]
fn unknown_kind_is_error_listing_kinds() {
    let err = Selector::parse("widgets").unwrap_err().to_string();
    assert!(err.contains("unknown resource kind 'widgets'"), "{err}");
    assert!(err.contains("indexes"), "lists valid kinds: {err}");
}

#[test]
fn is_broad_classifies_correctly() {
    assert!(Selector::parse("all").unwrap().is_broad());
    assert!(Selector::parse("indexes").unwrap().is_broad());
    assert!(!Selector::parse("indexes/hotels").unwrap().is_broad());
}

#[test]
fn equivalent_command_reconstructs_invocation() {
    assert_eq!(
        equivalent_command("regulus", &vec!["agents/regulus".into()], true),
        "rigg adopt regulus agents/regulus --with-deps"
    );
    assert_eq!(
        equivalent_command("p", &vec!["indexes/a".into(), "indexes/b".into()], false),
        "rigg adopt p indexes/a indexes/b"
    );
}

fn snapshot() -> Vec<ResourceRef> {
    vec![
        ResourceRef::new(ResourceKind::Index, "docs".to_string()),
        ResourceRef::new(ResourceKind::Agent, "regulus".to_string()),
        ResourceRef::new(ResourceKind::Agent, "helper".to_string()),
    ]
}

#[test]
fn selectors_resolve_to_unique_keys_in_order() {
    let sels = vec![
        Selector::parse("agents/helper").unwrap(),
        Selector::Kind(ResourceKind::Agent),
        Selector::All,
    ];
    let supported = vec![ResourceKind::Index, ResourceKind::Agent];
    let keys = select_candidates(&sels, &snapshot(), &supported, "dev").unwrap();
    assert_eq!(keys, vec!["agents/helper", "agents/regulus", "indexes/docs"]);
}

#[test]
fn a_selector_without_a_connection_is_refused() {
    let sels = vec![Selector::Kind(ResourceKind::Agent)];
    let supported = vec![ResourceKind::Index];
    let err = select_candidates(&sels, &snapshot(), &supported, "dev").unwrap_err();
    assert_eq!(err, "no connection for kind 'agents' in environment 'dev'");
}

#[test]
fn adoption_skips_what_others_own_and_refuses_explicit_theft() {
    let snap = snapshot();
    let owned = vec![("agents/helper".to_string(), "other".to_string())];
    let sels = vec![Selector::All];
    let keys = vec![
        "indexes/docs".to_string(),
        "agents/regulus".to_string(),
        "agents/helper".to_string(),
    ];
    let plan = plan_adoption(&keys, &sels, &snap, &vec![false, false, false], &owned, &vec![], "demo").unwrap();
    assert_eq!(plan.to_adopt, vec![0, 1]);
    assert!(plan.skipped.is_empty());

    let explicit = vec![Selector::parse("agents/helper").unwrap()];
    let err = plan_adoption(
        &vec!["agents/helper".to_string()],
        &explicit,
        &snap,
        &vec![false, false, false],
        &owned,
        &vec![],
        "demo",
    )
    .unwrap_err();
    assert!(err.contains("owned by project 'other'"), "{err}");
}

#[test]
fn adoption_reports_why_explicit_resources_are_skipped() {
    let snap = snapshot();
    let owned = vec![("agents/regulus".to_string(), "demo".to_string())];
    let auto = vec![("indexes/docs".to_string(), "ks1".to_string())];
    let sels = vec![
        Selector::parse("agents/regulus").unwrap(),
        Selector::parse("indexes/docs").unwrap(),
        Selector::parse("agents/ghost").unwrap(),
    ];
    let keys = vec![
        "agents/regulus".to_string(),
        "indexes/docs".to_string(),
        "agents/ghost".to_string(),
    ];
    let plan = plan_adoption(&keys, &sels, &snap, &vec![false, false, false], &owned, &auto, "demo").unwrap();
    assert!(plan.to_adopt.is_empty());
    assert_eq!(plan.owned_seeds, vec![1]);
    assert_eq!(plan.skipped[0].1, "already managed by this project");
    assert!(plan.skipped[1].1.contains("auto-created by knowledge source 'ks1'"));
    assert_eq!(plan.skipped[2].1, "no matching unmanaged remote resource");
}

#[test]
fn platform_managed_resources_are_never_adopted() {
    let snap = vec![
        ResourceRef::new(ResourceKind::Guardrail, "Microsoft.DefaultV2".to_string()),
        ResourceRef::new(ResourceKind::Guardrail, "my-policy".to_string()),
    ];
    let keys = vec![
        "guardrails/Microsoft.DefaultV2".to_string(),
        "guardrails/my-policy".to_string(),
    ];
    let plan = plan_adoption(&keys, &vec![Selector::All], &snap, &vec![true, false], &vec![], &vec![], "p").unwrap();
    assert_eq!(plan.to_adopt, vec![1]);
}

#[test]
fn adoption_needs_a_project_and_selectors_outside_the_wizard() {
    assert_eq!(adoption_mode(true, false, false, true), Ok(true));
    assert!(adoption_mode(false, false, false, true).unwrap_err().starts_with("name a project"));
    assert!(adoption_mode(false, false, true, false).unwrap_err().starts_with("name at least one selector"));
    assert_eq!(adoption_mode(false, false, true, true), Ok(false));
}

#[test]
fn broad_selectors_need_confirmation() {
    assert_eq!(adoption_confirmation(true, true, false, false, false, true, false), Confirmation::Wizard);
    assert_eq!(adoption_confirmation(false, true, true, false, false, true, false), Confirmation::Prompt);
    assert!(matches!(
        adoption_confirmation(false, true, true, false, false, false, false),
        Confirmation::Refuse(_)
    ));
    assert_eq!(adoption_confirmation(false, true, true, true, false, false, false), Confirmation::Proceed);
    assert_eq!(adoption_confirmation(false, true, true, false, true, false, false), Confirmation::Proceed);
}

#[test]
fn adopt_usage_errors_come_before_any_work() {
    let bad = vec!["indexes".to_string(), "widgets".to_string(), "gizmos/x".to_string()];
    let e = adopt_usage(&bad, true, false, false).unwrap_err();
    assert!(e.starts_with("unknown resource kind 'widgets'"), "{e}");
    let e = adopt_usage(&[], false, false, false).unwrap_err();
    assert!(e.starts_with("name a project"), "{e}");
    let e = adopt_usage(&[], true, true, true).unwrap_err();
    assert!(e.starts_with("name at least one selector"), "{e}");
    let (sels, wizard) = adopt_usage(&[], false, true, false).unwrap();
    assert!(sels.is_empty() && wizard);
    let good = vec!["all".to_string(), "indexes/hotels".to_string()];
    let (sels, wizard) = adopt_usage(&good, true, false, false).unwrap();
    assert!(!wizard);
    assert_eq!(sels[0], Selector::All);
    assert_eq!(sels[1], Selector::One(ResourceRef::new(ResourceKind::Index, "hotels".to_string())));
}

fn wizard_snap() -> Vec<ResourceRef> {
    vec![
        ResourceRef::new(ResourceKind::Index, "docs".to_string()),
        ResourceRef::new(ResourceKind::Agent, "regulus".to_string()),
        ResourceRef::new(ResourceKind::Agent, "helper".to_string()),
    ]
}

#[test]
fn wizard_candidates_filters_owned_and_groups_foundry_first() {
    let owned = vec![("agents/helper".to_string(), "other".to_string())];
    let items = wizard_candidates(&wizard_snap(), &vec![false; 3], &owned, &vec![], "demo");
    let labels: Vec<&str> = items.iter().map(|(_, l)| l.as_str()).collect();
    assert_eq!(labels, vec!["[Foundry] agents/regulus", "[Search] indexes/docs"]);
}

#[test]
fn wizard_candidates_excludes_platform_managed_guardrail() {
    // The platform-managed flag is what the snapshot's `properties.type:
    // SystemManaged` guardrail carries.
    let snap = vec![
        ResourceRef::new(ResourceKind::Index, "docs".to_string()),
        ResourceRef::new(ResourceKind::Guardrail, "Microsoft.DefaultV2".to_string()),
        ResourceRef::new(ResourceKind::Guardrail, "my-policy".to_string()),
    ];
    let items = wizard_candidates(&snap, &vec![false, true, false], &vec![], &vec![], "demo");
    let labels: Vec<&str> = items.iter().map(|(_, l)| l.as_str()).collect();
    assert_eq!(labels, vec!["[Foundry] guardrails/my-policy", "[Search] indexes/docs"]);
}

#[test]
fn wizard_candidates_marks_target_project_owned_as_managed() {
    let owned = vec![
        ("agents/regulus".to_string(), "regulus".to_string()),
        ("agents/helper".to_string(), "other".to_string()),
    ];
    let snap = vec![
        ResourceRef::new(ResourceKind::Agent, "regulus".to_string()),
        ResourceRef::new(ResourceKind::Agent, "helper".to_string()),
        ResourceRef::new(ResourceKind::Agent, "newbie".to_string()),
    ];
    let items = wizard_candidates(&snap, &vec![false; 3], &owned, &vec![], "regulus");
    let labels: Vec<&str> = items.iter().map(|(_, l)| l.as_str()).collect();
    assert!(labels.contains(&"[Foundry] agents/regulus (managed)"), "{labels:?}");
    assert!(labels.contains(&"[Foundry] agents/newbie"), "{labels:?}");
    assert!(!labels.iter().any(|l| l.contains("helper")), "other-project resources hidden: {labels:?}");
}

#[test]
fn wizard_candidates_leave_out_auto_created_resources() {
    let auto = vec![("indexes/docs".to_string(), "ks-docs".to_string())];
    let items = wizard_candidates(&wizard_snap(), &vec![false; 3], &vec![], &auto, "demo");
    let labels: Vec<&str> = items.iter().map(|(_, l)| l.as_str()).collect();
    assert_eq!(labels, vec!["[Foundry] agents/helper", "[Foundry] agents/regulus"]);
}
