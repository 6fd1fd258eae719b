use rigg::resources::{ResourceKind, ResourceRef};
use rigg::store::{
    assert_exclusive_ownership, check_kind_entries, classify_sums, md5_like, KindEntry,
    ProjectListing, Store, StoreError, SyncClass,
};
use rigg::workspace::{Project, ProjectManifest};

fn listing(project: &str, names: &[&str]) -> ProjectListing {
    ProjectListing {
        project: project.to_string(),
        resources: names
            .iter()
            .map(|n| ResourceRef::new(ResourceKind::Index, n.to_string()))
            .collect(),
    }
}

#[test]
fn exclusive_ownership_violation_names_both_projects() {
    let ls = vec![listing("alpha", &["shared"]), listing("beta", &["other", "shared"])];
    match assert_exclusive_ownership(&ls) {
        Err(StoreError::DuplicateOwnership { reference, first, second }) => {
            assert_eq!(reference, "indexes/shared");
            assert_eq!(first, "alpha");
            assert_eq!(second, "beta");
        }
        other => panic!("{other:?}"),
    }
    assert!(assert_exclusive_ownership(&vec![listing("alpha", &["a"]), listing("beta", &["b"])]).is_ok());
}

#[test]
fn duplicate_physical_name_in_one_kind_dir_errors() {
    let es = vec![
        KindEntry { path: "/p/a.json".into(), name: "dup".into() },
        KindEntry { path: "/p/b.json".into(), name: "dup".into() },
    ];
    match check_kind_entries(&es) {
        Err(StoreError::DuplicatePhysicalName { name, first, second }) => {
            assert_eq!(name, "dup");
            assert_eq!(first, "/p/a.json");
            assert_eq!(second, "/p/b.json");
        }
        other => panic!("{other:?}"),
    }
    let bad = vec![KindEntry { path: "/p/x.json".into(), name: "a/b".into() }];
    assert!(matches!(check_kind_entries(&bad), Err(StoreError::BadName { .. })));
}

#[test]
fn classify_truth_table() {
    let (a, b, c) = ("a", "b", "c");
    assert_eq!(classify_sums(None, Some(a), Some(a)), SyncClass::InSync);
    assert_eq!(classify_sums(None, Some(a), Some(b)), SyncClass::Untracked);
    assert_eq!(classify_sums(None, Some(a), None), SyncClass::LocalOnly);
    assert_eq!(classify_sums(None, None, Some(a)), SyncClass::RemoteOnly);
    assert_eq!(classify_sums(None, None, None), SyncClass::InSync);
    assert_eq!(classify_sums(Some(a), Some(a), Some(a)), SyncClass::InSync);
    assert_eq!(classify_sums(Some(a), Some(b), Some(a)), SyncClass::LocalAhead);
    assert_eq!(classify_sums(Some(a), Some(a), Some(b)), SyncClass::RemoteAhead);
    assert_eq!(classify_sums(Some(a), Some(b), Some(c)), SyncClass::Conflict);
    assert_eq!(classify_sums(Some(a), Some(b), Some(b)), SyncClass::InSync);
}

#[test]
fn store_paths_follow_the_layout() {
    let p = Project {
        name: "alpha".into(),
        dir: "/ws/projects/alpha".into(),
        manifest: ProjectManifest { description: None },
    };
    let s = Store::new(&p, "dev");
    assert_eq!(s.env(), "dev");
    assert_eq!(
        s.path_for(&ResourceRef::new(ResourceKind::Index, "docs".to_string())),
        "/ws/projects/alpha/envs/dev/search/indexes/docs.json"
    );
    assert_eq!(
        s.path_for(&ResourceRef::new(ResourceKind::Agent, "a".to_string())),
        "/ws/projects/alpha/envs/dev/foundry/agents/a.json"
    );
}

#[test]
fn checksum_is_the_two_lane_fnv_hash() {
    assert_eq!(md5_like(""), (0xcbf29ce484222325u128 << 64) | 0x9e3779b97f4a7c15u128);
    assert_ne!(md5_like("a"), md5_like("b"));
    assert_eq!(md5_like("same"), md5_like("same"));
}

#[test]
fn checksums_print_in_lowercase_hex() {
    assert_eq!(rigg::store::hex_string(0), "0");
    assert_eq!(rigg::store::hex_string(255), "ff");
    assert_eq!(rigg::store::hex_string(0x1234abcd), "1234abcd");
    assert_eq!(rigg::store::checksum_text("x"), format!("{:x}", md5_like("x")));
}
