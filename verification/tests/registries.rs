use foton::engine::resolve::registry::{
    ensure_non_empty_registries, resolve_all_enabled_registries, resolve_registries, RegistryError,
};
use foton::registry::{RegistryConfig, RegistryConfigs, RegistryId};

fn make_config(reg_ids: &[(&str, bool)]) -> RegistryConfigs {
    let mut configs = RegistryConfigs::new();
    for &(reg_id, enabled) in reg_ids {
        let id = RegistryId::new(reg_id).unwrap();
        configs.insert(
            id,
            RegistryConfig { source: format!("git+https://example.com/registry-{reg_id}.git"), enabled },
        );
    }
    configs
}

#[test]
fn resolve_registries_reports_unknown_explicit_registry() {
    let configs = RegistryConfigs::new();
    let ids = vec![RegistryId::new("unknown").unwrap()];

    let errs = resolve_registries(&configs, Some(&ids)).unwrap_err();

    assert_eq!(errs.len(), 1);
    assert!(matches!(
        &errs[0],
        RegistryError::RegistryNotFound { reg_id, available_registry_ids }
            if reg_id.as_str() == "unknown" && available_registry_ids.is_empty()
    ));
}

#[test]
fn resolve_registries_returns_explicit_registry_even_when_disabled() {
    let reg_id = RegistryId::new("disabled").unwrap();
    let configs = make_config(&[("disabled", false)]);

    let registries = resolve_registries(&configs, Some(&vec![reg_id])).unwrap();

    assert_eq!(registries.len(), 1);
    assert_eq!(registries[0].id().as_str(), "disabled");
    assert_eq!(registries[0].source, "git+https://example.com/registry-disabled.git");
}

#[test]
fn resolve_registries_returns_enabled_registries_when_ids_are_omitted() {
    let configs = make_config(&[("enabled", true), ("disabled", false)]);

    let registries = resolve_registries(&configs, None).unwrap();

    assert_eq!(registries.len(), 1);
    assert_eq!(registries[0].id().as_str(), "enabled");
}

#[test]
fn resolve_registries_reports_every_unknown_registry_with_the_known_ones() {
    let configs = make_config(&[("main", true), ("extra", false)]);
    let ids = vec![RegistryId::new("missing-a").unwrap(), RegistryId::new("main").unwrap(), RegistryId::new("missing-b").unwrap()];

    let errs = resolve_registries(&configs, Some(&ids)).unwrap_err();

    assert_eq!(errs.len(), 2);
    for (err, expected) in errs.iter().zip(["missing-a", "missing-b"]) {
        match err {
            RegistryError::RegistryNotFound { reg_id, available_registry_ids } => {
                assert_eq!(reg_id.as_str(), expected);
                assert_eq!(
                    available_registry_ids.iter().map(|id| id.as_str().to_string()).collect::<Vec<_>>(),
                    ["extra", "main"]
                );
            }
            RegistryError::NoEnabledRegistries => panic!("unexpected error"),
        }
    }
}

#[test]
fn resolve_all_enabled_registries_orders_by_identifier() {
    let configs = make_config(&[("zeta", true), ("alpha", true), ("mid", false)]);

    let registries = resolve_all_enabled_registries(&configs);

    assert_eq!(registries.iter().map(|r| r.id().as_str().to_string()).collect::<Vec<_>>(), ["alpha", "zeta"]);
}

#[test]
fn ensure_non_empty_registries_rejects_an_empty_list() {
    assert!(matches!(ensure_non_empty_registries(&vec![]), Err(RegistryError::NoEnabledRegistries)));
    let configs = make_config(&[("main", true)]);
    let registries = resolve_all_enabled_registries(&configs);
    assert!(ensure_non_empty_registries(&registries).is_ok());
}

#[test]
fn registry_configs_insert_replaces_an_existing_identifier() {
    let mut configs = make_config(&[("main", true)]);
    configs.insert(RegistryId::new("main").unwrap(), RegistryConfig { source: "other".to_string(), enabled: false });

    assert_eq!(configs.len(), 1);
    let config = configs.get(&RegistryId::new("main").unwrap()).unwrap();
    assert_eq!(config.source, "other");
    assert!(!config.enabled);
}
