use patreon_proxy::catalog::{EntitlementResolver, TierCatalog};
use patreon_proxy::models::MemberAttributes;
use patreon_proxy::settings::{pool_connection_bounds, sharder_cache_settings, CacheSettings};

fn attrs() -> MemberAttributes {
    MemberAttributes {
        last_charge_date: Some(1_600_000_000),
        last_charge_status: None,
        next_charge_date: Some(1_602_600_000),
        pledge_cadence: Some(1),
        patron_status: None,
    }
}

fn catalog(rows: &[(&str, &[&str])]) -> TierCatalog {
    TierCatalog {
        rows: rows
            .iter()
            .map(|(tier, skus)| {
                (
                    tier.to_string(),
                    skus.iter().map(|s| s.to_string()).collect(),
                )
            })
            .collect(),
    }
}

fn resolve(c: &TierCatalog, tier: &str) -> Vec<String> {
    c.resolve(&tier.to_string(), &attrs())
        .iter()
        .map(|e| e.sku.clone())
        .collect()
}

#[test]
fn catalog_resolves_matching_row() {
    let c = catalog(&[("t1", &["a", "b"]), ("t2", &["c"])]);
    assert_eq!(resolve(&c, "t1"), vec!["a".to_string(), "b".to_string()]);
    assert_eq!(resolve(&c, "t2"), vec!["c".to_string()]);
}

#[test]
fn catalog_is_total_on_unknown_tiers() {
    let c = catalog(&[("t1", &["a"])]);
    assert_eq!(resolve(&c, "t9"), Vec::<String>::new());
    assert_eq!(resolve(&catalog(&[]), "t1"), Vec::<String>::new());
}

#[test]
fn catalog_first_matching_row_decides() {
    let c = catalog(&[("t1", &["first"]), ("t1", &["second"])]);
    assert_eq!(resolve(&c, "t1"), vec!["first".to_string()]);
}

#[test]
fn cache_settings_keep_guilds_channels_roles() {
    let settings = sharder_cache_settings();
    assert_eq!(
        settings,
        CacheSettings {
            users: false,
            guilds: true,
            members: false,
            channels: true,
            roles: true,
            emojis: false,
            voice_states: false,
        }
    );
}

#[test]
fn pool_is_pinned_to_one_connection_per_worker() {
    assert_eq!(pool_connection_bounds(4), (4, 4));
    assert_eq!(pool_connection_bounds(0), (0, 0));
}
