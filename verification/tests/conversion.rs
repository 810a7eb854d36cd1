use patreon_proxy::catalog::TierCatalog;
use patreon_proxy::convert::EntitlementMap;
use patreon_proxy::models::{
    ChargeStatus, DiscordConnection, EntitledTier, EntitledTiers, Member, MemberAttributes,
    PatronAttributes, PatronMetadata, PatronStatus, PledgeResponse, Relationships,
    SocialConnections, User, UserData,
};

fn member(
    patron: Option<PatronStatus>,
    charge: Option<ChargeStatus>,
    user_id: &str,
    tiers: &[&str],
) -> Member {
    Member {
        attributes: MemberAttributes {
            last_charge_date: None,
            last_charge_status: charge,
            next_charge_date: None,
            pledge_cadence: None,
            patron_status: patron,
        },
        relationships: Relationships {
            user: User {
                data: UserData {
                    id: user_id.to_string(),
                },
            },
            currently_entitled_tiers: EntitledTiers {
                data: tiers
                    .iter()
                    .map(|t| EntitledTier { id: t.to_string() })
                    .collect(),
            },
        },
    }
}

fn meta(id: &str, discord: Option<&str>) -> PatronMetadata {
    PatronMetadata {
        id: id.to_string(),
        attributes: PatronAttributes {
            social_connections: Some(SocialConnections {
                discord: Some(DiscordConnection {
                    user_id: discord.map(|d| d.to_string()),
                }),
            }),
        },
    }
}

fn catalog(rows: &[(&str, &[&str])]) -> TierCatalog {
    TierCatalog {
        rows: rows
            .iter()
            .map(|(tier, skus)| {
                (
                    tier.to_string(),
                    skus.iter().map(|s| s.to_string()).collect(),
                )
            })
            .collect(),
    }
}

fn page(members: Vec<Member>, metas: Vec<PatronMetadata>) -> PledgeResponse {
    PledgeResponse {
        data: members,
        included: metas,
        links: None,
    }
}

fn skus(map: &EntitlementMap, key: &str) -> Option<Vec<String>> {
    map.get(&key.to_string())
        .map(|v| v.iter().map(|e| e.sku.clone()).collect())
}

#[test]
fn scenario_active_paid_member_is_granted() {
    let resp = page(
        vec![member(
            Some(PatronStatus::ActivePatron),
            Some(ChargeStatus::Paid),
            "u1",
            &["t1"],
        )],
        vec![meta("u1", Some("d1"))],
    );
    let result = resp.convert(&catalog(&[("t1", &["sku_gold"])]));
    assert!(!result.is_empty());
    assert!(result.contains_key(&"d1".to_string()));
    assert_eq!(skus(&result, "d1"), Some(vec!["sku_gold".to_string()]));
}

#[test]
fn scenario_former_patron_is_dropped() {
    let resp = page(
        vec![member(
            Some(PatronStatus::FormerPatron),
            Some(ChargeStatus::Paid),
            "u1",
            &["t1"],
        )],
        vec![meta("u1", Some("d1"))],
    );
    let result = resp.convert(&catalog(&[("t1", &["sku_gold"])]));
    assert!(result.is_empty());
    assert_eq!(skus(&result, "d1"), None);
}

#[test]
fn scenario_missing_metadata_drops_member() {
    let resp = page(
        vec![member(
            Some(PatronStatus::ActivePatron),
            Some(ChargeStatus::Paid),
            "u1",
            &["t1"],
        )],
        vec![],
    );
    let result = resp.convert(&catalog(&[("t1", &["sku_gold"])]));
    assert!(result.is_empty());
}

#[test]
fn scenario_unlinked_chat_account_drops_member() {
    let resp = page(
        vec![member(
            Some(PatronStatus::ActivePatron),
            Some(ChargeStatus::Paid),
            "u1",
            &["t1"],
        )],
        vec![meta("u1", None)],
    );
    let result = resp.convert(&catalog(&[("t1", &["sku_gold"])]));
    assert!(result.is_empty());
}

#[test]
fn scenario_two_tiers_flatten_into_one_set() {
    let resp = page(
        vec![member(
            Some(PatronStatus::ActivePatron),
            Some(ChargeStatus::Paid),
            "u1",
            &["t1", "t2"],
        )],
        vec![meta("u1", Some("d1"))],
    );
    let result = resp.convert(&catalog(&[("t1", &["a"]), ("t2", &["b"])]));
    assert_eq!(
        skus(&result, "d1"),
        Some(vec!["a".to_string(), "b".to_string()])
    );
}

#[test]
fn scenario_duplicate_chat_id_last_member_wins() {
    let resp = page(
        vec![
            member(
                Some(PatronStatus::ActivePatron),
                Some(ChargeStatus::Paid),
                "u1",
                &["t1"],
            ),
            member(
                Some(PatronStatus::ActivePatron),
                Some(ChargeStatus::Paid),
                "u2",
                &["t2"],
            ),
        ],
        vec![meta("u1", Some("d1")), meta("u2", Some("d1"))],
    );
    let result = resp.convert(&catalog(&[("t1", &["a"]), ("t2", &["b"])]));
    assert!(result.contains_key(&"d1".to_string()));
    assert_eq!(skus(&result, "d1"), Some(vec!["b".to_string()]));
}

#[test]
fn pending_charge_is_eligible() {
    let resp = page(
        vec![member(
            Some(PatronStatus::ActivePatron),
            Some(ChargeStatus::Pending),
            "u1",
            &["t1"],
        )],
        vec![meta("u1", Some("d1"))],
    );
    let result = resp.convert(&catalog(&[("t1", &["sku_gold"])]));
    assert_eq!(skus(&result, "d1"), Some(vec!["sku_gold".to_string()]));
}

#[test]
fn declined_charge_is_dropped() {
    let resp = page(
        vec![member(
            Some(PatronStatus::ActivePatron),
            Some(ChargeStatus::Declined),
            "u1",
            &["t1"],
        )],
        vec![meta("u1", Some("d1"))],
    );
    let result = resp.convert(&catalog(&[("t1", &["sku_gold"])]));
    assert!(result.is_empty());
}

#[test]
fn absent_charge_status_is_dropped() {
    let resp = page(
        vec![member(
            Some(PatronStatus::ActivePatron),
            None,
            "u1",
            &["t1"],
        )],
        vec![meta("u1", Some("d1"))],
    );
    let result = resp.convert(&catalog(&[("t1", &["sku_gold"])]));
    assert!(result.is_empty());
}

#[test]
fn never_pledged_member_is_dropped() {
    let resp = page(
        vec![member(None, Some(ChargeStatus::Paid), "u1", &["t1"])],
        vec![meta("u1", Some("d1"))],
    );
    let result = resp.convert(&catalog(&[("t1", &["sku_gold"])]));
    assert!(result.is_empty());
}

#[test]
fn member_without_tiers_is_dropped() {
    let resp = page(
        vec![member(
            Some(PatronStatus::ActivePatron),
            Some(ChargeStatus::Paid),
            "u1",
            &[],
        )],
        vec![meta("u1", Some("d1"))],
    );
    let result = resp.convert(&catalog(&[("t1", &["sku_gold"])]));
    assert!(result.is_empty());
}

#[test]
fn unknown_tier_resolves_to_nothing_and_member_is_pruned() {
    let resp = page(
        vec![member(
            Some(PatronStatus::ActivePatron),
            Some(ChargeStatus::Paid),
            "u1",
            &["unknown"],
        )],
        vec![meta("u1", Some("d1"))],
    );
    let result = resp.convert(&catalog(&[("t1", &["sku_gold"])]));
    assert!(result.is_empty());
    assert!(!result.contains_key(&"d1".to_string()));
}

#[test]
fn overlapping_tier_codes_are_deduplicated() {
    let resp = page(
        vec![member(
            Some(PatronStatus::ActivePatron),
            Some(ChargeStatus::Paid),
            "u1",
            &["t1", "t2"],
        )],
        vec![meta("u1", Some("d1"))],
    );
    let result = resp.convert(&catalog(&[("t1", &["a", "b"]), ("t2", &["b", "c"])]));
    assert_eq!(
        skus(&result, "d1"),
        Some(vec!["a".to_string(), "b".to_string(), "c".to_string()])
    );
}

#[test]
fn converting_twice_yields_identical_maps() {
    let resp = page(
        vec![
            member(
                Some(PatronStatus::ActivePatron),
                Some(ChargeStatus::Paid),
                "u1",
                &["t1"],
            ),
            member(
                Some(PatronStatus::FormerPatron),
                Some(ChargeStatus::Paid),
                "u2",
                &["t2"],
            ),
        ],
        vec![meta("u1", Some("d1")), meta("u2", Some("d2"))],
    );
    let resolver = catalog(&[("t1", &["a"]), ("t2", &["b"])]);
    let first = resp.convert(&resolver);
    let second = resp.convert(&resolver);
    assert_eq!(first.is_empty(), second.is_empty());
    for key in ["d1", "d2"] {
        assert_eq!(skus(&first, key), skus(&second, key));
        assert_eq!(
            first.contains_key(&key.to_string()),
            second.contains_key(&key.to_string())
        );
    }
}

#[test]
fn empty_page_converts_to_empty_map() {
    let resp = page(vec![], vec![]);
    let result = resp.convert(&catalog(&[("t1", &["sku_gold"])]));
    assert!(result.is_empty());
    assert!(result.get(&"d1".to_string()).is_none());
}

#[test]
fn missing_social_connections_drops_member() {
    let resp = page(
        vec![member(
            Some(PatronStatus::ActivePatron),
            Some(ChargeStatus::Paid),
            "u1",
            &["t1"],
        )],
        vec![PatronMetadata {
            id: "u1".to_string(),
            attributes: PatronAttributes {
                social_connections: None,
            },
        }],
    );
    let result = resp.convert(&catalog(&[("t1", &["sku_gold"])]));
    assert!(result.is_empty());
}

#[test]
fn metadata_lookup_finds_matching_record() {
    let resp = page(vec![], vec![meta("u1", Some("d1")), meta("u2", Some("d2"))]);
    let found = resp.get_meta_by_id(&"u2".to_string());
    assert_eq!(found.map(|m| m.id.as_str()), Some("u2"));
    assert!(resp.get_meta_by_id(&"u3".to_string()).is_none());
}

#[test]
fn merging_pages_keeps_both_and_later_page_wins() {
    let resolver = catalog(&[("t1", &["a"]), ("t2", &["b"]), ("t3", &["c"])]);
    let first_page = page(
        vec![
            member(
                Some(PatronStatus::ActivePatron),
                Some(ChargeStatus::Paid),
                "u1",
                &["t1"],
            ),
            member(
                Some(PatronStatus::ActivePatron),
                Some(ChargeStatus::Paid),
                "u2",
                &["t2"],
            ),
        ],
        vec![meta("u1", Some("d1")), meta("u2", Some("d2"))],
    );
    let second_page = page(
        vec![member(
            Some(PatronStatus::ActivePatron),
            Some(ChargeStatus::Paid),
            "u3",
            &["t3"],
        )],
        vec![meta("u3", Some("d1"))],
    );
    let mut result = first_page.convert(&resolver);
    result.merge(second_page.convert(&resolver));
    assert_eq!(skus(&result, "d1"), Some(vec!["c".to_string()]));
    assert_eq!(skus(&result, "d2"), Some(vec!["b".to_string()]));
}

#[test]
fn merging_an_empty_page_changes_nothing() {
    let resolver = catalog(&[("t1", &["a"])]);
    let resp = page(
        vec![member(
            Some(PatronStatus::ActivePatron),
            Some(ChargeStatus::Paid),
            "u1",
            &["t1"],
        )],
        vec![meta("u1", Some("d1"))],
    );
    let mut result = resp.convert(&resolver);
    result.merge(page(vec![], vec![]).convert(&resolver));
    assert_eq!(skus(&result, "d1"), Some(vec!["a".to_string()]));
}

#[test]
fn into_pairs_lists_entries_in_insertion_order() {
    let resolver = catalog(&[("t1", &["a"]), ("t2", &["b"])]);
    let resp = page(
        vec![
            member(
                Some(PatronStatus::ActivePatron),
                Some(ChargeStatus::Paid),
                "u1",
                &["t1"],
            ),
            member(
                Some(PatronStatus::ActivePatron),
                Some(ChargeStatus::Paid),
                "u2",
                &["t2"],
            ),
        ],
        vec![meta("u1", Some("d1")), meta("u2", Some("d2"))],
    );
    let pairs = resp.convert(&resolver).into_pairs();
    let keys: Vec<String> = pairs.iter().map(|(k, _)| k.clone()).collect();
    assert_eq!(keys, vec!["d1".to_string(), "d2".to_string()]);
}

#[test]
fn new_map_is_empty() {
    let map = EntitlementMap::new();
    assert!(map.is_empty());
    assert!(!map.contains_key(&"d1".to_string()));
}
