use nft_merge::{Authorization, DataKey, Env, Error, Identity, NFTMergeContract, Namespace};

fn granted(timestamp: u64) -> Env {
    Env::new(Authorization::Granted, timestamp)
}

fn denied(timestamp: u64) -> Env {
    Env::new(Authorization::Denied, timestamp)
}

fn who(key: &str) -> Identity {
    Identity::new(key.to_string())
}

fn strings(items: &[&str]) -> Vec<String> {
    items.iter().map(|item| item.to_string()).collect()
}

fn mint(registry: &mut NFTMergeContract, owner: &str, name: &str, level: u32) -> u64 {
    registry
        .mint_nft(granted(100), who(owner), name.to_string(), strings(&["plain"]), level)
        .unwrap()
}

fn recipe(registry: &mut NFTMergeContract, count: usize, name: &str, bonus: u32) -> u64 {
    let types: Vec<String> = (0..count).map(|i| format!("type{}", i)).collect();
    registry
        .create_recipe(granted(100), who("admin"), types, name.to_string(), strings(&["forged"]), bonus)
        .unwrap()
}

#[test]
fn new_registry_is_empty() {
    let registry = NFTMergeContract::new();
    assert_eq!(registry.counter(Namespace::Asset), 0);
    assert_eq!(registry.counter(Namespace::Recipe), 0);
    assert_eq!(registry.view_nft(1), Err(Error::NotFound(Namespace::Asset)));
    assert_eq!(registry.view_recipe(1), Err(Error::NotFound(Namespace::Recipe)));
    assert_eq!(registry.owner_nfts(&who("alice")), Vec::<u64>::new());
}

#[test]
fn mint_ids_are_strictly_increasing_from_one() {
    let mut registry = NFTMergeContract::new();
    let mut last = 0;
    for round in 0..20u32 {
        let owner = if round % 2 == 0 { "alice" } else { "bob" };
        let id = mint(&mut registry, owner, "Sword", round);
        assert_eq!(id, last + 1);
        assert!(id > last);
        last = id;
        assert_eq!(registry.counter(Namespace::Asset), id);
    }
}

#[test]
fn minted_asset_is_viewable_and_listed() {
    let mut registry = NFTMergeContract::new();
    let id = registry
        .mint_nft(
            granted(1234),
            who("alice"),
            "Sword".to_string(),
            strings(&["sharp", "steel"]),
            7,
        )
        .unwrap();
    assert_eq!(id, 1);
    let asset = registry.view_nft(id).unwrap();
    assert_eq!(asset.id, 1);
    assert_eq!(asset.owner, who("alice"));
    assert_eq!(asset.name, "Sword");
    assert_eq!(asset.attributes, strings(&["sharp", "steel"]));
    assert_eq!(asset.level, 7);
    assert_eq!(asset.created_at, 1234);
    assert_eq!(registry.owner_nfts(&who("alice")), vec![1]);
    assert_eq!(registry.owner_nfts(&who("bob")), Vec::<u64>::new());
}

#[test]
fn owner_list_keeps_mint_order() {
    let mut registry = NFTMergeContract::new();
    let a = mint(&mut registry, "alice", "A", 1);
    let b = mint(&mut registry, "bob", "B", 1);
    let c = mint(&mut registry, "alice", "C", 1);
    let d = mint(&mut registry, "alice", "D", 1);
    assert_eq!(registry.owner_nfts(&who("alice")), vec![a, c, d]);
    assert_eq!(registry.owner_nfts(&who("bob")), vec![b]);
}

#[test]
fn mint_accepts_any_name_attributes_and_level() {
    let mut registry = NFTMergeContract::new();
    let id = registry
        .mint_nft(granted(0), who(""), String::new(), Vec::new(), u32::MAX)
        .unwrap();
    let asset = registry.view_nft(id).unwrap();
    assert_eq!(asset.name, "");
    assert!(asset.attributes.is_empty());
    assert_eq!(asset.level, u32::MAX);
    assert_eq!(asset.created_at, 0);
}

#[test]
fn mint_denied_is_unauthorized_and_changes_nothing() {
    let mut registry = NFTMergeContract::new();
    mint(&mut registry, "alice", "A", 1);
    let refused = registry.mint_nft(denied(5), who("alice"), "B".to_string(), Vec::new(), 2);
    assert_eq!(refused, Err(Error::Unauthorized));
    assert_eq!(registry.counter(Namespace::Asset), 1);
    assert_eq!(registry.owner_nfts(&who("alice")), vec![1]);
    assert_eq!(registry.view_nft(2), Err(Error::NotFound(Namespace::Asset)));
}

#[test]
fn mint_with_exhausted_counter_is_refused() {
    let mut registry = NFTMergeContract::resume(u64::MAX, 3);
    let refused = registry.mint_nft(granted(5), who("alice"), "B".to_string(), Vec::new(), 2);
    assert_eq!(refused, Err(Error::CounterExhausted(Namespace::Asset)));
    assert_eq!(registry.counter(Namespace::Asset), u64::MAX);
    assert_eq!(registry.owner_nfts(&who("alice")), Vec::<u64>::new());
    assert!(!registry.has(&DataKey::OwnerNFTs(who("alice"))));
}

#[test]
fn mint_issues_the_largest_identifier_last() {
    let mut registry = NFTMergeContract::resume(u64::MAX - 1, 0);
    let id = registry.mint_nft(granted(5), who("alice"), "B".to_string(), Vec::new(), 2);
    assert_eq!(id, Ok(u64::MAX));
    let again = registry.mint_nft(granted(5), who("alice"), "C".to_string(), Vec::new(), 2);
    assert_eq!(again, Err(Error::CounterExhausted(Namespace::Asset)));
}

#[test]
fn create_recipe_ids_are_independent_of_asset_ids() {
    let mut registry = NFTMergeContract::new();
    mint(&mut registry, "alice", "A", 1);
    mint(&mut registry, "alice", "B", 1);
    assert_eq!(recipe(&mut registry, 2, "Blade", 1), 1);
    assert_eq!(recipe(&mut registry, 3, "Axe", 0), 2);
    assert_eq!(mint(&mut registry, "alice", "C", 1), 3);
    assert_eq!(registry.counter(Namespace::Asset), 3);
    assert_eq!(registry.counter(Namespace::Recipe), 2);
}

#[test]
fn created_recipe_is_stored_as_given() {
    let mut registry = NFTMergeContract::new();
    let id = registry
        .create_recipe(
            granted(9),
            who("admin"),
            strings(&["Sword", "Shield"]),
            "Knight".to_string(),
            strings(&["armoured"]),
            4,
        )
        .unwrap();
    let stored = registry.view_recipe(id).unwrap();
    assert_eq!(stored.id, 1);
    assert_eq!(stored.required_nft_types, strings(&["Sword", "Shield"]));
    assert_eq!(stored.required_input_count(), 2);
    assert_eq!(stored.result_name, "Knight");
    assert_eq!(stored.result_attributes, strings(&["armoured"]));
    assert_eq!(stored.level_bonus, 4);
}

#[test]
fn create_recipe_denied_is_unauthorized_and_changes_nothing() {
    let mut registry = NFTMergeContract::new();
    let refused = registry.create_recipe(
        denied(9),
        who("admin"),
        strings(&["a", "b"]),
        "Knight".to_string(),
        Vec::new(),
        4,
    );
    assert_eq!(refused, Err(Error::Unauthorized));
    assert_eq!(registry.counter(Namespace::Recipe), 0);
    assert_eq!(registry.view_recipe(1), Err(Error::NotFound(Namespace::Recipe)));
}

#[test]
fn create_recipe_with_exhausted_counter_is_refused() {
    let mut registry = NFTMergeContract::resume(0, u64::MAX);
    let refused = registry.create_recipe(
        granted(9),
        who("admin"),
        strings(&["a", "b"]),
        "Knight".to_string(),
        Vec::new(),
        4,
    );
    assert_eq!(refused, Err(Error::CounterExhausted(Namespace::Recipe)));
    assert_eq!(registry.counter(Namespace::Recipe), u64::MAX);
    assert_eq!(mint(&mut registry, "alice", "A", 1), 1);
}

#[test]
fn view_of_missing_id_is_not_found() {
    let mut registry = NFTMergeContract::new();
    assert_eq!(registry.view_nft(0), Err(Error::NotFound(Namespace::Asset)));
    assert_eq!(registry.view_nft(1), Err(Error::NotFound(Namespace::Asset)));
    mint(&mut registry, "alice", "A", 1);
    assert!(registry.view_nft(1).is_ok());
    assert_eq!(registry.view_nft(0), Err(Error::NotFound(Namespace::Asset)));
    assert_eq!(registry.view_nft(2), Err(Error::NotFound(Namespace::Asset)));
    assert_eq!(registry.view_nft(u64::MAX), Err(Error::NotFound(Namespace::Asset)));
}

#[test]
fn key_space_reports_what_is_persisted() {
    let mut registry = NFTMergeContract::new();
    assert!(!registry.has(&DataKey::NFTCounter));
    assert!(!registry.has(&DataKey::RecipeCounter));
    assert!(!registry.has(&DataKey::NFT(1)));
    assert!(!registry.has(&DataKey::Recipe(1)));
    assert!(!registry.has(&DataKey::OwnerNFTs(who("alice"))));
    let a = mint(&mut registry, "alice", "A", 1);
    let b = mint(&mut registry, "alice", "B", 1);
    assert!(registry.has(&DataKey::NFTCounter));
    assert!(!registry.has(&DataKey::RecipeCounter));
    assert!(registry.has(&DataKey::NFT(a)));
    assert!(registry.has(&DataKey::OwnerNFTs(who("alice"))));
    assert!(!registry.has(&DataKey::OwnerNFTs(who("bob"))));
    let r = recipe(&mut registry, 2, "Blade", 0);
    assert!(registry.has(&DataKey::RecipeCounter));
    assert!(registry.has(&DataKey::Recipe(r)));
    let merged = registry.merge_nfts(granted(1), who("alice"), vec![a, b], r).unwrap();
    assert!(!registry.has(&DataKey::NFT(a)));
    assert!(!registry.has(&DataKey::NFT(b)));
    assert!(registry.has(&DataKey::NFT(merged)));
    assert!(registry.has(&DataKey::OwnerNFTs(who("alice"))));
}

#[test]
fn restore_rebuilds_a_registry_from_its_records() {
    let mut source = NFTMergeContract::new();
    let a = mint(&mut source, "alice", "A", 3);
    let b = mint(&mut source, "bob", "B", 4);
    let c = mint(&mut source, "alice", "C", 5);
    let r = recipe(&mut source, 2, "Blade", 2);

    let mut copy = NFTMergeContract::resume(
        source.counter(Namespace::Asset),
        source.counter(Namespace::Recipe),
    );
    for id in [a, b, c] {
        assert_eq!(copy.restore_nft(source.view_nft(id).unwrap()), Ok(()));
    }
    assert_eq!(copy.restore_recipe(source.view_recipe(r).unwrap()), Ok(()));

    assert_eq!(copy.owner_nfts(&who("alice")), vec![a, c]);
    assert_eq!(copy.owner_nfts(&who("bob")), vec![b]);
    assert_eq!(copy.view_nft(c), source.view_nft(c));
    let merged = copy.merge_nfts(granted(7), who("alice"), vec![a, c], r);
    assert_eq!(merged, Ok(4));
    assert_eq!(copy.view_nft(4).unwrap().level, 6);
}

#[test]
fn restore_refuses_records_that_break_the_invariant() {
    let mut source = NFTMergeContract::new();
    let a = mint(&mut source, "alice", "A", 3);
    let b = mint(&mut source, "alice", "B", 3);
    let r = recipe(&mut source, 2, "Blade", 2);

    let mut copy = NFTMergeContract::resume(1, 0);
    assert_eq!(copy.restore_nft(source.view_nft(a).unwrap()), Ok(()));
    assert_eq!(
        copy.restore_nft(source.view_nft(a).unwrap()),
        Err(Error::ConsistencyViolation)
    );
    assert_eq!(
        copy.restore_nft(source.view_nft(b).unwrap()),
        Err(Error::ConsistencyViolation)
    );
    assert_eq!(
        copy.restore_recipe(source.view_recipe(r).unwrap()),
        Err(Error::ConsistencyViolation)
    );
    assert_eq!(copy.owner_nfts(&who("alice")), vec![a]);
    assert_eq!(copy.view_nft(b), Err(Error::NotFound(Namespace::Asset)));

    let mut zero = source.view_nft(a).unwrap();
    zero.id = 0;
    assert_eq!(copy.restore_nft(zero), Err(Error::ConsistencyViolation));
}
