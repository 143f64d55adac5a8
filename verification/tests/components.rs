use nft_merge::lists::all_distinct;
use nft_merge::{
    AssetStore, Error, IdAllocator, Identity, MergeRecipe, Namespace, OwnerIndex, RecipeStore, NFT,
};

fn owner(key: &str) -> Identity {
    Identity::new(key.to_string())
}

fn asset(id: u64, holder: &str, level: u32) -> NFT {
    NFT {
        id,
        owner: owner(holder),
        name: "Gem".to_string(),
        attributes: vec!["bright".to_string()],
        level,
        created_at: 42,
    }
}

fn rule(id: u64, count: usize) -> MergeRecipe {
    MergeRecipe {
        id,
        required_nft_types: (0..count).map(|i| format!("t{}", i)).collect(),
        result_name: "Crown".to_string(),
        result_attributes: Vec::new(),
        level_bonus: 1,
    }
}

#[test]
fn allocator_counts_each_namespace_from_one() {
    let mut ids = IdAllocator::new();
    assert_eq!(ids.last_issued(Namespace::Asset), 0);
    assert_eq!(ids.allocate(Namespace::Asset), Ok(1));
    assert_eq!(ids.allocate(Namespace::Asset), Ok(2));
    assert_eq!(ids.allocate(Namespace::Recipe), Ok(1));
    assert_eq!(ids.allocate(Namespace::Asset), Ok(3));
    assert_eq!(ids.last_issued(Namespace::Asset), 3);
    assert_eq!(ids.last_issued(Namespace::Recipe), 1);
}

#[test]
fn allocator_stops_at_the_largest_identifier() {
    let mut ids = IdAllocator::resume(u64::MAX - 1, u64::MAX);
    assert_eq!(ids.allocate(Namespace::Asset), Ok(u64::MAX));
    assert_eq!(ids.allocate(Namespace::Asset), Err(Error::CounterExhausted(Namespace::Asset)));
    assert_eq!(ids.allocate(Namespace::Recipe), Err(Error::CounterExhausted(Namespace::Recipe)));
    assert_eq!(ids.last_issued(Namespace::Asset), u64::MAX);
    assert_eq!(ids.last_issued(Namespace::Recipe), u64::MAX);
}

#[test]
fn asset_store_creates_reads_and_deletes() {
    let mut store = AssetStore::new();
    assert!(!store.contains(1));
    assert_eq!(store.get(1), Err(Error::NotFound(Namespace::Asset)));
    assert_eq!(store.create(asset(1, "alice", 3)), Ok(()));
    assert!(store.contains(1));
    assert_eq!(store.get(1), Ok(&asset(1, "alice", 3)));
    assert_eq!(store.delete(1), Ok(()));
    assert!(!store.contains(1));
    assert_eq!(store.get(1), Err(Error::NotFound(Namespace::Asset)));
}

#[test]
fn asset_store_refuses_a_taken_identifier() {
    let mut store = AssetStore::new();
    assert_eq!(store.create(asset(1, "alice", 3)), Ok(()));
    assert_eq!(store.create(asset(1, "bob", 9)), Err(Error::ConsistencyViolation));
    assert_eq!(store.get(1), Ok(&asset(1, "alice", 3)));
}

#[test]
fn asset_store_delete_is_not_idempotent() {
    let mut store = AssetStore::new();
    assert_eq!(store.delete(5), Err(Error::NotFound(Namespace::Asset)));
    assert_eq!(store.create(asset(5, "alice", 3)), Ok(()));
    assert_eq!(store.create(asset(6, "alice", 3)), Ok(()));
    assert_eq!(store.delete(5), Ok(()));
    assert_eq!(store.delete(5), Err(Error::NotFound(Namespace::Asset)));
    assert!(store.contains(6));
}

#[test]
fn recipe_store_creates_and_reads() {
    let mut store = RecipeStore::new();
    assert_eq!(store.get(1), Err(Error::NotFound(Namespace::Recipe)));
    assert_eq!(store.create(rule(1, 2)), Ok(()));
    assert!(store.contains(1));
    assert!(!store.contains(2));
    assert_eq!(store.get(1), Ok(&rule(1, 2)));
    assert_eq!(store.get(1).unwrap().required_input_count(), 2);
    assert_eq!(store.create(rule(1, 5)), Err(Error::ConsistencyViolation));
    assert_eq!(store.get(1), Ok(&rule(1, 2)));
}

#[test]
fn owner_index_adds_lists_and_removes() {
    let mut index = OwnerIndex::new();
    assert!(!index.has_owner(&owner("alice")));
    assert_eq!(index.list(&owner("alice")), Vec::<u64>::new());
    assert_eq!(index.add(&owner("alice"), 1), Ok(()));
    assert_eq!(index.add(&owner("bob"), 2), Ok(()));
    assert_eq!(index.add(&owner("alice"), 3), Ok(()));
    assert_eq!(index.add(&owner("alice"), 4), Ok(()));
    assert_eq!(index.list(&owner("alice")), vec![1, 3, 4]);
    assert_eq!(index.list(&owner("bob")), vec![2]);
    assert!(index.lists(&owner("alice"), 3));
    assert!(!index.lists(&owner("bob"), 3));
    assert_eq!(index.remove(&owner("alice"), 3), Ok(()));
    assert_eq!(index.list(&owner("alice")), vec![1, 4]);
    assert_eq!(index.list(&owner("bob")), vec![2]);
    assert!(!index.lists(&owner("alice"), 3));
}

#[test]
fn owner_index_refuses_a_listed_identifier() {
    let mut index = OwnerIndex::new();
    assert_eq!(index.add(&owner("alice"), 1), Ok(()));
    assert_eq!(index.add(&owner("alice"), 1), Err(Error::ConsistencyViolation));
    assert_eq!(index.list(&owner("alice")), vec![1]);
}

#[test]
fn owner_index_remove_of_an_absent_identifier_is_not_found() {
    let mut index = OwnerIndex::new();
    assert_eq!(index.remove(&owner("alice"), 1), Err(Error::NotFound(Namespace::Asset)));
    assert!(!index.has_owner(&owner("alice")));
    assert_eq!(index.add(&owner("alice"), 1), Ok(()));
    assert_eq!(index.remove(&owner("alice"), 2), Err(Error::NotFound(Namespace::Asset)));
    assert_eq!(index.remove(&owner("bob"), 1), Err(Error::NotFound(Namespace::Asset)));
    assert_eq!(index.list(&owner("alice")), vec![1]);
}

#[test]
fn owner_index_keeps_an_emptied_entry() {
    let mut index = OwnerIndex::new();
    assert_eq!(index.add(&owner("alice"), 1), Ok(()));
    assert_eq!(index.remove(&owner("alice"), 1), Ok(()));
    assert!(index.has_owner(&owner("alice")));
    assert_eq!(index.list(&owner("alice")), Vec::<u64>::new());
}

#[test]
fn identities_are_the_same_when_their_keys_are() {
    assert!(owner("alice").same_as(&owner("alice")));
    assert!(!owner("alice").same_as(&owner("alicf")));
    assert!(!owner("alice").same_as(&owner("")));
    assert!(owner("").same_as(&owner("")));
    let copy = owner("alice").clone();
    assert!(copy.same_as(&owner("alice")));
}

#[test]
fn records_are_copied_field_by_field() {
    let first = asset(7, "alice", 3);
    let copy = first.clone();
    assert_eq!(copy, first);
    let recipe = rule(2, 3);
    assert_eq!(recipe.clone(), recipe);
}

#[test]
fn all_distinct_finds_a_repeated_identifier() {
    assert!(all_distinct(&Vec::new()));
    assert!(all_distinct(&vec![7]));
    assert!(all_distinct(&vec![1, 2, 3, 4]));
    assert!(!all_distinct(&vec![1, 1]));
    assert!(!all_distinct(&vec![1, 2, 3, 1]));
    assert!(!all_distinct(&vec![1, 2, 2, 3]));
    assert!(!all_distinct(&vec![1, 2, 3, 3]));
    assert!(all_distinct(&vec![u64::MAX, 0, 1]));
}
