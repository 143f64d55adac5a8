use vstd::prelude::*;
use crate::allocator::IdAllocator;
use crate::env::{Authorization, Env};
use crate::error::{Error, Namespace};
use crate::identity::Identity;
use crate::level::merge_level;
use crate::lists::{
    all_distinct, lemma_without_contains, lemma_without_nothing, lemma_without_step,
};
use crate::model::State;
use crate::owners::OwnerIndex;
use crate::record::{clone_texts, texts, AssetView, DataKey, MergeRecipe, NFT};
use crate::store::{AssetStore, RecipeStore};
use crate::wellformed::{
    lemma_advanced_wf, lemma_burned_wf, lemma_first_fault, lemma_holding_asset_wf,
    lemma_holding_recipe_wf, lemma_listed_is_issued,
};

verus! {

/// The registry of assets and merge recipes.
///
/// Every operation either succeeds and has its whole effect, or fails and
/// leaves the registry exactly as it was. Operations that change the registry
/// take it by exclusive reference, so no two of them interleave: they happen
/// one after the other, each on the registry that the one before left.
pub struct NFTMergeContract {
    ids: IdAllocator,
    assets: AssetStore,
    recipes: RecipeStore,
    owners: OwnerIndex,
}

impl View for NFTMergeContract {
    type V = State;

    closed spec fn view(&self) -> State {
        State {
            nft_counter: self.ids.last(Namespace::Asset),
            recipe_counter: self.ids.last(Namespace::Recipe),
            nfts: self.assets@,
            recipes: self.recipes@,
            owner_nfts: self.owners@,
        }
    }
}

impl NFTMergeContract {
    /// The invariant of the representation.
    pub closed spec fn inv(self) -> bool {
        self.owners.wf()
    }

    /// The invariant of the registry: identifiers are unique and were issued
    /// by the counters, and the owner index agrees with the asset records.
    pub open spec fn wf(self) -> bool {
        self.inv() && self@.wf()
    }

    /// An empty registry.
    pub fn new() -> (registry: Self)
        ensures
            registry.wf(),
            registry@ == State::init(),
    {
        let registry = NFTMergeContract {
            ids: IdAllocator::new(),
            assets: AssetStore::new(),
            recipes: RecipeStore::new(),
            owners: OwnerIndex::new(),
        };
        assert(registry@ =~= State::init());
        registry
    }

    /// A registry without records that goes on after the given last
    /// identifiers.
    pub fn resume(nft_counter: u64, recipe_counter: u64) -> (registry: Self)
        ensures
            registry.wf(),
            registry@ == State::resumed(nft_counter, recipe_counter),
    {
        let registry = NFTMergeContract {
            ids: IdAllocator::resume(nft_counter, recipe_counter),
            assets: AssetStore::new(),
            recipes: RecipeStore::new(),
            owners: OwnerIndex::new(),
        };
        assert(registry@ =~= State::resumed(nft_counter, recipe_counter));
        registry
    }

    /// Enters an asset record that exists already, as when the registry is
    /// read back from where it was kept: stores it under its identifier and
    /// puts that at the end of its owner's list. A record whose identifier was
    /// never issued, or is in use, is a consistency violation and changes
    /// nothing.
    pub fn restore_nft(&mut self, asset: NFT) -> (done: Result<(), Error>)
        requires
            old(self).wf(),
        ensures
            final(self).wf(),
            done == if old(self)@.admits_asset(asset@) {
                Ok::<(), Error>(())
            } else {
                Err::<(), Error>(Error::ConsistencyViolation)
            },
            final(self)@ == if done is Ok {
                old(self)@.holding_asset(asset@)
            } else {
                old(self)@
            },
    {
        let ghost before = self@;
        let id = asset.id;
        if id < 1 || id > self.ids.last_issued(Namespace::Asset) || self.assets.contains(id) {
            return Err(Error::ConsistencyViolation);
        }
        proof {
            lemma_holding_asset_wf(before, asset@);
            if before.list(asset.owner@).contains(id) {
                lemma_listed_is_issued(before, asset.owner@, id);
            }
        }
        match self.owners.add(&asset.owner, id) {
            Ok(()) => {},
            Err(error) => {
                return Err(error);
            },
        }
        match self.assets.create(asset) {
            Ok(()) => {},
            Err(error) => {
                return Err(error);
            },
        }
        assert(self@ =~= before.holding_asset(asset@));
        Ok(())
    }

    /// Enters a recipe record that exists already. A record whose identifier
    /// was never issued, or is in use, is a consistency violation and changes
    /// nothing.
    pub fn restore_recipe(&mut self, recipe: MergeRecipe) -> (done: Result<(), Error>)
        requires
            old(self).wf(),
        ensures
            final(self).wf(),
            done == if old(self)@.admits_recipe(recipe@) {
                Ok::<(), Error>(())
            } else {
                Err::<(), Error>(Error::ConsistencyViolation)
            },
            final(self)@ == if done is Ok {
                old(self)@.holding_recipe(recipe@)
            } else {
                old(self)@
            },
    {
        let ghost before = self@;
        let id = recipe.id;
        if id < 1 || id > self.ids.last_issued(Namespace::Recipe) || self.recipes.contains(id) {
            return Err(Error::ConsistencyViolation);
        }
        proof {
            lemma_holding_recipe_wf(before, recipe@);
        }
        match self.recipes.create(recipe) {
            Ok(()) => {},
            Err(error) => {
                return Err(error);
            },
        }
        assert(self@ =~= before.holding_recipe(recipe@));
        Ok(())
    }

    /// Creates an asset for `owner` once the caller's check has passed.
    fn mint(
        &mut self,
        owner: Identity,
        name: String,
        attributes: Vec<String>,
        level: u32,
        now: u64,
    ) -> (minted: Result<u64, Error>)
        requires
            old(self).wf(),
        ensures
            final(self).wf(),
            minted == old(self)@.mint_result(Authorization::Granted),
            final(self)@ == old(self)@.after_mint(
                Authorization::Granted,
                owner@,
                name@,
                texts(attributes@),
                level,
                now,
            ),
    {
        let ghost before = self@;
        let id = match self.ids.allocate(Namespace::Asset) {
            Ok(id) => id,
            Err(error) => {
                assert(self@ =~= before);
                return Err(error);
            },
        };
        proof {
            lemma_advanced_wf(before, id, before.recipe_counter);
            assert(self@ =~= State { nft_counter: id, ..before });
        }
        let asset = NFT { id, owner, name, attributes, level, created_at: now };
        match self.restore_nft(asset) {
            Ok(()) => Ok(id),
            Err(error) => Err(error),
        }
    }

    /// Destroys the assets `ids`, all of them `owner`'s and none named twice:
    /// removes each record and its entry in the owner's list.
    fn burn(&mut self, owner: &Identity, ids: &Vec<u64>)
        requires
            old(self).wf(),
            old(self)@.owns_all(owner@, ids@),
            old(self)@.owner_nfts.contains_key(owner@),
            ids@.no_duplicates(),
        ensures
            final(self).wf(),
            final(self)@ == old(self)@.burned(owner@, ids@),
    {
        let ghost start = self@;
        let ghost list = start.list(owner@);
        proof {
            lemma_without_nothing(list);
            assert(ids@.take(0).to_set() =~= Set::<u64>::empty());
            assert(start.nfts.remove_keys(ids@.take(0).to_set()) =~= start.nfts);
            assert(start.owner_nfts.insert(owner@, list) =~= start.owner_nfts);
            assert(ids@.take(0) =~= Seq::<u64>::empty());
            assert(start.burned(owner@, ids@.take(0)) =~= start);
        }
        let mut i: usize = 0;
        while i < ids.len()
            invariant
                i <= ids@.len(),
                self.inv(),
                start.wf(),
                start.owns_all(owner@, ids@),
                start.owner_nfts.contains_key(owner@),
                ids@.no_duplicates(),
                list == start.list(owner@),
                self@ == start.burned(owner@, ids@.take(i as int)),
            decreases ids@.len() - i,
        {
            let id = ids[i];
            let ghost done = ids@.take(i as int);
            let ghost next = ids@.take(i + 1);
            proof {
                assert(next =~= done.push(id));
                assert(start.owns(owner@, ids@[i as int]));
                assert(list.contains(id));
                assert forall|x: u64| next.contains(x) <==> done.contains(x) || x == id by {
                    if done.contains(x) {
                        let j = choose|j: int| 0 <= j < done.len() && done[j] == x;
                        assert(next[j] == x);
                    }
                    if x == id {
                        assert(next[i as int] == x);
                    }
                    if next.contains(x) {
                        let j = choose|j: int| 0 <= j < next.len() && next[j] == x;
                        if j < i {
                            assert(done[j] == x);
                        }
                    }
                }
                assert(next.to_set() =~= done.to_set().insert(id));
                assert(!done.contains(id)) by {
                    if done.contains(id) {
                        let j = choose|j: int| 0 <= j < done.len() && done[j] == id;
                        assert(ids@[j] == ids@[i as int]);
                    }
                }
                lemma_without_contains(list, done, id);
                lemma_without_step(list, done, id);
            }
            // Neither removal can fail: no earlier step took this asset, and
            // what exists is listed for its owner.
            match self.assets.delete(id) {
                Ok(()) => {},
                Err(_) => {},
            }
            match self.owners.remove(owner, id) {
                Ok(()) => {},
                Err(_) => {},
            }
            proof {
                assert(self@.nfts =~= start.nfts.remove_keys(next.to_set()));
                assert(self@.owner_nfts =~= start.burned(owner@, next).owner_nfts);
                assert(self@ =~= start.burned(owner@, next));
            }
            i += 1;
        }
        proof {
            assert(ids@.take(ids@.len() as int) =~= ids@);
            lemma_burned_wf(start, owner@, ids@);
        }
    }

    /// Mints an asset for `owner` with the given name, attributes and level,
    /// stamped with the environment's time, and returns its identifier: one
    /// more than the last one issued. Any name, attributes and level are
    /// accepted. A denied caller, or an exhausted counter, changes nothing.
    pub fn mint_nft(
        &mut self,
        env: Env,
        owner: Identity,
        name: String,
        attributes: Vec<String>,
        level: u32,
    ) -> (minted: Result<u64, Error>)
        requires
            old(self).wf(),
        ensures
            final(self).wf(),
            minted == old(self)@.mint_result(env.authorization),
            final(self)@ == old(self)@.after_mint(
                env.authorization,
                owner@,
                name@,
                texts(attributes@),
                level,
                env.timestamp,
            ),
    {
        match env.authorization {
            Authorization::Denied => Err(Error::Unauthorized),
            Authorization::Granted => self.mint(owner, name, attributes, level, env.timestamp),
        }
    }

    /// Publishes a merge recipe and returns its identifier: one more than the
    /// last one issued to a recipe. The recipe requires as many inputs as
    /// `required_nft_types` has entries. `admin` is the identity that the
    /// caller was checked against; no role is asked of it. A denied caller, or
    /// an exhausted counter, changes nothing.
    pub fn create_recipe(
        &mut self,
        env: Env,
        admin: Identity,
        required_nft_types: Vec<String>,
        result_name: String,
        result_attributes: Vec<String>,
        level_bonus: u32,
    ) -> (created: Result<u64, Error>)
        requires
            old(self).wf(),
        ensures
            final(self).wf(),
            created == old(self)@.recipe_result(env.authorization),
            final(self)@ == old(self)@.after_recipe(
                env.authorization,
                texts(required_nft_types@),
                result_name@,
                texts(result_attributes@),
                level_bonus,
            ),
    {
        let ghost before = self@;
        match env.authorization {
            Authorization::Denied => {
                return Err(Error::Unauthorized);
            },
            Authorization::Granted => {},
        }
        let id = match self.ids.allocate(Namespace::Recipe) {
            Ok(id) => id,
            Err(error) => {
                assert(self@ =~= before);
                return Err(error);
            },
        };
        proof {
            lemma_advanced_wf(before, before.nft_counter, id);
            assert(self@ =~= State { recipe_counter: id, ..before });
        }
        let recipe = MergeRecipe {
            id,
            required_nft_types,
            result_name,
            result_attributes,
            level_bonus,
        };
        match self.restore_recipe(recipe) {
            Ok(()) => Ok(id),
            Err(error) => Err(error),
        }
    }

    /// Merges the assets `nft_ids` of `owner` under recipe `recipe_id` into one
    /// new asset and returns its identifier.
    ///
    /// Everything is checked before anything is written, in this order: the
    /// caller's authorization; that there are at least two inputs; that the
    /// recipe exists; for each input in turn, that it exists and is `owner`'s;
    /// that there are as many inputs as the recipe requires; that no input is
    /// named twice; that the new level fits in 32 bits; that an identifier is
    /// left. On success the new asset is `owner`'s, has the recipe's result
    /// name and attributes and the average level of the inputs, rounded toward
    /// zero, plus the recipe's bonus; the inputs are gone from the records and
    /// from `owner`'s list. An asset is consumed once: an input that is named
    /// twice is not found the second time, and the merge is refused.
    pub fn merge_nfts(
        &mut self,
        env: Env,
        owner: Identity,
        nft_ids: Vec<u64>,
        recipe_id: u64,
    ) -> (merged: Result<u64, Error>)
        requires
            old(self).wf(),
        ensures
            final(self).wf(),
            merged == old(self)@.merge_result(owner@, nft_ids@, recipe_id, env.authorization),
            final(self)@ == old(self)@.after_merge(
                owner@,
                nft_ids@,
                recipe_id,
                env.authorization,
                env.timestamp,
            ),
    {
        let ghost before = self@;
        match env.authorization {
            Authorization::Denied => {
                return Err(Error::Unauthorized);
            },
            Authorization::Granted => {},
        }
        if nft_ids.len() < 2 {
            return Err(Error::InsufficientInputs);
        }
        let recipe = match self.recipes.get(recipe_id) {
            Ok(recipe) => recipe,
            Err(error) => {
                return Err(error);
            },
        };
        let mut levels: Vec<u32> = Vec::new();
        let mut i: usize = 0;
        while i < nft_ids.len()
            invariant
                i <= nft_ids@.len(),
                nft_ids@.len() >= 2,
                env.authorization == Authorization::Granted,
                self.wf(),
                self@ == before,
                before.recipes.contains_key(recipe_id),
                recipe@ == before.recipes[recipe_id],
                before.owns_all(owner@, nft_ids@.take(i as int)),
                levels@ == before.levels(nft_ids@.take(i as int)),
            decreases nft_ids@.len() - i,
        {
            let asset = match self.assets.get(nft_ids[i]) {
                Ok(asset) => asset,
                Err(error) => {
                    proof {
                        lemma_first_fault(before, owner@, nft_ids@, i as int);
                    }
                    return Err(error);
                },
            };
            if !asset.owner.same_as(&owner) {
                proof {
                    lemma_first_fault(before, owner@, nft_ids@, i as int);
                }
                return Err(Error::NotOwner);
            }
            levels.push(asset.level);
            proof {
                let done = nft_ids@.take(i as int);
                let next = nft_ids@.take(i + 1);
                assert(next =~= done.push(nft_ids@[i as int]));
                assert forall|j: int| 0 <= j < next.len() implies before.owns(
                    owner@,
                    #[trigger] next[j],
                ) by {
                    if j < i {
                        assert(before.owns(owner@, done[j]));
                    }
                }
                assert(levels@ =~= before.levels(next));
            }
            i += 1;
        }
        assert(nft_ids@.take(nft_ids@.len() as int) =~= nft_ids@);
        if nft_ids.len() != recipe.required_input_count() {
            return Err(Error::RecipeMismatch);
        }
        if !all_distinct(&nft_ids) {
            return Err(Error::NotFound(Namespace::Asset));
        }
        let level = match merge_level(&levels, recipe.level_bonus) {
            Some(level) => level,
            None => {
                return Err(Error::LevelOverflow);
            },
        };
        let name = recipe.result_name.clone();
        let attributes = clone_texts(&recipe.result_attributes);
        let new_id = match self.mint(owner.clone(), name, attributes, level, env.timestamp) {
            Ok(id) => id,
            Err(error) => {
                return Err(error);
            },
        };
        proof {
            let minted = self@;
            assert forall|j: int| 0 <= j < nft_ids@.len() implies minted.owns(
                owner@,
                #[trigger] nft_ids@[j],
            ) by {
                assert(before.owns(owner@, nft_ids@[j]));
            }
        }
        self.burn(&owner, &nft_ids);
        Ok(new_id)
    }

    /// The asset with the given identifier.
    pub fn view_nft(&self, nft_id: u64) -> (found: Result<NFT, Error>)
        ensures
            match found {
                Ok(asset) => self@.view_result(nft_id) == Ok::<AssetView, Error>(asset@),
                Err(error) => self@.view_result(nft_id) == Err::<AssetView, Error>(error),
            },
    {
        match self.assets.get(nft_id) {
            Ok(asset) => Ok(asset.clone()),
            Err(error) => Err(error),
        }
    }

    /// The recipe with the given identifier.
    pub fn view_recipe(&self, recipe_id: u64) -> (found: Result<MergeRecipe, Error>)
        ensures
            match found {
                Ok(recipe) => self@.recipes.contains_key(recipe_id) && recipe@
                    == self@.recipes[recipe_id],
                Err(error) => !self@.recipes.contains_key(recipe_id) && error == Error::NotFound(
                    Namespace::Recipe,
                ),
            },
    {
        match self.recipes.get(recipe_id) {
            Ok(recipe) => Ok(recipe.clone()),
            Err(error) => Err(error),
        }
    }

    /// The identifiers of the assets that `owner` holds, oldest first.
    pub fn owner_nfts(&self, owner: &Identity) -> (ids: Vec<u64>)
        requires
            self.wf(),
        ensures
            ids@ == self@.list(owner@),
    {
        self.owners.list(owner)
    }

    /// The identifier that was issued last in `namespace`, 0 if none was.
    pub fn counter(&self, namespace: Namespace) -> (id: u64)
        ensures
            id == self@.counter(namespace),
    {
        self.ids.last_issued(namespace)
    }

    /// Whether a persisted record exists under `key`.
    pub fn has(&self, key: &DataKey) -> (found: bool)
        requires
            self.wf(),
        ensures
            found == self@.has_record(*key),
    {
        match key {
            DataKey::NFT(id) => self.assets.contains(*id),
            DataKey::NFTCounter => self.ids.last_issued(Namespace::Asset) > 0,
            DataKey::Recipe(id) => self.recipes.contains(*id),
            DataKey::RecipeCounter => self.ids.last_issued(Namespace::Recipe) > 0,
            DataKey::OwnerNFTs(owner) => self.owners.has_owner(owner),
        }
    }
}

} // verus!
