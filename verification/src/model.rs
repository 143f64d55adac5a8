use vstd::prelude::*;
use crate::env::Authorization;
use crate::error::{Error, Namespace};
use crate::level::merged_level;
use crate::record::{AssetView, DataKey, RecipeView};

verus! {

/// The list that is left of `list` once every identifier in `gone` has been
/// taken out of it; the order of the others is kept.
pub open spec fn without(list: Seq<u64>, gone: Seq<u64>) -> Seq<u64> {
    list.filter(|id: u64| !gone.contains(id))
}

/// The identifiers that an owner index lists for `owner`, oldest first; empty
/// for an owner without an entry.
pub open spec fn listed(index: Map<Seq<char>, Seq<u64>>, owner: Seq<char>) -> Seq<u64> {
    if index.contains_key(owner) {
        index[owner]
    } else {
        Seq::empty()
    }
}

/// The registry as a mathematical value: both counters, the asset and recipe
/// records by identifier, and the list of asset identifiers held by each
/// owner that has an entry in the owner index.
#[verifier::ext_equal]
pub struct State {
    pub nft_counter: u64,
    pub recipe_counter: u64,
    pub nfts: Map<u64, AssetView>,
    pub recipes: Map<u64, RecipeView>,
    pub owner_nfts: Map<Seq<char>, Seq<u64>>,
}

impl State {
    /// The registry before anything has happened.
    pub open spec fn init() -> State {
        State {
            nft_counter: 0,
            recipe_counter: 0,
            nfts: Map::empty(),
            recipes: Map::empty(),
            owner_nfts: Map::empty(),
        }
    }

    /// A registry without records whose counters stand at the given values.
    pub open spec fn resumed(nft_counter: u64, recipe_counter: u64) -> State {
        State { nft_counter, recipe_counter, ..State::init() }
    }

    /// The identifier that was issued last in a namespace, 0 if none was.
    pub open spec fn counter(self, namespace: Namespace) -> u64 {
        match namespace {
            Namespace::Asset => self.nft_counter,
            Namespace::Recipe => self.recipe_counter,
        }
    }

    /// The asset identifiers that the owner index lists for `owner`, oldest
    /// first; empty for an owner without an entry.
    pub open spec fn list(self, owner: Seq<char>) -> Seq<u64> {
        listed(self.owner_nfts, owner)
    }

    /// Whether a persisted record exists under `key`. A counter has a record
    /// once it has issued an identifier; an owner has a list once an asset
    /// was minted for it, and keeps it when the list becomes empty.
    pub open spec fn has_record(self, key: DataKey) -> bool {
        match key {
            DataKey::NFT(id) => self.nfts.contains_key(id),
            DataKey::NFTCounter => self.nft_counter > 0,
            DataKey::Recipe(id) => self.recipes.contains_key(id),
            DataKey::RecipeCounter => self.recipe_counter > 0,
            DataKey::OwnerNFTs(owner) => self.owner_nfts.contains_key(owner@),
        }
    }

    /// Whether asset `id` exists and belongs to `owner`.
    pub open spec fn owns(self, owner: Seq<char>, id: u64) -> bool {
        self.nfts.contains_key(id) && self.nfts[id].owner == owner
    }

    /// Every record is stored under its own identifier, and no identifier
    /// exceeds the counter of its namespace.
    pub open spec fn records_wf(self) -> bool {
        &&& forall|id: u64| #[trigger]
            self.nfts.contains_key(id) ==> self.nfts[id].id == id && 1 <= id <= self.nft_counter
        &&& forall|id: u64| #[trigger]
            self.recipes.contains_key(id) ==> self.recipes[id].id == id && 1 <= id
                <= self.recipe_counter
    }

    /// The owner index and the asset records agree: what the index lists for
    /// an owner is, without repetition, exactly the assets whose owner that is.
    pub open spec fn index_wf(self) -> bool {
        &&& forall|owner: Seq<char>| #[trigger]
            self.owner_nfts.contains_key(owner) ==> self.owner_nfts[owner].no_duplicates()
        &&& forall|owner: Seq<char>, i: int|
            self.owner_nfts.contains_key(owner) && 0 <= i < self.owner_nfts[owner].len()
                ==> self.owns(owner, #[trigger] self.owner_nfts[owner][i])
        &&& forall|id: u64| #[trigger]
            self.nfts.contains_key(id) ==> self.list(self.nfts[id].owner).contains(id)
    }

    /// The invariant of the registry.
    pub open spec fn wf(self) -> bool {
        self.records_wf() && self.index_wf()
    }

    /// What a mint returns: the next asset identifier, unless the caller was
    /// denied or the asset counter cannot advance.
    pub open spec fn mint_result(self, authorization: Authorization) -> Result<u64, Error> {
        if authorization == Authorization::Denied {
            Err(Error::Unauthorized)
        } else if self.nft_counter == u64::MAX {
            Err(Error::CounterExhausted(Namespace::Asset))
        } else {
            Ok((self.nft_counter + 1) as u64)
        }
    }

    /// Whether the registry can take in `asset` as a record of its own: its
    /// identifier was issued and is not in use.
    pub open spec fn admits_asset(self, asset: AssetView) -> bool {
        1 <= asset.id <= self.nft_counter && !self.nfts.contains_key(asset.id)
    }

    /// The registry with `asset` entered: stored under its identifier, which
    /// is put at the end of its owner's list.
    pub open spec fn holding_asset(self, asset: AssetView) -> State {
        State {
            nfts: self.nfts.insert(asset.id, asset),
            owner_nfts: self.owner_nfts.insert(
                asset.owner,
                self.list(asset.owner).push(asset.id),
            ),
            ..self
        }
    }

    /// The registry after a mint that succeeded: the asset counter has
    /// advanced by one, the new asset is stored under the new identifier, and
    /// that identifier is at the end of its owner's list.
    pub open spec fn minted(
        self,
        owner: Seq<char>,
        name: Seq<char>,
        attributes: Seq<Seq<char>>,
        level: u32,
        now: u64,
    ) -> State {
        let id = (self.nft_counter + 1) as u64;
        State { nft_counter: id, ..self }.holding_asset(
            AssetView { id, owner, name, attributes, level, created_at: now },
        )
    }

    /// The registry after a mint was asked for: changed as a mint changes it
    /// if the mint succeeded, and untouched if it was refused.
    pub open spec fn after_mint(
        self,
        authorization: Authorization,
        owner: Seq<char>,
        name: Seq<char>,
        attributes: Seq<Seq<char>>,
        level: u32,
        now: u64,
    ) -> State {
        if self.mint_result(authorization) is Ok {
            self.minted(owner, name, attributes, level, now)
        } else {
            self
        }
    }

    /// What creating a recipe returns: the next recipe identifier, unless the
    /// caller was denied or the recipe counter cannot advance.
    pub open spec fn recipe_result(self, authorization: Authorization) -> Result<u64, Error> {
        if authorization == Authorization::Denied {
            Err(Error::Unauthorized)
        } else if self.recipe_counter == u64::MAX {
            Err(Error::CounterExhausted(Namespace::Recipe))
        } else {
            Ok((self.recipe_counter + 1) as u64)
        }
    }

    /// Whether the registry can take in `recipe` as a record of its own: its
    /// identifier was issued and is not in use.
    pub open spec fn admits_recipe(self, recipe: RecipeView) -> bool {
        1 <= recipe.id <= self.recipe_counter && !self.recipes.contains_key(recipe.id)
    }

    /// The registry with `recipe` entered under its identifier.
    pub open spec fn holding_recipe(self, recipe: RecipeView) -> State {
        State { recipes: self.recipes.insert(recipe.id, recipe), ..self }
    }

    /// The registry after a recipe was created: the recipe counter has
    /// advanced by one and the recipe is stored under the new identifier.
    pub open spec fn with_recipe(
        self,
        required_nft_types: Seq<Seq<char>>,
        result_name: Seq<char>,
        result_attributes: Seq<Seq<char>>,
        level_bonus: u32,
    ) -> State {
        let id = (self.recipe_counter + 1) as u64;
        State { recipe_counter: id, ..self }.holding_recipe(
            RecipeView { id, required_nft_types, result_name, result_attributes, level_bonus },
        )
    }

    /// The registry after a recipe was asked for: holding the recipe if that
    /// succeeded, and untouched if it was refused.
    pub open spec fn after_recipe(
        self,
        authorization: Authorization,
        required_nft_types: Seq<Seq<char>>,
        result_name: Seq<char>,
        result_attributes: Seq<Seq<char>>,
        level_bonus: u32,
    ) -> State {
        if self.recipe_result(authorization) is Ok {
            self.with_recipe(required_nft_types, result_name, result_attributes, level_bonus)
        } else {
            self
        }
    }

    /// What looking up asset `id` returns.
    pub open spec fn view_result(self, id: u64) -> Result<AssetView, Error> {
        if self.nfts.contains_key(id) {
            Ok(self.nfts[id])
        } else {
            Err(Error::NotFound(Namespace::Asset))
        }
    }

    /// Whether every one of `ids` exists and belongs to `caller`.
    pub open spec fn owns_all(self, caller: Seq<char>, ids: Seq<u64>) -> bool {
        forall|i: int| 0 <= i < ids.len() ==> self.owns(caller, #[trigger] ids[i])
    }

    /// Whether position `i` is the first in `ids` whose asset is missing or
    /// belongs to somebody else.
    pub open spec fn first_fault_at(self, caller: Seq<char>, ids: Seq<u64>, i: int) -> bool {
        &&& 0 <= i < ids.len()
        &&& !self.owns(caller, ids[i])
        &&& self.owns_all(caller, ids.take(i))
    }

    /// The error for the first of `ids` whose asset is missing or belongs to
    /// somebody else: a missing asset is reported as such, a foreign one as
    /// not owned.
    pub open spec fn input_error(self, caller: Seq<char>, ids: Seq<u64>) -> Error
        recommends
            !self.owns_all(caller, ids),
    {
        let i = choose|i: int| self.first_fault_at(caller, ids, i);
        if self.nfts.contains_key(ids[i]) {
            Error::NotOwner
        } else {
            Error::NotFound(Namespace::Asset)
        }
    }

    /// The levels of the assets `ids`, in the order given.
    pub open spec fn levels(self, ids: Seq<u64>) -> Seq<u32> {
        Seq::new(ids.len(), |i: int| self.nfts[ids[i]].level)
    }

    /// What a merge returns. The checks come in a fixed order and the first
    /// one that fails decides the error: authorization, the number of inputs,
    /// the recipe's existence, each input's existence and ownership in the
    /// order given, the recipe's input count, that no input is named twice,
    /// and last the two machine limits. An input that is named twice is not
    /// found the second time: an asset can be consumed only once. Only when
    /// all checks pass is a new identifier issued.
    pub open spec fn merge_result(
        self,
        caller: Seq<char>,
        ids: Seq<u64>,
        recipe_id: u64,
        authorization: Authorization,
    ) -> Result<u64, Error> {
        if authorization == Authorization::Denied {
            Err(Error::Unauthorized)
        } else if ids.len() < 2 {
            Err(Error::InsufficientInputs)
        } else if !self.recipes.contains_key(recipe_id) {
            Err(Error::NotFound(Namespace::Recipe))
        } else if !self.owns_all(caller, ids) {
            Err(self.input_error(caller, ids))
        } else if ids.len() != self.recipes[recipe_id].required_input_count() {
            Err(Error::RecipeMismatch)
        } else if !ids.no_duplicates() {
            Err(Error::NotFound(Namespace::Asset))
        } else if merged_level(self.levels(ids), self.recipes[recipe_id].level_bonus) > u32::MAX {
            Err(Error::LevelOverflow)
        } else if self.nft_counter == u64::MAX {
            Err(Error::CounterExhausted(Namespace::Asset))
        } else {
            Ok((self.nft_counter + 1) as u64)
        }
    }

    /// The registry after the assets `ids` of `owner` were destroyed: their
    /// records are gone and so are their entries in the owner's list.
    pub open spec fn burned(self, owner: Seq<char>, ids: Seq<u64>) -> State {
        State {
            nfts: self.nfts.remove_keys(ids.to_set()),
            owner_nfts: self.owner_nfts.insert(owner, without(self.list(owner), ids)),
            ..self
        }
    }

    /// The registry after a merge that succeeded: the result asset was minted
    /// for the caller as the recipe says, then the inputs were destroyed.
    pub open spec fn merged(self, caller: Seq<char>, ids: Seq<u64>, recipe_id: u64, now: u64) -> State {
        let recipe = self.recipes[recipe_id];
        let level = merged_level(self.levels(ids), recipe.level_bonus) as u32;
        self.minted(caller, recipe.result_name, recipe.result_attributes, level, now).burned(
            caller,
            ids,
        )
    }

    /// The registry after a merge was asked for: changed as a merge changes it
    /// if the merge succeeded, and untouched if it was refused.
    pub open spec fn after_merge(
        self,
        caller: Seq<char>,
        ids: Seq<u64>,
        recipe_id: u64,
        authorization: Authorization,
        now: u64,
    ) -> State {
        if self.merge_result(caller, ids, recipe_id, authorization) is Ok {
            self.merged(caller, ids, recipe_id, now)
        } else {
            self
        }
    }
}

} // verus!
