use std::collections::HashMap;
use vstd::prelude::*;
use crate::error::{Error, Namespace};
use crate::record::{AssetView, MergeRecipe, RecipeView, NFT};

verus! {

broadcast use vstd::std_specs::hash::group_hash_axioms;

/// The asset records, by identifier.
pub struct AssetStore {
    records: HashMap<u64, NFT>,
}

impl View for AssetStore {
    type V = Map<u64, AssetView>;

    closed spec fn view(&self) -> Map<u64, AssetView> {
        Map::new(|id: u64| self.records@.contains_key(id), |id: u64| self.records@[id]@)
    }
}

impl AssetStore {
    /// A store without records.
    pub fn new() -> (store: Self)
        ensures
            store@ == Map::<u64, AssetView>::empty(),
    {
        let store = AssetStore { records: HashMap::new() };
        assert(store@ =~= Map::<u64, AssetView>::empty());
        store
    }

    /// Whether a record exists under `id`.
    pub fn contains(&self, id: u64) -> (found: bool)
        ensures
            found == self@.contains_key(id),
    {
        self.records.contains_key(&id)
    }

    /// Writes `asset` under its own identifier. An identifier that is already
    /// taken is a consistency violation and nothing is written.
    pub fn create(&mut self, asset: NFT) -> (done: Result<(), Error>)
        ensures
            match done {
                Ok(()) => {
                    &&& !old(self)@.contains_key(asset.id)
                    &&& final(self)@ == old(self)@.insert(asset.id, asset@)
                },
                Err(error) => {
                    &&& old(self)@.contains_key(asset.id)
                    &&& error == Error::ConsistencyViolation
                    &&& final(self)@ == old(self)@
                },
            },
    {
        if self.records.contains_key(&asset.id) {
            return Err(Error::ConsistencyViolation);
        }
        let ghost id = asset.id;
        let ghost value = asset@;
        self.records.insert(asset.id, asset);
        assert(self@ =~= old(self)@.insert(id, value));
        Ok(())
    }

    /// The record under `id`.
    pub fn get(&self, id: u64) -> (found: Result<&NFT, Error>)
        ensures
            match found {
                Ok(asset) => self@.contains_key(id) && asset@ == self@[id],
                Err(error) => !self@.contains_key(id) && error == Error::NotFound(Namespace::Asset),
            },
    {
        match self.records.get(&id) {
            Some(asset) => Ok(asset),
            None => Err(Error::NotFound(Namespace::Asset)),
        }
    }

    /// Removes the record under `id`. Removing what is not there is an error,
    /// not a no-op.
    pub fn delete(&mut self, id: u64) -> (done: Result<(), Error>)
        ensures
            match done {
                Ok(()) => old(self)@.contains_key(id) && final(self)@ == old(self)@.remove(id),
                Err(error) => {
                    &&& !old(self)@.contains_key(id)
                    &&& error == Error::NotFound(Namespace::Asset)
                    &&& final(self)@ == old(self)@
                },
            },
    {
        match self.records.remove(&id) {
            Some(_) => {
                assert(self@ =~= old(self)@.remove(id));
                Ok(())
            },
            None => {
                assert(self@ =~= old(self)@);
                Err(Error::NotFound(Namespace::Asset))
            },
        }
    }
}

/// The recipe records, by identifier. A recipe is written once and never
/// changed or removed.
pub struct RecipeStore {
    records: HashMap<u64, MergeRecipe>,
}

impl View for RecipeStore {
    type V = Map<u64, RecipeView>;

    closed spec fn view(&self) -> Map<u64, RecipeView> {
        Map::new(|id: u64| self.records@.contains_key(id), |id: u64| self.records@[id]@)
    }
}

impl RecipeStore {
    /// A store without records.
    pub fn new() -> (store: Self)
        ensures
            store@ == Map::<u64, RecipeView>::empty(),
    {
        let store = RecipeStore { records: HashMap::new() };
        assert(store@ =~= Map::<u64, RecipeView>::empty());
        store
    }

    /// Whether a record exists under `id`.
    pub fn contains(&self, id: u64) -> (found: bool)
        ensures
            found == self@.contains_key(id),
    {
        self.records.contains_key(&id)
    }

    /// Writes `recipe` under its own identifier. An identifier that is already
    /// taken is a consistency violation and nothing is written.
    pub fn create(&mut self, recipe: MergeRecipe) -> (done: Result<(), Error>)
        ensures
            match done {
                Ok(()) => {
                    &&& !old(self)@.contains_key(recipe.id)
                    &&& final(self)@ == old(self)@.insert(recipe.id, recipe@)
                },
                Err(error) => {
                    &&& old(self)@.contains_key(recipe.id)
                    &&& error == Error::ConsistencyViolation
                    &&& final(self)@ == old(self)@
                },
            },
    {
        if self.records.contains_key(&recipe.id) {
            return Err(Error::ConsistencyViolation);
        }
        let ghost id = recipe.id;
        let ghost value = recipe@;
        self.records.insert(recipe.id, recipe);
        assert(self@ =~= old(self)@.insert(id, value));
        Ok(())
    }

    /// The record under `id`.
    pub fn get(&self, id: u64) -> (found: Result<&MergeRecipe, Error>)
        ensures
            match found {
                Ok(recipe) => self@.contains_key(id) && recipe@ == self@[id],
                Err(error) => !self@.contains_key(id) && error == Error::NotFound(
                    Namespace::Recipe,
                ),
            },
    {
        match self.records.get(&id) {
            Some(recipe) => Ok(recipe),
            None => Err(Error::NotFound(Namespace::Recipe)),
        }
    }
}

} // verus!
