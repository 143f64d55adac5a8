use vstd::prelude::*;
use crate::identity::Identity;

verus! {

/// The character sequences of a list of strings, in order.
pub open spec fn texts(items: Seq<String>) -> Seq<Seq<char>> {
    Seq::new(items.len(), |i: int| items[i]@)
}

/// Copies a list of strings.
pub fn clone_texts(items: &Vec<String>) -> (copy: Vec<String>)
    ensures
        copy@ == items@,
{
    let mut copy: Vec<String> = Vec::new();
    let mut i: usize = 0;
    while i < items.len()
        invariant
            i <= items.len(),
            copy@ == items@.subrange(0, i as int),
        decreases items.len() - i,
    {
        copy.push(items[i].clone());
        assert(copy@ =~= items@.subrange(0, i + 1));
        i += 1;
    }
    assert(copy@ =~= items@);
    copy
}

/// What an asset is: the mathematical value of an [`NFT`].
pub struct AssetView {
    pub id: u64,
    pub owner: Seq<char>,
    pub name: Seq<char>,
    pub attributes: Seq<Seq<char>>,
    pub level: u32,
    pub created_at: u64,
}

/// A uniquely identified, owned record with a name, attributes and a level.
/// An asset never changes once created.
#[derive(Debug, PartialEq, Eq)]
pub struct NFT {
    pub id: u64,
    pub owner: Identity,
    pub name: String,
    pub attributes: Vec<String>,
    pub level: u32,
    pub created_at: u64,
}

impl View for NFT {
    type V = AssetView;

    open spec fn view(&self) -> AssetView {
        AssetView {
            id: self.id,
            owner: self.owner@,
            name: self.name@,
            attributes: texts(self.attributes@),
            level: self.level,
            created_at: self.created_at,
        }
    }
}

impl Clone for NFT {
    fn clone(&self) -> (copy: Self)
        ensures
            copy@ == self@,
    {
        NFT {
            id: self.id,
            owner: self.owner.clone(),
            name: self.name.clone(),
            attributes: clone_texts(&self.attributes),
            level: self.level,
            created_at: self.created_at,
        }
    }
}

/// What a recipe is: the mathematical value of a [`MergeRecipe`].
pub struct RecipeView {
    pub id: u64,
    pub required_nft_types: Seq<Seq<char>>,
    pub result_name: Seq<char>,
    pub result_attributes: Seq<Seq<char>>,
    pub level_bonus: u32,
}

impl RecipeView {
    /// How many inputs a merge under this recipe consumes: one per type tag.
    pub open spec fn required_input_count(self) -> nat {
        self.required_nft_types.len()
    }
}

/// A rule saying how many assets a merge consumes and what asset results.
/// A recipe never changes once created.
#[derive(Debug, PartialEq, Eq)]
pub struct MergeRecipe {
    pub id: u64,
    pub required_nft_types: Vec<String>,
    pub result_name: String,
    pub result_attributes: Vec<String>,
    pub level_bonus: u32,
}

impl View for MergeRecipe {
    type V = RecipeView;

    open spec fn view(&self) -> RecipeView {
        RecipeView {
            id: self.id,
            required_nft_types: texts(self.required_nft_types@),
            result_name: self.result_name@,
            result_attributes: texts(self.result_attributes@),
            level_bonus: self.level_bonus,
        }
    }
}

impl Clone for MergeRecipe {
    fn clone(&self) -> (copy: Self)
        ensures
            copy@ == self@,
    {
        MergeRecipe {
            id: self.id,
            required_nft_types: clone_texts(&self.required_nft_types),
            result_name: self.result_name.clone(),
            result_attributes: clone_texts(&self.result_attributes),
            level_bonus: self.level_bonus,
        }
    }
}

impl MergeRecipe {
    /// How many inputs a merge under this recipe consumes.
    pub fn required_input_count(&self) -> (count: usize)
        ensures
            count == self@.required_input_count(),
    {
        self.required_nft_types.len()
    }
}

/// The logical key space of the persisted state: what kinds of record there
/// are and how each is addressed.
#[derive(Debug, PartialEq, Eq)]
pub enum DataKey {
    /// The asset with the given identifier.
    NFT(u64),
    /// The identifier that was issued last to an asset.
    NFTCounter,
    /// The recipe with the given identifier.
    Recipe(u64),
    /// The identifier that was issued last to a recipe.
    RecipeCounter,
    /// The list of the asset identifiers that the given owner holds.
    OwnerNFTs(Identity),
}

} // verus!
