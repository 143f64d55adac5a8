use vstd::prelude::*;
use crate::lists::{lemma_without_contains, lemma_without_no_duplicates};
use crate::error::{Error, Namespace};
use crate::model::{without, State};
use crate::record::{AssetView, RecipeView};

verus! {

/// In a well-formed registry the owner index lists only assets that exist, and
/// so only identifiers that were issued.
pub proof fn lemma_listed_is_issued(s: State, owner: Seq<char>, id: u64)
    requires
        s.wf(),
        s.list(owner).contains(id),
    ensures
        s.owns(owner, id),
        1 <= id <= s.nft_counter,
{
    let i = choose|i: int| 0 <= i < s.list(owner).len() && s.list(owner)[i] == id;
    assert(s.owns(owner, s.owner_nfts[owner][i]));
}

/// Entering an asset that the registry admits keeps it well formed.
pub proof fn lemma_holding_asset_wf(s: State, asset: AssetView)
    requires
        s.wf(),
        s.admits_asset(asset),
    ensures
        s.holding_asset(asset).wf(),
{
    let t = s.holding_asset(asset);
    let id = asset.id;
    let owner = asset.owner;
    let list = s.list(owner);
    assert(!list.contains(id)) by {
        if list.contains(id) {
            lemma_listed_is_issued(s, owner, id);
        }
    }
    assert(t.records_wf());
    assert forall|o: Seq<char>| #[trigger] t.owner_nfts.contains_key(o) implies t.owner_nfts[o].no_duplicates() by {
        if o == owner {
            assert forall|i: int, j: int|
                0 <= i < list.len() + 1 && 0 <= j < list.len() + 1 && i != j implies list.push(
                id,
            )[i] != list.push(id)[j] by {
                if i < list.len() {
                    assert(list.contains(list[i]));
                }
                if j < list.len() {
                    assert(list.contains(list[j]));
                }
            }
        }
    }
    assert forall|o: Seq<char>, i: int|
        t.owner_nfts.contains_key(o) && 0 <= i < t.owner_nfts[o].len() implies t.owns(
        o,
        #[trigger] t.owner_nfts[o][i],
    ) by {
        if o == owner {
            if i < list.len() {
                assert(list.contains(list[i]));
                lemma_listed_is_issued(s, owner, list[i]);
            }
        } else {
            assert(s.owns(o, s.owner_nfts[o][i]));
        }
    }
    assert forall|x: u64| #[trigger] t.nfts.contains_key(x) implies t.list(t.nfts[x].owner).contains(
        x,
    ) by {
        if x == id {
            assert(list.push(id)[list.len() as int] == id);
        } else {
            let o = s.nfts[x].owner;
            assert(s.list(o).contains(x));
            if o == owner {
                let i = choose|i: int| 0 <= i < list.len() && list[i] == x;
                assert(list.push(id)[i] == x);
            }
        }
    }
}

/// The agreement of index and asset records is a matter of those two alone: a
/// registry with the same asset records and the same index as one in which
/// they agree has them agree too.
pub proof fn lemma_same_index_wf(s: State, t: State)
    requires
        s.index_wf(),
        t.nfts == s.nfts,
        t.owner_nfts == s.owner_nfts,
    ensures
        t.index_wf(),
{
    assert forall|x: u64| #[trigger] t.nfts.contains_key(x) implies t.list(t.nfts[x].owner).contains(
        x,
    ) by {
        assert(s.list(s.nfts[x].owner).contains(x));
    }
    assert forall|o: Seq<char>, i: int|
        t.owner_nfts.contains_key(o) && 0 <= i < t.owner_nfts[o].len() implies t.owns(
        o,
        #[trigger] t.owner_nfts[o][i],
    ) by {
        assert(s.owns(o, s.owner_nfts[o][i]));
    }
}

/// Advancing a counter keeps the registry well formed.
pub proof fn lemma_advanced_wf(s: State, nft_counter: u64, recipe_counter: u64)
    requires
        s.wf(),
        s.nft_counter <= nft_counter,
        s.recipe_counter <= recipe_counter,
    ensures
        (State { nft_counter, recipe_counter, ..s }).wf(),
{
    lemma_same_index_wf(s, State { nft_counter, recipe_counter, ..s });
}

/// A mint keeps the registry well formed.
pub proof fn lemma_minted_wf(
    s: State,
    owner: Seq<char>,
    name: Seq<char>,
    attributes: Seq<Seq<char>>,
    level: u32,
    now: u64,
)
    requires
        s.wf(),
        s.nft_counter < u64::MAX,
    ensures
        s.minted(owner, name, attributes, level, now).wf(),
{
    let id = (s.nft_counter + 1) as u64;
    lemma_advanced_wf(s, id, s.recipe_counter);
    lemma_holding_asset_wf(
        State { nft_counter: id, ..s },
        AssetView { id, owner, name, attributes, level, created_at: now },
    );
}

/// Entering a recipe that the registry admits keeps it well formed.
pub proof fn lemma_holding_recipe_wf(s: State, recipe: RecipeView)
    requires
        s.wf(),
        s.admits_recipe(recipe),
    ensures
        s.holding_recipe(recipe).wf(),
{
    let t = s.holding_recipe(recipe);
    assert(t.records_wf());
    lemma_same_index_wf(s, t);
}

/// Creating a recipe keeps the registry well formed.
pub proof fn lemma_with_recipe_wf(
    s: State,
    required_nft_types: Seq<Seq<char>>,
    result_name: Seq<char>,
    result_attributes: Seq<Seq<char>>,
    level_bonus: u32,
)
    requires
        s.wf(),
        s.recipe_counter < u64::MAX,
    ensures
        s.with_recipe(required_nft_types, result_name, result_attributes, level_bonus).wf(),
{
    let id = (s.recipe_counter + 1) as u64;
    lemma_advanced_wf(s, s.nft_counter, id);
    lemma_holding_recipe_wf(
        State { recipe_counter: id, ..s },
        RecipeView { id, required_nft_types, result_name, result_attributes, level_bonus },
    );
}

/// Destroying assets of one owner keeps the registry well formed.
pub proof fn lemma_burned_wf(s: State, owner: Seq<char>, ids: Seq<u64>)
    requires
        s.wf(),
        s.owns_all(owner, ids),
    ensures
        s.burned(owner, ids).wf(),
{
    let t = s.burned(owner, ids);
    let list = s.list(owner);
    let kept = without(list, ids);
    assert(list.no_duplicates());
    lemma_without_no_duplicates(list, ids);
    assert forall|x: u64| ids.contains(x) implies s.owns(owner, x) by {
        let i = choose|i: int| 0 <= i < ids.len() && ids[i] == x;
        assert(s.owns(owner, ids[i]));
    }
    assert(t.records_wf());
    assert forall|o: Seq<char>| #[trigger] t.owner_nfts.contains_key(o) implies t.owner_nfts[o].no_duplicates() by {
    }
    assert forall|o: Seq<char>, i: int|
        t.owner_nfts.contains_key(o) && 0 <= i < t.owner_nfts[o].len() implies t.owns(
        o,
        #[trigger] t.owner_nfts[o][i],
    ) by {
        let x = t.owner_nfts[o][i];
        if o == owner {
            assert(kept.contains(x));
            lemma_without_contains(list, ids, x);
            lemma_listed_is_issued(s, owner, x);
        } else {
            assert(s.owns(o, s.owner_nfts[o][i]));
            assert(!ids.contains(x));
        }
    }
    assert forall|x: u64| #[trigger] t.nfts.contains_key(x) implies t.list(t.nfts[x].owner).contains(
        x,
    ) by {
        let o = s.nfts[x].owner;
        assert(s.list(o).contains(x));
        assert(!ids.contains(x));
        if o == owner {
            lemma_without_contains(list, ids, x);
        }
    }
}

/// The first faulty input decides the error of a merge whose inputs are not
/// all the caller's: there is only one first.
pub proof fn lemma_first_fault(s: State, caller: Seq<char>, ids: Seq<u64>, i: int)
    requires
        s.first_fault_at(caller, ids, i),
    ensures
        !s.owns_all(caller, ids),
        s.input_error(caller, ids) == if s.nfts.contains_key(ids[i]) {
            Error::NotOwner
        } else {
            Error::NotFound(Namespace::Asset)
        },
{
    let j = choose|j: int| s.first_fault_at(caller, ids, j);
    if j < i {
        assert(ids.take(i)[j] == ids[j]);
    } else if i < j {
        assert(ids.take(j)[i] == ids[i]);
    }
}

} // verus!
