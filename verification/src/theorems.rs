use vstd::prelude::*;
use crate::env::Authorization;
use crate::error::{Error, Namespace};
use crate::level::merged_level;
use crate::lists::lemma_without_contains;
use crate::model::State;
use crate::record::AssetView;
use crate::wellformed::{
    lemma_burned_wf, lemma_first_fault, lemma_listed_is_issued, lemma_minted_wf,
    lemma_with_recipe_wf,
};

verus! {

/// One request to the registry, with what the environment supplied to it.
pub enum Call {
    Mint {
        authorization: Authorization,
        owner: Seq<char>,
        name: Seq<char>,
        attributes: Seq<Seq<char>>,
        level: u32,
        now: u64,
    },
    CreateRecipe {
        authorization: Authorization,
        required_nft_types: Seq<Seq<char>>,
        result_name: Seq<char>,
        result_attributes: Seq<Seq<char>>,
        level_bonus: u32,
    },
    Merge {
        authorization: Authorization,
        caller: Seq<char>,
        ids: Seq<u64>,
        recipe_id: u64,
        now: u64,
    },
}

/// What the registry `s` answers to `call`.
pub open spec fn outcome(s: State, call: Call) -> Result<u64, Error> {
    match call {
        Call::Mint { authorization, .. } => s.mint_result(authorization),
        Call::CreateRecipe { authorization, .. } => s.recipe_result(authorization),
        Call::Merge { authorization, caller, ids, recipe_id, .. } => s.merge_result(
            caller,
            ids,
            recipe_id,
            authorization,
        ),
    }
}

/// The registry after `call` was made on `s`.
pub open spec fn step(s: State, call: Call) -> State {
    match call {
        Call::Mint { authorization, owner, name, attributes, level, now } => s.after_mint(
            authorization,
            owner,
            name,
            attributes,
            level,
            now,
        ),
        Call::CreateRecipe {
            authorization,
            required_nft_types,
            result_name,
            result_attributes,
            level_bonus,
        } => s.after_recipe(
            authorization,
            required_nft_types,
            result_name,
            result_attributes,
            level_bonus,
        ),
        Call::Merge { authorization, caller, ids, recipe_id, now } => s.after_merge(
            caller,
            ids,
            recipe_id,
            authorization,
            now,
        ),
    }
}

/// The registry after the calls were made on `s` one after the other.
pub open spec fn run(s: State, calls: Seq<Call>) -> State
    decreases calls.len(),
{
    if calls.len() == 0 {
        s
    } else {
        step(run(s, calls.drop_last()), calls.last())
    }
}

/// What the call at position `k` of a run answers.
pub open spec fn answer(s: State, calls: Seq<Call>, k: int) -> Result<u64, Error>
    recommends
        0 <= k < calls.len(),
{
    outcome(run(s, calls.take(k)), calls[k])
}

/// Whether the call at position `k` of a run issued asset identifier `id`:
/// it is a mint or a merge and succeeded with `id`.
pub open spec fn issues_asset(s: State, calls: Seq<Call>, k: int, id: u64) -> bool {
    &&& 0 <= k < calls.len()
    &&& !(calls[k] is CreateRecipe)
    &&& answer(s, calls, k) == Ok::<u64, Error>(id)
}

/// A merge that succeeds keeps the registry well formed.
pub proof fn lemma_merged_wf(s: State, caller: Seq<char>, ids: Seq<u64>, recipe_id: u64, now: u64)
    requires
        s.wf(),
        s.merge_result(caller, ids, recipe_id, Authorization::Granted) is Ok,
    ensures
        s.merged(caller, ids, recipe_id, now).wf(),
{
    let recipe = s.recipes[recipe_id];
    let level = merged_level(s.levels(ids), recipe.level_bonus) as u32;
    let minted = s.minted(caller, recipe.result_name, recipe.result_attributes, level, now);
    lemma_minted_wf(s, caller, recipe.result_name, recipe.result_attributes, level, now);
    assert forall|i: int| 0 <= i < ids.len() implies minted.owns(caller, #[trigger] ids[i]) by {
        assert(s.owns(caller, ids[i]));
    }
    lemma_burned_wf(minted, caller, ids);
}

/// Every operation keeps the registry well formed, whether it succeeds or is
/// refused, and never lowers a counter.
pub proof fn theorem_step_keeps_wf(s: State, call: Call)
    requires
        s.wf(),
    ensures
        step(s, call).wf(),
        step(s, call).nft_counter >= s.nft_counter,
        step(s, call).recipe_counter >= s.recipe_counter,
{
    match call {
        Call::Mint { authorization, owner, name, attributes, level, now } => {
            if s.mint_result(authorization) is Ok {
                lemma_minted_wf(s, owner, name, attributes, level, now);
            }
        },
        Call::CreateRecipe {
            authorization,
            required_nft_types,
            result_name,
            result_attributes,
            level_bonus,
        } => {
            if s.recipe_result(authorization) is Ok {
                lemma_with_recipe_wf(
                    s,
                    required_nft_types,
                    result_name,
                    result_attributes,
                    level_bonus,
                );
            }
        },
        Call::Merge { authorization, caller, ids, recipe_id, now } => {
            if s.merge_result(caller, ids, recipe_id, authorization) is Ok {
                lemma_merged_wf(s, caller, ids, recipe_id, now);
            }
        },
    }
}

/// Every registry that a sequence of operations reaches from a well-formed
/// one is well formed: identifiers stay unique and the owner index stays in
/// agreement with the asset records.
pub proof fn theorem_run_keeps_wf(s: State, calls: Seq<Call>)
    requires
        s.wf(),
    ensures
        run(s, calls).wf(),
        run(s, calls).nft_counter >= s.nft_counter,
        run(s, calls).recipe_counter >= s.recipe_counter,
    decreases calls.len(),
{
    if calls.len() > 0 {
        theorem_run_keeps_wf(s, calls.drop_last());
        theorem_step_keeps_wf(run(s, calls.drop_last()), calls.last());
    }
}

/// A longer run has counters at least as large as a shorter run of the same
/// calls.
pub proof fn lemma_run_counters_grow(s: State, calls: Seq<Call>, k: int, l: int)
    requires
        s.wf(),
        0 <= k <= l <= calls.len(),
    ensures
        run(s, calls.take(k)).wf(),
        run(s, calls.take(k)).nft_counter <= run(s, calls.take(l)).nft_counter,
        run(s, calls.take(k)).recipe_counter <= run(s, calls.take(l)).recipe_counter,
    decreases l - k,
{
    theorem_run_keeps_wf(s, calls.take(k));
    if k < l {
        lemma_run_counters_grow(s, calls, k, l - 1);
        theorem_run_keeps_wf(s, calls.take(l - 1));
        assert(calls.take(l).drop_last() =~= calls.take(l - 1));
        theorem_step_keeps_wf(run(s, calls.take(l - 1)), calls.take(l).last());
    }
}

/// An operation that issues an asset identifier issues the next one, and
/// leaves the asset counter at it.
pub proof fn lemma_issued_is_next(s: State, calls: Seq<Call>, k: int, id: u64)
    requires
        issues_asset(s, calls, k, id),
    ensures
        id == run(s, calls.take(k)).nft_counter + 1,
        run(s, calls.take(k + 1)).nft_counter == id,
{
    assert(calls.take(k + 1).drop_last() =~= calls.take(k));
    assert(calls.take(k + 1).last() == calls[k]);
}

/// In any sequence of operations, the asset identifiers that mints and merges
/// return are strictly increasing in the order of the calls; in particular no
/// identifier is returned twice.
pub proof fn theorem_asset_ids_increase(
    s: State,
    calls: Seq<Call>,
    k: int,
    l: int,
    first: u64,
    second: u64,
)
    requires
        s.wf(),
        k < l,
        issues_asset(s, calls, k, first),
        issues_asset(s, calls, l, second),
    ensures
        s.nft_counter < first < second,
{
    lemma_issued_is_next(s, calls, k, first);
    lemma_issued_is_next(s, calls, l, second);
    lemma_run_counters_grow(s, calls, 0, k);
    assert(calls.take(0) =~= Seq::<Call>::empty());
    lemma_run_counters_grow(s, calls, k + 1, l);
}

/// Sequences of mints are a case of the above: the identifiers that
/// successive mints return are strictly increasing.
pub proof fn theorem_mint_ids_increase(
    s: State,
    calls: Seq<Call>,
    k: int,
    l: int,
)
    requires
        s.wf(),
        forall|i: int| 0 <= i < calls.len() ==> (#[trigger] calls[i]) is Mint,
        0 <= k < l < calls.len(),
        answer(s, calls, k) is Ok,
        answer(s, calls, l) is Ok,
    ensures
        answer(s, calls, k)->Ok_0 < answer(s, calls, l)->Ok_0,
{
    theorem_asset_ids_increase(
        s,
        calls,
        k,
        l,
        answer(s, calls, k)->Ok_0,
        answer(s, calls, l)->Ok_0,
    );
}

/// After a mint for `owner` returned `id`, looking `id` up gives an asset
/// whose owner is `owner`, with the name, attributes, level and time given,
/// and `id` is the last entry of `owner`'s list.
pub proof fn theorem_minted_asset_is_owned(
    s: State,
    authorization: Authorization,
    owner: Seq<char>,
    name: Seq<char>,
    attributes: Seq<Seq<char>>,
    level: u32,
    now: u64,
    id: u64,
)
    requires
        s.mint_result(authorization) == Ok::<u64, Error>(id),
    ensures
        ({
            let t = s.after_mint(authorization, owner, name, attributes, level, now);
            &&& t.view_result(id) is Ok
            &&& t.view_result(id)->Ok_0.id == id
            &&& t.view_result(id)->Ok_0.owner == owner
            &&& t.view_result(id)->Ok_0.name == name
            &&& t.view_result(id)->Ok_0.attributes == attributes
            &&& t.view_result(id)->Ok_0.level == level
            &&& t.view_result(id)->Ok_0.created_at == now
            &&& t.list(owner).contains(id)
            &&& t.list(owner) == s.list(owner).push(id)
            &&& t.nft_counter == id
        }),
{
    let t = s.after_mint(authorization, owner, name, attributes, level, now);
    assert(t.list(owner)[s.list(owner).len() as int] == id);
}

/// A merge of fewer than two inputs by an authorized caller is refused for
/// insufficient inputs, and changes nothing.
pub proof fn theorem_merge_needs_two_inputs(
    s: State,
    caller: Seq<char>,
    ids: Seq<u64>,
    recipe_id: u64,
    now: u64,
)
    requires
        ids.len() < 2,
    ensures
        s.merge_result(caller, ids, recipe_id, Authorization::Granted) == Err::<u64, Error>(
            Error::InsufficientInputs,
        ),
        s.after_merge(caller, ids, recipe_id, Authorization::Granted, now) == s,
{
}

/// A merge by an authorized caller, of at least two inputs under a recipe that
/// exists, is refused as not owned when some input belongs to somebody else
/// and every input before it exists; nothing changes, and no identifier is
/// issued.
pub proof fn theorem_merge_rejects_foreign_input(
    s: State,
    caller: Seq<char>,
    ids: Seq<u64>,
    recipe_id: u64,
    now: u64,
    i: int,
)
    requires
        ids.len() >= 2,
        s.recipes.contains_key(recipe_id),
        0 <= i < ids.len(),
        s.nfts.contains_key(ids[i]),
        s.nfts[ids[i]].owner != caller,
        forall|j: int| 0 <= j < i ==> s.nfts.contains_key(#[trigger] ids[j]),
    ensures
        s.merge_result(caller, ids, recipe_id, Authorization::Granted) == Err::<u64, Error>(
            Error::NotOwner,
        ),
        s.after_merge(caller, ids, recipe_id, Authorization::Granted, now) == s,
        s.after_merge(caller, ids, recipe_id, Authorization::Granted, now).nft_counter
            == s.nft_counter,
{
    let first = lemma_earliest_fault(s, caller, ids, i);
    lemma_first_fault(s, caller, ids, first);
}

/// Up to any input that is not the caller's there is a first such input.
pub proof fn lemma_earliest_fault(s: State, caller: Seq<char>, ids: Seq<u64>, i: int) -> (first: int)
    requires
        0 <= i < ids.len(),
        !s.owns(caller, ids[i]),
    ensures
        0 <= first <= i,
        s.first_fault_at(caller, ids, first),
    decreases i,
{
    if s.owns_all(caller, ids.take(i)) {
        i
    } else {
        let j = choose|j: int| 0 <= j < ids.take(i).len() && !s.owns(caller, #[trigger] ids.take(i)[j]);
        assert(ids.take(i)[j] == ids[j]);
        lemma_earliest_fault(s, caller, ids, j)
    }
}

/// A merge by an authorized caller, of at least two inputs that are all the
/// caller's, under a recipe that exists and requires another number of
/// inputs, is refused as a mismatch, and changes nothing.
pub proof fn theorem_merge_rejects_wrong_count(
    s: State,
    caller: Seq<char>,
    ids: Seq<u64>,
    recipe_id: u64,
    now: u64,
)
    requires
        ids.len() >= 2,
        s.recipes.contains_key(recipe_id),
        s.owns_all(caller, ids),
        ids.len() != s.recipes[recipe_id].required_input_count(),
    ensures
        s.merge_result(caller, ids, recipe_id, Authorization::Granted) == Err::<u64, Error>(
            Error::RecipeMismatch,
        ),
        s.after_merge(caller, ids, recipe_id, Authorization::Granted, now) == s,
{
}

/// A merge by an authorized caller that names an input twice, and at which
/// nothing that is asked earlier is wrong, is refused because the input is not
/// found a second time; it changes nothing. So no asset counts twice toward a
/// recipe's inputs or toward the level.
pub proof fn theorem_merge_rejects_repeated_input(
    s: State,
    caller: Seq<char>,
    ids: Seq<u64>,
    recipe_id: u64,
    now: u64,
    i: int,
    j: int,
)
    requires
        s.recipes.contains_key(recipe_id),
        s.owns_all(caller, ids),
        ids.len() == s.recipes[recipe_id].required_input_count(),
        0 <= i < j < ids.len(),
        ids[i] == ids[j],
    ensures
        s.merge_result(caller, ids, recipe_id, Authorization::Granted) == Err::<u64, Error>(
            Error::NotFound(Namespace::Asset),
        ),
        s.after_merge(caller, ids, recipe_id, Authorization::Granted, now) == s,
{
}

/// A merge that names any input twice never succeeds, whoever makes it and
/// whatever else holds.
pub proof fn theorem_merge_takes_each_input_once(
    s: State,
    caller: Seq<char>,
    ids: Seq<u64>,
    recipe_id: u64,
    authorization: Authorization,
    now: u64,
)
    requires
        !ids.no_duplicates(),
    ensures
        s.merge_result(caller, ids, recipe_id, authorization) is Err,
        s.after_merge(caller, ids, recipe_id, authorization, now) == s,
{
}

/// After a merge of inputs `ids` under recipe `recipe_id` for `caller` has
/// succeeded with `id`: no input is named twice, no input exists any more,
/// none is in the caller's
/// list, and the records are those of before without the inputs and with
/// exactly one new asset, `id`, which is the caller's, has the recipe's result
/// name and attributes, and whose level is the average of the inputs' levels,
/// rounded toward zero, plus the recipe's bonus.
pub proof fn theorem_merge_consumes_inputs(
    s: State,
    caller: Seq<char>,
    ids: Seq<u64>,
    recipe_id: u64,
    authorization: Authorization,
    now: u64,
    id: u64,
)
    requires
        s.wf(),
        s.merge_result(caller, ids, recipe_id, authorization) == Ok::<u64, Error>(id),
    ensures
        ({
            let t = s.after_merge(caller, ids, recipe_id, authorization, now);
            let recipe = s.recipes[recipe_id];
            &&& t.wf()
            &&& ids.no_duplicates()
            &&& forall|i: int| 0 <= i < ids.len() ==> !t.nfts.contains_key(#[trigger] ids[i])
            &&& forall|i: int| 0 <= i < ids.len() ==> !t.list(caller).contains(#[trigger] ids[i])
            &&& !s.nfts.contains_key(id)
            &&& t.nfts.dom() == s.nfts.dom().difference(ids.to_set()).insert(id)
            &&& forall|other: u64| #[trigger]
                t.nfts.contains_key(other) && other != id ==> t.nfts[other] == s.nfts[other]
            &&& t.nfts[id].id == id
            &&& t.nfts[id].owner == caller
            &&& t.nfts[id].name == recipe.result_name
            &&& t.nfts[id].attributes == recipe.result_attributes
            &&& t.nfts[id].level == merged_level(s.levels(ids), recipe.level_bonus)
            &&& t.nfts[id].created_at == now
            &&& t.list(caller).contains(id)
            &&& t.nft_counter == id
        }),
{
    let t = s.after_merge(caller, ids, recipe_id, authorization, now);
    let recipe = s.recipes[recipe_id];
    let level = merged_level(s.levels(ids), recipe.level_bonus) as u32;
    let minted = s.minted(caller, recipe.result_name, recipe.result_attributes, level, now);
    lemma_merged_wf(s, caller, ids, recipe_id, now);
    crate::level::lemma_average_is_level(s.levels(ids));
    assert forall|x: u64| ids.contains(x) implies s.owns(caller, x) && x != id by {
        let i = choose|i: int| 0 <= i < ids.len() && ids[i] == x;
        assert(s.owns(caller, ids[i]));
    }
    assert forall|i: int| 0 <= i < ids.len() implies !t.nfts.contains_key(#[trigger] ids[i]) by {
        assert(ids.contains(ids[i]));
    }
    assert forall|i: int| 0 <= i < ids.len() implies !t.list(caller).contains(
        #[trigger] ids[i],
    ) by {
        assert(ids.contains(ids[i]));
        lemma_without_contains(minted.list(caller), ids, ids[i]);
    }
    assert(t.nfts.dom() =~= s.nfts.dom().difference(ids.to_set()).insert(id));
    assert(minted.list(caller)[s.list(caller).len() as int] == id);
    lemma_without_contains(minted.list(caller), ids, id);
}

/// An asset that a merge has consumed never exists again, whatever is done
/// afterwards: its identifier is not issued a second time.
pub proof fn lemma_consumed_stays_gone(s: State, calls: Seq<Call>, id: u64)
    requires
        s.wf(),
        id <= s.nft_counter,
        !s.nfts.contains_key(id),
    ensures
        run(s, calls).wf(),
        id <= run(s, calls).nft_counter,
        !run(s, calls).nfts.contains_key(id),
    decreases calls.len(),
{
    if calls.len() > 0 {
        lemma_consumed_stays_gone(s, calls.drop_last(), id);
        let before = run(s, calls.drop_last());
        theorem_step_keeps_wf(before, calls.last());
    }
}

/// No asset is merged twice. Once a merge has consumed an asset, every merge
/// that names that asset among its inputs is refused and changes nothing,
/// however many operations come in between. Two merge attempts that share an
/// input are made one after the other, so at most the first succeeds; the
/// second, if nothing else is wrong with it, finds the shared asset missing.
pub proof fn theorem_no_double_merge(
    s: State,
    caller: Seq<char>,
    ids: Seq<u64>,
    recipe_id: u64,
    authorization: Authorization,
    now: u64,
    between: Seq<Call>,
    caller2: Seq<char>,
    ids2: Seq<u64>,
    recipe_id2: u64,
    authorization2: Authorization,
    now2: u64,
    shared: u64,
)
    requires
        s.wf(),
        s.merge_result(caller, ids, recipe_id, authorization) is Ok,
        ids.contains(shared),
        ids2.contains(shared),
    ensures
        ({
            let t = run(s.after_merge(caller, ids, recipe_id, authorization, now), between);
            &&& t.merge_result(caller2, ids2, recipe_id2, authorization2) is Err
            &&& t.merge_result(caller2, ids2, recipe_id2, authorization2) != Err::<u64, Error>(
                Error::RecipeMismatch,
            )
            &&& t.after_merge(caller2, ids2, recipe_id2, authorization2, now2) == t
            &&& (authorization2 == Authorization::Granted && ids2.len() >= 2
                && t.recipes.contains_key(recipe_id2) && forall|j: int|
                0 <= j < ids2.len() && ids2[j] != shared ==> t.owns(caller2, #[trigger] ids2[j]))
                ==> t.merge_result(caller2, ids2, recipe_id2, authorization2) == Err::<
                u64,
                Error,
            >(Error::NotFound(Namespace::Asset))
        }),
{
    let merged = s.after_merge(caller, ids, recipe_id, authorization, now);
    let id = s.merge_result(caller, ids, recipe_id, authorization)->Ok_0;
    theorem_merge_consumes_inputs(s, caller, ids, recipe_id, authorization, now, id);
    let i = choose|i: int| 0 <= i < ids.len() && ids[i] == shared;
    assert(s.owns(caller, ids[i]));
    assert(!merged.nfts.contains_key(ids[i]));
    lemma_consumed_stays_gone(merged, between, shared);
    let t = run(merged, between);
    let j = choose|j: int| 0 <= j < ids2.len() && ids2[j] == shared;
    assert(!t.owns(caller2, ids2[j]));
    if authorization2 == Authorization::Granted && ids2.len() >= 2 && t.recipes.contains_key(
        recipe_id2,
    ) {
        let first = lemma_earliest_fault(t, caller2, ids2, j);
        lemma_first_fault(t, caller2, ids2, first);
    }
}

/// Looking up an identifier under which no asset exists is refused as not
/// found; a lookup that succeeds returns the record stored under that
/// identifier and nothing else.
pub proof fn theorem_missing_asset_not_found(s: State, id: u64)
    ensures
        !s.nfts.contains_key(id) ==> s.view_result(id) == Err::<AssetView, Error>(
            Error::NotFound(Namespace::Asset),
        ),
        s.nfts.contains_key(id) ==> s.view_result(id) == Ok::<AssetView, Error>(
            s.nfts[id],
        ),
{
}

/// No asset is listed for two owners, and an asset is listed for the owner
/// that its record names.
pub proof fn theorem_one_owner_per_asset(s: State, first: Seq<char>, second: Seq<char>, id: u64)
    requires
        s.wf(),
        s.list(first).contains(id),
        s.list(second).contains(id),
    ensures
        first == second,
        s.nfts.contains_key(id),
        s.nfts[id].owner == first,
{
    lemma_listed_is_issued(s, first, id);
    lemma_listed_is_issued(s, second, id);
}

/// Whether the call at position `k` of a run issued recipe identifier `id`.
pub open spec fn issues_recipe(s: State, calls: Seq<Call>, k: int, id: u64) -> bool {
    &&& 0 <= k < calls.len()
    &&& calls[k] is CreateRecipe
    &&& answer(s, calls, k) == Ok::<u64, Error>(id)
}

/// In any sequence of operations, the recipe identifiers that are returned
/// are strictly increasing in the order of the calls.
pub proof fn theorem_recipe_ids_increase(
    s: State,
    calls: Seq<Call>,
    k: int,
    l: int,
    first: u64,
    second: u64,
)
    requires
        s.wf(),
        k < l,
        issues_recipe(s, calls, k, first),
        issues_recipe(s, calls, l, second),
    ensures
        s.recipe_counter < first < second,
{
    assert(calls.take(k + 1).drop_last() =~= calls.take(k));
    assert(calls.take(k + 1).last() == calls[k]);
    assert(calls.take(l + 1).drop_last() =~= calls.take(l));
    assert(calls.take(l + 1).last() == calls[l]);
    lemma_run_counters_grow(s, calls, 0, k);
    assert(calls.take(0) =~= Seq::<Call>::empty());
    lemma_run_counters_grow(s, calls, k + 1, l);
}

/// Records never change. Whatever operation is made, a recipe that existed
/// before it is the same after it, and an asset that exists before and after
/// it is the same: an asset is created by a mint or a merge, destroyed by a
/// merge, and never edited.
pub proof fn theorem_records_never_change(s: State, call: Call, id: u64)
    requires
        s.wf(),
    ensures
        s.recipes.contains_key(id) ==> step(s, call).recipes.contains_key(id) && step(
            s,
            call,
        ).recipes[id] == s.recipes[id],
        s.nfts.contains_key(id) && step(s, call).nfts.contains_key(id) ==> step(s, call).nfts[id]
            == s.nfts[id],
{
}

} // verus!
