//! Indexes and action plans travel as packet parameters: times and actions
//! as text.
use vstd::prelude::*;
use crate::index_comparer::{action_name, Action};
use crate::strmap::{StrMap, pairs_to_map, lemma_pairs_to_map_push};
use crate::wire::{decimal, decimal_text, decimal_value, parse_decimal};

verus! {

/// The parameters that carry an index: each time in decimal.
pub open spec fn index_params(ix: Map<Seq<char>, u64>) -> Map<Seq<char>, Seq<char>> {
    Map::new(|k: Seq<char>| ix.contains_key(k), |k: Seq<char>| decimal(ix[k] as nat))
}

/// Every parameter value is a decimal time.
pub open spec fn all_decimal(m: Map<Seq<char>, Seq<char>>) -> bool {
    forall|k: Seq<char>| #[trigger] m.contains_key(k) ==> decimal_value(m[k]) is Some
}

/// The index that parameters carry, read where every value is a time.
pub open spec fn params_index(m: Map<Seq<char>, Seq<char>>) -> Map<Seq<char>, u64> {
    Map::new(|k: Seq<char>| m.contains_key(k), |k: Seq<char>| decimal_value(m[k])->Some_0)
}

/// The parameters that carry an action plan: each action by its name.
pub open spec fn plan_params(p: Map<Seq<char>, Action>) -> Map<Seq<char>, Seq<char>> {
    Map::new(|k: Seq<char>| p.contains_key(k), |k: Seq<char>| action_name(p[k]))
}

/// Writes each time of an index in decimal.
pub fn index_to_params(ix: &StrMap<u64>) -> (r: StrMap<String>)
    requires
        ix.wf(),
    ensures
        r.wf(),
        r.map() == index_params(ix.map()),
{
    let mut r: StrMap<String> = StrMap::new();
    let mut i: usize = 0;
    while i < ix.entries.len()
        invariant
            ix.wf(),
            r.wf(),
            0 <= i <= ix.entries@.len(),
            r.map() == index_params(pairs_to_map(ix.pairs().subrange(0, i as int))),
        decreases ix.entries@.len() - i,
    {
        let ghost pre = ix.pairs().subrange(0, i as int);
        assert(ix.pairs().subrange(0, i + 1) =~= pre.push(ix.pairs()[i as int]));
        proof {
            lemma_pairs_to_map_push(pre, ix.pairs()[i as int].0, ix.pairs()[i as int].1);
        }
        r.insert(ix.entries[i].0.clone(), decimal_text(ix.entries[i].1));
        i = i + 1;
        assert(r.map() =~= index_params(pairs_to_map(ix.pairs().subrange(0, i as int))));
    }
    assert(ix.pairs().subrange(0, i as int) =~= ix.pairs());
    r
}

/// Reads an index out of parameters; `None` if some value is not a time.
pub fn params_to_index(params: &StrMap<String>) -> (r: Option<StrMap<u64>>)
    requires
        params.wf(),
    ensures
        r is Some <==> all_decimal(params.map()),
        r matches Some(ix) ==> ix.wf() && ix.map() == params_index(params.map()),
{
    let mut r: StrMap<u64> = StrMap::new();
    let mut i: usize = 0;
    while i < params.entries.len()
        invariant
            params.wf(),
            r.wf(),
            0 <= i <= params.entries@.len(),
            all_decimal(pairs_to_map(params.pairs().subrange(0, i as int))),
            r.map() == params_index(pairs_to_map(params.pairs().subrange(0, i as int))),
        decreases params.entries@.len() - i,
    {
        let ghost pre = params.pairs().subrange(0, i as int);
        let ghost e = params.pairs()[i as int];
        assert(params.pairs().subrange(0, i + 1) =~= pre.push(e));
        proof {
            lemma_pairs_to_map_push(pre, e.0, e.1);
        }
        match parse_decimal(params.entries[i].1.as_str()) {
            None => {
                proof {
                    crate::strmap::lemma_pairs_to_map_index(params.pairs(), i as int);
                }
                assert(params.map().contains_key(e.0));
                return None;
            },
            Some(n) => {
                r.insert(params.entries[i].0.clone(), n);
            },
        }
        i = i + 1;
        assert(r.map() =~= params_index(pairs_to_map(params.pairs().subrange(0, i as int))));
    }
    assert(params.pairs().subrange(0, i as int) =~= params.pairs());
    Some(r)
}

/// Writes each action of a plan by its name.
pub fn plan_to_params(plan: &StrMap<Action>) -> (r: StrMap<String>)
    requires
        plan.wf(),
    ensures
        r.wf(),
        r.map() == plan_params(plan.map()),
{
    let mut r: StrMap<String> = StrMap::new();
    let mut i: usize = 0;
    while i < plan.entries.len()
        invariant
            plan.wf(),
            r.wf(),
            0 <= i <= plan.entries@.len(),
            r.map() == plan_params(pairs_to_map(plan.pairs().subrange(0, i as int))),
        decreases plan.entries@.len() - i,
    {
        let ghost pre = plan.pairs().subrange(0, i as int);
        assert(plan.pairs().subrange(0, i + 1) =~= pre.push(plan.pairs()[i as int]));
        proof {
            lemma_pairs_to_map_push(pre, plan.pairs()[i as int].0, plan.pairs()[i as int].1);
        }
        r.insert(plan.entries[i].0.clone(), plan.entries[i].1.wire_name().to_owned());
        i = i + 1;
        assert(r.map() =~= plan_params(pairs_to_map(plan.pairs().subrange(0, i as int))));
    }
    assert(plan.pairs().subrange(0, i as int) =~= plan.pairs());
    r
}

/// A copy of an index, entry for entry.
pub fn copy_index(ix: &StrMap<u64>) -> (r: StrMap<u64>)
    ensures
        r.pairs() == ix.pairs(),
{
    let mut entries: Vec<(String, u64)> = Vec::new();
    let mut i: usize = 0;
    while i < ix.entries.len()
        invariant
            0 <= i <= ix.entries@.len(),
            entries@.map_values(|e: (String, u64)| (e.0@, e.1@)) == ix.pairs().subrange(0, i as int),
        decreases ix.entries@.len() - i,
    {
        let k = ix.entries[i].0.clone();
        let v = ix.entries[i].1;
        assert(k@ == ix.pairs()[i as int].0 && v@ == ix.pairs()[i as int].1);
        let ghost before = entries@;
        entries.push((k, v));
        assert(entries@.map_values(|e: (String, u64)| (e.0@, e.1@)) =~= before.map_values(
            |e: (String, u64)| (e.0@, e.1@),
        ).push(ix.pairs()[i as int]));
        i = i + 1;
    }
    assert(ix.pairs().subrange(0, i as int) =~= ix.pairs());
    StrMap { entries }
}

/// Merges `from` into `into`; the entries of `from` win.
pub fn merge_index(into: &mut StrMap<u64>, from: &StrMap<u64>)
    requires
        old(into).wf(),
        from.wf(),
    ensures
        final(into).wf(),
        final(into).map() == old(into).map().union_prefer_right(from.map()),
{
    let ghost start = into.map();
    let mut i: usize = 0;
    while i < from.entries.len()
        invariant
            from.wf(),
            into.wf(),
            start == old(into).map(),
            0 <= i <= from.entries@.len(),
            into.map() == start.union_prefer_right(pairs_to_map(from.pairs().subrange(0, i as int))),
        decreases from.entries@.len() - i,
    {
        let ghost sub = from.pairs().subrange(0, i + 1);
        assert(sub.drop_last() =~= from.pairs().subrange(0, i as int));
        into.insert(from.entries[i].0.clone(), from.entries[i].1);
        assert(into.map() =~= start.union_prefer_right(pairs_to_map(sub)));
        i = i + 1;
    }
    assert(from.pairs().subrange(0, i as int) =~= from.pairs());
}

} // verus!
