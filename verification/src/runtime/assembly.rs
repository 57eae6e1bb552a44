use super::batches::{
    batch_size, divides_evenly, lemma_batches_cover, output_views, partition, BatchView,
    OutputBatch,
};
use vstd::prelude::*;

verus! {

/// The ids are pairwise different, and each is one of `0 .. count`.
pub open spec fn distinct_ids<U>(batches: Seq<BatchView<U>>, count: nat) -> bool {
    &&& forall|k: int| 0 <= k < batches.len() ==> 0 <= (#[trigger] batches[k]).id < count
    &&& forall|j: int, k: int|
        0 <= j < batches.len() && 0 <= k < batches.len() && j != k ==> (#[trigger] batches[j]).id
            != (#[trigger] batches[k]).id
}

/// The ids grow strictly along the sequence.
pub open spec fn ascending_ids<U>(batches: Seq<BatchView<U>>) -> bool {
    forall|j: int, k: int|
        0 <= j < k < batches.len() ==> (#[trigger] batches[j]).id < (#[trigger] batches[k]).id
}

/// Some batch carries `id`.
pub open spec fn has_id<U>(batches: Seq<BatchView<U>>, id: int) -> bool {
    exists|k: int| 0 <= k < batches.len() && (#[trigger] batches[k]).id == id
}

/// The items of the batch that carries `id`.
pub open spec fn items_with_id<U>(batches: Seq<BatchView<U>>, id: int) -> Seq<U> {
    let k = choose|k: int| 0 <= k < batches.len() && (#[trigger] batches[k]).id == id;
    batches[k].items
}

/// The batches' items, batch by batch, in the order of the ids `0, 1, 2, ..`,
/// whatever the order in which the batches came in.
pub open spec fn in_id_order<U>(batches: Seq<BatchView<U>>) -> Seq<Seq<U>> {
    Seq::new(batches.len(), |id: int| items_with_id(batches, id))
}

/// All items, joined in the order of the batch ids.
pub open spec fn assembled<U>(batches: Seq<BatchView<U>>) -> Seq<U> {
    in_id_order(batches).flatten()
}

proof fn lemma_id_at_least_position<U>(batches: Seq<BatchView<U>>, k: int)
    requires
        ascending_ids(batches),
        0 <= k < batches.len(),
        batches[0].id >= 0,
    ensures
        batches[k].id >= k,
    decreases k,
{
    if k > 0 {
        lemma_id_at_least_position(batches, k - 1);
    }
}

proof fn lemma_id_at_most_position<U>(batches: Seq<BatchView<U>>, k: int)
    requires
        ascending_ids(batches),
        0 <= k < batches.len(),
        batches[batches.len() - 1].id < batches.len(),
    ensures
        batches[k].id <= k,
    decreases batches.len() - k,
{
    if k < batches.len() - 1 {
        lemma_id_at_most_position(batches, k + 1);
    }
}

/// Batches in ascending order whose ids are among `0 .. len` stand each at
/// the position that its id names.
pub proof fn lemma_ascending_ids_are_positions<U>(batches: Seq<BatchView<U>>)
    requires
        ascending_ids(batches),
        forall|k: int| 0 <= k < batches.len() ==> 0 <= (#[trigger] batches[k]).id < batches.len(),
    ensures
        forall|k: int| 0 <= k < batches.len() ==> (#[trigger] batches[k]).id == k,
{
    assert forall|k: int| 0 <= k < batches.len() implies (#[trigger] batches[k]).id == k by {
        lemma_id_at_least_position(batches, k);
        lemma_id_at_most_position(batches, k);
    }
}

/// Where no id occurs twice and there are as many batches as ids, every id
/// occurs.
pub proof fn lemma_every_id_present<U>(batches: Seq<BatchView<U>>, count: nat)
    requires
        distinct_ids(batches, count),
        batches.len() == count,
    ensures
        forall|id: int| 0 <= id < count ==> #[trigger] has_id(batches, id),
{
    let ids = Seq::new(count, |k: int| batches[k].id);
    let range = vstd::set_lib::set_int_range(0, count as int);
    assert(ids.no_duplicates());
    ids.unique_seq_to_set();
    vstd::seq_lib::seq_to_set_is_finite(ids);
    vstd::set_lib::lemma_int_range(0, count as int);
    assert(ids.to_set().subset_of(range));
    vstd::set_lib::lemma_subset_equality(ids.to_set(), range);
    assert forall|id: int| 0 <= id < count implies #[trigger] has_id(batches, id) by {
        assert(range.contains(id));
    }
}

/// Joining parts of one length: the joined sequence has the parts' total
/// length, and item `j` of part `k` stands at `k * size + j`.
pub proof fn lemma_flatten_uniform<A>(parts: Seq<Seq<A>>, size: nat)
    requires
        forall|k: int| 0 <= k < parts.len() ==> (#[trigger] parts[k]).len() == size,
    ensures
        parts.flatten().len() == parts.len() * size,
        forall|k: int, j: int|
            0 <= k < parts.len() && 0 <= j < size ==> parts.flatten()[k * size + j]
                == #[trigger] parts[k][j],
    decreases parts.len(),
{
    if parts.len() == 0 {
        assert(parts.len() * size == 0) by (nonlinear_arith)
            requires
                parts.len() == 0,
        ;
    } else {
        let front = parts.drop_last();
        let last = parts.last();
        assert(parts =~= front.push(last));
        front.lemma_flatten_push(last);
        lemma_flatten_uniform(front, size);
        assert(parts.len() * size == front.len() * size + size) by (nonlinear_arith)
            requires
                parts.len() == front.len() + 1,
        ;
        assert forall|k: int, j: int| 0 <= k < parts.len() && 0 <= j < size implies parts.flatten()[k
            * size + j] == #[trigger] parts[k][j] by {
            if k < front.len() {
                assert(0 <= k * size && k * size + size <= front.len() * size)
                    by (nonlinear_arith)
                    requires
                        0 <= k < front.len(),
                ;
            }
        }
    }
}

/// Cutting keeps the order within and across the batches: the batches of a
/// partition, assembled, are the sequence that was cut.
pub proof fn lemma_partition_assembles_back<T>(items: Seq<T>, batch_count: nat)
    requires
        divides_evenly(items.len(), batch_count),
    ensures
        assembled(partition(items, batch_count)) == items,
{
    let slices = partition(items, batch_count);
    let size = batch_size(items.len(), batch_count);
    let parts = in_id_order(slices);
    lemma_batches_cover(items.len(), batch_count, 0);
    assert forall|id: int| 0 <= id < batch_count implies #[trigger] parts[id]
        == slices[id].items by {
        assert(slices[id].id == id);
        let k = choose|k: int| 0 <= k < slices.len() && (#[trigger] slices[k]).id == id;
        assert(slices[k].id == k);
    }
    assert forall|id: int| 0 <= id < batch_count implies (#[trigger] parts[id]).len()
        == size by {
        lemma_batches_cover(items.len(), batch_count, id);
    }
    lemma_flatten_uniform(parts, size as nat);
    assert(parts.len() * size == size * batch_count) by (nonlinear_arith)
        requires
            parts.len() == batch_count,
    ;
    assert forall|i: int| 0 <= i < items.len() implies assembled(slices)[i] == items[i] by {
        let id = i / size;
        let j = i % size;
        vstd::arithmetic::div_mod::lemma_fundamental_div_mod(i, size);
        assert(0 <= id < batch_count) by (nonlinear_arith)
            requires
                0 <= i < size * batch_count,
                size > 0,
                id == i / size,
        ;
        lemma_batches_cover(items.len(), batch_count, id);
        assert(assembled(slices)[id * size + j] == parts[id][j]);
    }
    assert(assembled(slices) =~= items);
}

/// Sorts the batches by id.
fn sort_by_id<U>(batches: Vec<OutputBatch<U>>) -> (sorted: Vec<OutputBatch<U>>)
    requires
        distinct_ids(output_views(batches@), batches@.len()),
    ensures
        sorted@.len() == batches@.len(),
        forall|i: int|
            0 <= i < sorted@.len() ==> (#[trigger] sorted@[i])@.items == items_with_id(
                output_views(batches@),
                i,
            ),
{
    let ghost all = output_views(batches@);
    let mut rest = batches;
    let mut sorted: Vec<OutputBatch<U>> = Vec::new();
    let ghost mut origin: Seq<int> = Seq::empty();
    while rest.len() > 0
        invariant
            distinct_ids(all, all.len()),
            rest@.len() <= all.len(),
            output_views(rest@) == all.subrange(0, rest@.len() as int),
            sorted@.len() + rest@.len() == all.len(),
            ascending_ids(output_views(sorted@)),
            origin.len() == sorted@.len(),
            forall|i: int|
                0 <= i < sorted@.len() ==> rest@.len() <= #[trigger] origin[i] < all.len()
                    && all[origin[i]] == sorted@[i]@,
        decreases rest@.len(),
    {
        let ghost r = rest@.len() - 1;
        let ghost rest_before = output_views(rest@);
        match rest.pop() {
            Some(batch) => {
                assert(batch@ == rest_before[r]);
                let mut p: usize = 0;
                while p < sorted.len() && sorted[p].id < batch.id
                    invariant
                        0 <= p <= sorted@.len(),
                        forall|i: int| 0 <= i < p ==> (#[trigger] sorted@[i]).id < batch.id,
                    decreases sorted@.len() - p,
                {
                    p += 1;
                }
                let ghost before = sorted@;
                let ghost origin_before = origin;
                assert forall|i: int| p <= i < before.len() implies batch.id < (
                #[trigger] before[i]).id by {
                    assert(all[origin_before[i]] == before[i]@);
                    if i > p {
                        assert(output_views(before)[p as int].id < output_views(before)[i].id);
                    }
                }
                sorted.insert(p, batch);
                proof {
                    origin = origin_before.insert(p as int, r);
                    let views = output_views(sorted@);
                    assert forall|j: int, k: int| 0 <= j < k < views.len() implies (
                    #[trigger] views[j]).id < (#[trigger] views[k]).id by {
                        let old_views = output_views(before);
                        if j < p && k > p {
                            assert(views[j] == old_views[j]);
                            if j < k - 1 {
                                assert(old_views[j].id < old_views[k - 1].id);
                            }
                        } else if j < p && k < p {
                            assert(views[k] == old_views[k]);
                        } else if j > p {
                            assert(views[j] == old_views[j - 1]);
                        }
                    }
                }
            },
            None => {},
        }
    }
    proof {
        let views = output_views(sorted@);
        assert forall|k: int| 0 <= k < views.len() implies 0 <= (#[trigger] views[k]).id
            < views.len() by {
            assert(all[origin[k]] == sorted@[k]@);
        }
        lemma_ascending_ids_are_positions(views);
        assert forall|i: int| 0 <= i < sorted@.len() implies (#[trigger] sorted@[i])@.items
            == items_with_id(all, i) by {
            assert(views[i].id == i);
            assert(all[origin[i]] == sorted@[i]@);
        }
    }
    sorted
}

/// Puts the results back into input order: the batches are sorted by id and
/// their items joined, whatever the order in which the batches came in.
pub fn assemble<U>(batches: Vec<OutputBatch<U>>) -> (items: Vec<U>)
    requires
        distinct_ids(output_views(batches@), batches@.len()),
    ensures
        items@ == assembled(output_views(batches@)),
{
    let ghost all = output_views(batches@);
    let ghost parts = in_id_order(all);
    let sorted = sort_by_id(batches);
    let ghost sorted_seq = sorted@;
    let mut items: Vec<U> = Vec::new();
    for batch in it: sorted
        invariant
            it.seq() == sorted_seq,
            sorted_seq.len() == parts.len(),
            parts == in_id_order(all),
            forall|i: int|
                0 <= i < sorted_seq.len() ==> (#[trigger] sorted_seq[i])@.items == parts[i],
            items@ == parts.subrange(0, it.index() as int).flatten(),
    {
        let ghost done = it.index() as int;
        let mut batch = batch;
        items.append(&mut batch.items);
        proof {
            assert(parts.subrange(0, done + 1) =~= parts.subrange(0, done).push(parts[done]));
            parts.subrange(0, done).lemma_flatten_push(parts[done]);
        }
    }
    assert(parts.subrange(0, parts.len() as int) =~= parts);
    items
}

} // verus!
