use lumen::runtime::batches::{Batcher, OutputBatch, WorkBatch};

#[test]
fn work_batch_keeps_id_and_items() {
    let batch = WorkBatch::new(7, vec![1u8, 2, 3]);
    assert_eq!(batch.id, 7);
    assert_eq!(batch.items, vec![1, 2, 3]);
}

#[test]
fn work_batch_may_be_empty() {
    let batch: WorkBatch<u8> = WorkBatch::new(0, Vec::new());
    assert_eq!(batch.id, 0);
    assert!(batch.items.is_empty());
}

#[test]
fn output_batch_starts_empty() {
    let batch: OutputBatch<u8> = OutputBatch::new(9);
    assert_eq!(batch.id, 9);
    assert!(batch.items.is_empty());
}

#[test]
fn output_batch_gives_its_items_in_order() {
    let mut batch: OutputBatch<u32> = OutputBatch::new(2);
    batch.items.push(5);
    batch.items.push(6);
    batch.items.push(7);
    let borrowed: Vec<u32> = (&batch).into_iter().copied().collect();
    assert_eq!(borrowed, vec![5, 6, 7]);
    let owned: Vec<u32> = batch.into_iter().collect();
    assert_eq!(owned, vec![5, 6, 7]);
}

#[test]
fn create_batches_cuts_in_order() {
    let mut batcher = Batcher::new(vec![10u32, 11, 12, 13, 14, 15]);
    let batches = batcher.create_batches(3);
    assert_eq!(batches.len(), 3);
    assert_eq!(batches[0].id, 0);
    assert_eq!(batches[0].items, vec![10, 11]);
    assert_eq!(batches[1].id, 1);
    assert_eq!(batches[1].items, vec![12, 13]);
    assert_eq!(batches[2].id, 2);
    assert_eq!(batches[2].items, vec![14, 15]);
}

#[test]
fn create_batches_with_one_batch_keeps_everything_together() {
    let mut batcher = Batcher::new(vec!['a', 'b', 'c']);
    let batches = batcher.create_batches(1);
    assert_eq!(batches.len(), 1);
    assert_eq!(batches[0].id, 0);
    assert_eq!(batches[0].items, vec!['a', 'b', 'c']);
}

#[test]
fn create_batches_with_one_item_each() {
    let mut batcher = Batcher::new(vec![3u8, 1, 2]);
    let batches = batcher.create_batches(3);
    assert_eq!(batches.len(), 3);
    for k in 0..3 {
        assert_eq!(batches[k].id, k);
        assert_eq!(batches[k].items.len(), 1);
    }
    assert_eq!(batches[0].items[0], 3);
    assert_eq!(batches[1].items[0], 1);
    assert_eq!(batches[2].items[0], 2);
}

#[test]
fn create_batches_of_nothing_gives_empty_batches() {
    let mut batcher: Batcher<u64> = Batcher::new(Vec::new());
    let batches = batcher.create_batches(4);
    assert_eq!(batches.len(), 4);
    for k in 0..4 {
        assert_eq!(batches[k].id, k);
        assert!(batches[k].items.is_empty());
    }
}

#[test]
fn create_batches_leaves_the_batcher_empty() {
    let mut batcher = Batcher::new(vec![1u8, 2, 3, 4]);
    let first = batcher.create_batches(2);
    assert_eq!(first.len(), 2);
    let second = batcher.create_batches(2);
    assert_eq!(second.len(), 2);
    assert!(second[0].items.is_empty());
    assert!(second[1].items.is_empty());
}

#[test]
fn create_batches_joined_give_the_input_back() {
    let input: Vec<u32> = (0..60).collect();
    let mut batcher = Batcher::new(input.clone());
    let batches = batcher.create_batches(12);
    let mut joined = Vec::new();
    for batch in batches {
        assert_eq!(batch.items.len(), 5);
        joined.extend(batch.items);
    }
    assert_eq!(joined, input);
}
