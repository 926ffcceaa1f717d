//! What holds of pages, page tables and page stores.
use candle_core::{DType, Device, Tensor};
use crane_oai::paged_kv::{
    build_right_aligned_head_major_batch, gather_head_major_layer_via_pages, PagedKvAllocator,
    PagedKvBatchPageTable, PagedKvGatherPlan, PagedKvGpuError, PagedKvGpuPageStore, PagedKvLayout,
    PagedKvNativeAppendPlan, PagedKvPageStore, PagedKvPlane, PagedKvSequence, PagedKvStorageError,
};

fn layout() -> PagedKvLayout {
    PagedKvLayout { num_layers: 2, num_kv_heads: 2, head_dim: 2, dtype_size_bytes: 2 }
}

fn grown(allocator: &mut PagedKvAllocator, tokens: usize) -> PagedKvSequence {
    let mut sequence = PagedKvSequence::new(4);
    allocator.ensure_token_len(&mut sequence, tokens);
    sequence
}

#[test]
fn live_pages_belong_to_one_sequence_each() {
    let mut allocator = PagedKvAllocator::new(4, layout());
    let mut first = grown(&mut allocator, 9);
    let second = grown(&mut allocator, 5);
    allocator.release_sequence(&mut first);
    let third = grown(&mut allocator, 6);
    let mut pages: Vec<u64> =
        second.blocks().iter().chain(third.blocks()).map(|block| block.id).collect();
    pages.sort();
    let live = pages.len() as u64;
    pages.dedup();
    assert_eq!(pages.len() as u64, live);
    assert_eq!(allocator.snapshot().live_pages, live);
    assert_eq!(allocator.snapshot().free_pages, 1);
}

#[test]
fn allocation_counts_balance() {
    let mut allocator = PagedKvAllocator::new(4, layout());
    let mut first = grown(&mut allocator, 9);
    allocator.release_sequence(&mut first);
    let _second = grown(&mut allocator, 5);
    let snapshot = allocator.snapshot();
    assert_eq!(
        snapshot.live_pages + snapshot.total_freed_pages,
        snapshot.total_alloc_pages + snapshot.total_reused_pages
    );
    assert_eq!(snapshot.reserved_bytes, 2 * allocator.bytes_per_block());
}

#[test]
fn written_tokens_read_back_and_leave_others_alone() {
    let mut allocator = PagedKvAllocator::new(4, layout());
    let first = grown(&mut allocator, 5);
    let second = grown(&mut allocator, 5);
    let mut store = PagedKvPageStore::<u32>::new(4, layout());
    store.write_token(&first, 4, 1, PagedKvPlane::Key, &[1, 2, 3, 4]).unwrap();
    store.write_token(&second, 4, 1, PagedKvPlane::Key, &[5, 6, 7, 8]).unwrap();
    store.write_token(&first, 4, 1, PagedKvPlane::Value, &[9, 9, 9, 9]).unwrap();
    let read = |sequence| store.read_token(sequence, 4, 1, PagedKvPlane::Key).unwrap();
    assert_eq!(read(&first), vec![1, 2, 3, 4]);
    assert_eq!(read(&second), vec![5, 6, 7, 8]);
    assert_eq!(
        store.read_token(&first, 4, 0, PagedKvPlane::Key).unwrap(),
        vec![0, 0, 0, 0]
    );
}

#[test]
fn every_storage_error_has_an_input() {
    let mut allocator = PagedKvAllocator::new(4, layout());
    let sequence = grown(&mut allocator, 5);
    let other = PagedKvSequence::new(8);
    let mut store = PagedKvPageStore::<u32>::new(4, layout());
    let key = PagedKvPlane::Key;
    assert_eq!(
        store.write_token(&other, 0, 0, key, &[0; 4]),
        Err(PagedKvStorageError::BlockSizeMismatch { storage_block_size: 4, sequence_block_size: 8 })
    );
    assert_eq!(
        store.write_token(&sequence, 0, 2, key, &[0; 4]),
        Err(PagedKvStorageError::InvalidLayer { layer: 2, num_layers: 2 })
    );
    assert_eq!(
        store.write_token(&sequence, 5, 0, key, &[0; 4]),
        Err(PagedKvStorageError::InvalidTokenIndex { token_index: 5, token_len: 5 })
    );
    assert_eq!(
        store.write_token(&sequence, 0, 0, key, &[0; 3]),
        Err(PagedKvStorageError::TokenWidthMismatch { expected: 4, actual: 3 })
    );
    assert_eq!(
        store.read_token(&sequence, 0, 0, key),
        Err(PagedKvStorageError::MissingPage { page_id: 1 })
    );
    assert_eq!(
        build_right_aligned_head_major_batch(layout(), &[3], 2, &[vec![0u32; 12]]),
        Err(PagedKvStorageError::SequenceTooLong { token_len: 3, max_len: 2 })
    );
    assert_eq!(
        gather_head_major_layer_via_pages(4, layout(), &[&sequence], 0, key, &[] as &[Vec<u32>], 5),
        Err(PagedKvStorageError::SequenceCountMismatch { expected: 1, actual: 0 })
    );
    let broken = PagedKvSequence { blocks: vec![], ..grown(&mut allocator, 3) };
    assert_eq!(
        broken.page_slot(1),
        Err(PagedKvStorageError::MissingBlock { token_index: 1, block_index: 0 })
    );
    let mut plan = PagedKvNativeAppendPlan::default();
    assert!(plan.push(u64::MAX, 0, 0, 0).is_err());
    assert!(plan.is_empty());
    assert_eq!(
        PagedKvStorageError::MissingPage { page_id: 7 }.message(),
        "paged KV page 7 is not initialized"
    );
    assert_eq!(
        PagedKvStorageError::InvalidLayer { layer: 2, num_layers: 2 }.message(),
        "paged KV layer 2 is outside 2 layers"
    );
}

#[test]
fn page_tables_begin_at_zero_and_end_at_their_length() {
    let mut allocator = PagedKvAllocator::new(4, layout());
    let first = grown(&mut allocator, 9);
    let second = grown(&mut allocator, 4);
    let table = PagedKvBatchPageTable::from_sequences(4, &[&first, &second]).unwrap();
    assert_eq!(table.indptr.first(), Some(&0));
    assert_eq!(*table.indptr.last().unwrap() as usize, table.indices.len());
    assert_eq!(table.last_page_lens, vec![1, 4]);
    assert!(PagedKvGatherPlan::from_optional_sequences(4, &[Some(&first)], 8).is_err());
}

#[test]
fn device_pages_grow_to_powers_of_two() {
    let mut store = PagedKvGpuPageStore::new(4, layout(), DType::BF16, &Device::Cpu);
    assert_eq!(store.zero_pages(&[1]), Vec::<u32>::new());
    assert!(store.fits(5));
    store.ensure_capacity(5).unwrap();
    assert_eq!(store.capacity_pages(), 8);
    assert_eq!(store.pages().unwrap().dims(), &[8, 2, 2, 4, 2, 2]);
    assert_eq!(store.page_values(), 2 * 2 * 4 * 2 * 2);
    assert_eq!(store.capacity_bytes(), 8 * layout().bytes_per_block(4));
    assert_eq!(store.zero_pages(&[0, 1, 9, 8]), vec![1, 8]);
    store.ensure_capacity(9).unwrap();
    assert_eq!(store.capacity_pages(), 16);
    assert_eq!(store.release_cached_storage(), 16);
    assert!(store.pages().is_none());
}

#[test]
fn device_page_errors() {
    let mut allocator = PagedKvAllocator::new(4, layout());
    let sequence = grown(&mut allocator, 5);
    let singles = PagedKvGpuPageStore::new(4, layout(), DType::F32, &Device::Cpu);
    assert!(matches!(
        singles.gather_layer_right_aligned(&[Some(&sequence)], 0, 5),
        Err(PagedKvGpuError::UnsupportedDtype)
    ));
    let mut store = PagedKvGpuPageStore::new(4, layout(), DType::BF16, &Device::Cpu);
    assert!(matches!(
        store.gather_layer_right_aligned(&[Some(&sequence)], 2, 5),
        Err(PagedKvGpuError::LayerOutOfRange { layer: 2, num_layers: 2 })
    ));
    assert!(matches!(
        store.gather_layer_right_aligned(&[Some(&sequence)], 0, 4),
        Err(PagedKvGpuError::Plan(PagedKvStorageError::SequenceTooLong { .. }))
    ));
    assert!(matches!(
        store.gather_layer_right_aligned(&[Some(&sequence)], 0, 5),
        Err(PagedKvGpuError::NotAllocated)
    ));
    let mut plan = PagedKvNativeAppendPlan::default();
    assert!(matches!(store.copy_layers_from_cache_buffers(&[], &plan), Ok(None)));
    plan.push(3, 0, 0, 0).unwrap();
    assert!(matches!(
        store.copy_layers_from_cache_buffers(&[], &plan),
        Err(PagedKvGpuError::LayerCountMismatch { expected: 2, actual: 0 })
    ));
    let tensor = Tensor::zeros((1, 2, 1, 2), DType::BF16, &Device::Cpu).unwrap();
    let buffers = vec![Some((tensor.clone(), tensor)), None];
    let copies = store.copy_layers_from_cache_buffers(&buffers, &plan).unwrap().unwrap();
    assert_eq!(copies.ready, 1);
    assert_eq!(store.capacity_pages(), 4);
    let gather = store.gather_layer_right_aligned(&[Some(&sequence), None], 0, 6).unwrap();
    assert_eq!(gather.plan.target_token_indices, vec![1, 2, 3, 4, 5]);
    assert!(gather.pages.is_some());
}

#[test]
fn compacting_twice_moves_nothing() {
    let mut allocator = PagedKvAllocator::new(4, layout());
    let mut gone = grown(&mut allocator, 9);
    let mut sequences = vec![grown(&mut allocator, 5), grown(&mut allocator, 9)];
    allocator.release_sequence(&mut gone);
    assert_eq!(allocator.compact_sequences(&mut sequences).moved_pages, 5);
    let pages = |sequences: &[PagedKvSequence]| -> Vec<u64> {
        sequences.iter().flat_map(|sequence| sequence.blocks()).map(|block| block.id).collect()
    };
    let before = pages(&sequences);
    let again = allocator.compact_sequences(&mut sequences);
    assert_eq!((again.live_pages, again.moved_pages, again.dropped_free_pages), (5, 0, 0));
    assert_eq!(pages(&sequences), before);
}

#[test]
fn growth_takes_no_more_pages_than_it_needs() {
    let mut allocator = PagedKvAllocator::new(4, layout());
    let mut sequence = PagedKvSequence::new(4);
    for tokens in [1, 4, 5, 8, 9] {
        allocator.ensure_token_len(&mut sequence, tokens);
        assert_eq!(sequence.blocks().len(), tokens.div_ceil(4));
    }
    let snapshot = allocator.snapshot();
    assert!(snapshot.free_pages + snapshot.total_reused_pages <= snapshot.total_freed_pages);
}

#[test]
fn slots_of_a_new_page_hold_defaults() {
    let mut allocator = PagedKvAllocator::new(4, layout());
    let sequence = grown(&mut allocator, 4);
    let mut store = PagedKvPageStore::<u32>::new(4, layout());
    let key = PagedKvPlane::Key;
    assert!(store.read_token(&sequence, 2, 0, key).is_err());
    store.write_token(&sequence, 1, 0, key, &[1, 2, 3, 4]).unwrap();
    assert_eq!(store.read_token(&sequence, 1, 0, key).unwrap(), vec![1, 2, 3, 4]);
    assert_eq!(store.read_token(&sequence, 2, 0, key).unwrap(), vec![0, 0, 0, 0]);
}

#[test]
fn gathered_cells_are_what_reading_gives() {
    let mut allocator = PagedKvAllocator::new(4, layout());
    let sequence = grown(&mut allocator, 5);
    let mut store = PagedKvPageStore::<u32>::new(4, layout());
    let key = PagedKvPlane::Key;
    for token in 0..5 {
        let base = 10 * token as u32;
        store.write_token(&sequence, token, 1, key, &[base, base + 1, base + 2, base + 3]).unwrap();
    }
    let gathered = store.gather_layer_right_aligned(&[&sequence], 1, 6, key).unwrap();
    for token in 0..5 {
        let read = store.read_token(&sequence, token, 1, key).unwrap();
        for head in 0..2 {
            let cell = (head * 6 + token + 1) * 2;
            assert_eq!(gathered[cell..cell + 2], read[head * 2..head * 2 + 2]);
        }
    }
    assert_eq!(gathered[..2], [0, 0]);
}
