use cosmwasm_std::testing::MockStorage;
use cosmwasm_std::Storage as _;
use shade_storage::{empty_storage, AppendStore, Borsh, DequeStore, Json, Serde, StoreError};

type StdResult<T> = Result<T, StoreError>;

fn collect(store: &mut DequeStore<i32>, storage: &MockStorage) -> Vec<i32> {
    let mut cursor = store.iter(storage).unwrap();
    let mut out = Vec::new();
    while let Some(item) = cursor.next() {
        out.push(item.unwrap());
    }
    out
}

fn stored_u32(storage: &MockStorage, key: &[u8]) -> Option<u32> {
    storage
        .get(key)
        .map(|bytes| u32::from_be_bytes([bytes[0], bytes[1], bytes[2], bytes[3]]))
}

#[test]
fn pushes_at_both_ends_iterate_in_logical_order() -> StdResult<()> {
    let mut storage = MockStorage::new();
    let mut store: DequeStore<i32> = DequeStore::new("order");
    let mut expected: std::collections::VecDeque<i32> = std::collections::VecDeque::new();
    for i in 0..40 {
        if i % 3 == 0 {
            store.push_back(&mut storage, &i)?;
            expected.push_back(i);
        } else {
            store.push_front(&mut storage, &i)?;
            expected.push_front(i);
        }
    }
    // the head has stepped back past zero more than once by now
    assert!(store.cached_off().unwrap() > u32::MAX - 40);
    assert_eq!(collect(&mut store, &storage), Vec::from(expected));
    Ok(())
}

#[test]
fn offset_wraps_around_the_index_space() -> StdResult<()> {
    let mut storage = MockStorage::new();
    let mut store: DequeStore<i32> = DequeStore::new("wrap");
    store.push_front(&mut storage, &7)?;
    assert_eq!(store.get_off(&storage)?, u32::MAX);
    assert_eq!(stored_u32(&storage, b"wrapoff"), Some(u32::MAX));
    // the item lives in the slot with the largest index
    let key = [b"wrap".as_slice(), &u32::MAX.to_be_bytes()].concat();
    assert_eq!(storage.get(&key), Some(b"7".to_vec()));
    store.push_back(&mut storage, &8)?;
    // position one wraps to slot zero
    let key = [b"wrap".as_slice(), &0u32.to_be_bytes()].concat();
    assert_eq!(storage.get(&key), Some(b"8".to_vec()));
    assert_eq!(store.pop_front(&mut storage), Ok(7));
    assert_eq!(store.get_off(&storage)?, 0);
    assert_eq!(store.get_at(&storage, 0), Ok(8));
    Ok(())
}

#[test]
fn push_back_then_pop_back_gives_the_item_and_keeps_the_length() -> StdResult<()> {
    let mut storage = MockStorage::new();
    let mut store: DequeStore<i32> = DequeStore::new("pp");
    store.push_front(&mut storage, &1)?;
    store.push_back(&mut storage, &2)?;
    let before = store.get_len(&storage)?;
    store.push_back(&mut storage, &-77)?;
    assert_eq!(store.pop_back(&mut storage), Ok(-77));
    assert_eq!(store.get_len(&storage)?, before);
    assert_eq!(collect(&mut store, &storage), vec![1, 2]);
    Ok(())
}

#[test]
fn get_at_is_bounded_by_the_length() -> StdResult<()> {
    let mut storage = MockStorage::new();
    let mut deque: DequeStore<i32> = DequeStore::new("d");
    let mut list: AppendStore<i32> = AppendStore::new("l");
    assert_eq!(deque.get_at(&storage, 0), Err(StoreError::Bounds));
    assert_eq!(list.get_at(&storage, 0), Err(StoreError::Bounds));
    for i in 0..3 {
        deque.push_back(&mut storage, &(10 + i))?;
        list.push(&mut storage, &(20 + i))?;
    }
    for pos in 0..3u32 {
        assert_eq!(deque.get_at(&storage, pos), Ok(10 + pos as i32));
        assert_eq!(list.get_at(&storage, pos), Ok(20 + pos as i32));
    }
    // the position that equals the length is out of bounds for both stores
    assert_eq!(deque.get_at(&storage, 3), Err(StoreError::Bounds));
    assert_eq!(list.get_at(&storage, 3), Err(StoreError::Bounds));
    assert_eq!(deque.get_at(&storage, u32::MAX), Err(StoreError::Bounds));
    assert_eq!(list.get_at(&storage, u32::MAX), Err(StoreError::Bounds));
    assert_eq!(deque.set_at(&mut storage, 3, &0), Err(StoreError::Bounds));
    assert_eq!(list.set_at(&mut storage, 3, &0), Err(StoreError::Bounds));
    deque.set_at(&mut storage, 1, &99)?;
    list.set_at(&mut storage, 1, &98)?;
    assert_eq!(deque.get_at(&storage, 1), Ok(99));
    assert_eq!(list.get_at(&storage, 1), Ok(98));
    Ok(())
}

#[test]
fn removal_near_the_head_shifts_from_the_head() -> StdResult<()> {
    let mut storage = MockStorage::new();
    let mut store: DequeStore<i32> = DequeStore::new("s");
    store.push_front(&mut storage, &2)?;
    store.push_back(&mut storage, &3)?;
    store.push_back(&mut storage, &4)?;
    store.push_front(&mut storage, &1)?;
    assert_eq!(collect(&mut store, &storage), vec![1, 2, 3, 4]);
    let off_before = store.get_off(&storage)?;
    assert_eq!(off_before, u32::MAX - 1);

    assert_eq!(store.remove(&mut storage, 1), Ok(2));

    assert_eq!(collect(&mut store, &storage), vec![1, 3, 4]);
    assert_eq!(store.get_len(&storage)?, 3);
    // the head moved: the offset stepped on and the first item went into
    // the slot that held the removed one
    assert_eq!(store.get_off(&storage)?, u32::MAX);
    assert_eq!(stored_u32(&storage, b"soff"), Some(u32::MAX));
    let key = [b"s".as_slice(), &u32::MAX.to_be_bytes()].concat();
    assert_eq!(storage.get(&key), Some(b"1".to_vec()));
    Ok(())
}

#[test]
fn removal_at_equal_distance_shifts_from_the_head() -> StdResult<()> {
    let mut storage = MockStorage::new();
    let mut store: DequeStore<i32> = DequeStore::new("t");
    for i in 0..4 {
        store.push_back(&mut storage, &i)?;
    }
    // position 2 of 4: two steps from the tail end, two from the head
    assert_eq!(store.remove(&mut storage, 2), Ok(2));
    assert_eq!(store.get_off(&storage)?, 1);
    assert_eq!(collect(&mut store, &storage), vec![0, 1, 3]);
    Ok(())
}

#[test]
fn removal_near_the_tail_shifts_from_the_tail() -> StdResult<()> {
    let mut storage = MockStorage::new();
    let mut store: DequeStore<i32> = DequeStore::new("u");
    for i in 0..5 {
        store.push_back(&mut storage, &i)?;
    }
    // position 3 of 5: two steps from the tail end, three from the head
    assert_eq!(store.remove(&mut storage, 3), Ok(3));
    assert_eq!(store.get_off(&storage)?, 0);
    assert_eq!(collect(&mut store, &storage), vec![0, 1, 2, 4]);
    // the vacated last slot keeps its bytes
    let key = [b"u".as_slice(), &4u32.to_be_bytes()].concat();
    assert_eq!(storage.get(&key), Some(b"4".to_vec()));
    Ok(())
}

#[test]
fn clear_resets_the_counters_and_puts_every_position_out_of_bounds() -> StdResult<()> {
    let mut storage = MockStorage::new();
    let mut deque: DequeStore<i32> = DequeStore::new("c");
    let mut list: AppendStore<i32> = AppendStore::new("k");
    for i in 0..5 {
        deque.push_front(&mut storage, &i)?;
        list.push(&mut storage, &i)?;
    }
    deque.remove(&mut storage, 2)?;
    deque.clear(&mut storage);
    list.clear(&mut storage);
    assert_eq!(deque.get_len(&storage)?, 0);
    assert_eq!(deque.get_off(&storage)?, 0);
    assert_eq!(list.get_len(&storage)?, 0);
    assert_eq!(deque.is_empty(&storage), Ok(true));
    assert_eq!(list.is_empty(&storage), Ok(true));
    for pos in 0..6u32 {
        assert_eq!(deque.get_at(&storage, pos), Err(StoreError::Bounds));
        assert_eq!(list.get_at(&storage, pos), Err(StoreError::Bounds));
    }
    assert_eq!(deque.pop_front(&mut storage), Err(StoreError::EmptyCollection));
    assert_eq!(deque.pop_back(&mut storage), Err(StoreError::EmptyCollection));
    assert_eq!(list.pop(&mut storage), Err(StoreError::EmptyCollection));
    // the counters are written, not deleted
    assert_eq!(stored_u32(&storage, b"clen"), Some(0));
    assert_eq!(stored_u32(&storage, b"coff"), Some(0));
    assert_eq!(stored_u32(&storage, b"klen"), Some(0));
    deque.push_back(&mut storage, &42)?;
    list.push(&mut storage, &43)?;
    assert_eq!(deque.get_at(&storage, 0), Ok(42));
    assert_eq!(list.get_at(&storage, 0), Ok(43));
    assert_eq!(deque.get_at(&storage, 1), Err(StoreError::Bounds));
    Ok(())
}

#[test]
fn a_second_handle_keeps_its_stale_length() -> StdResult<()> {
    let mut storage = MockStorage::new();
    let mut a: DequeStore<i32> = DequeStore::new("shared");
    let mut b: DequeStore<i32> = DequeStore::new("shared");
    // B reads the length before A writes
    assert_eq!(b.get_len(&storage)?, 0);
    a.push_back(&mut storage, &5)?;
    assert_eq!(a.get_len(&storage)?, 1);
    // B still goes by what it remembers
    assert_eq!(b.get_len(&storage)?, 0);
    assert_eq!(b.cached_len(), Some(0));
    assert_eq!(b.get_at(&storage, 0), Err(StoreError::Bounds));
    // a handle that remembers nothing reads the substrate again
    let mut fresh = b.clone();
    assert_eq!(fresh.cached_len(), None);
    assert_eq!(fresh.get_len(&storage)?, 1);
    assert_eq!(fresh.get_at(&storage, 0), Ok(5));

    let mut la: AppendStore<i32> = AppendStore::new("shared_list");
    let mut lb: AppendStore<i32> = AppendStore::new("shared_list");
    assert_eq!(lb.get_len(&storage)?, 0);
    la.push(&mut storage, &6)?;
    assert_eq!(lb.get_len(&storage)?, 0);
    assert_eq!(lb.clone().get_len(&storage)?, 1);
    Ok(())
}

#[test]
fn pages_in_order_give_every_item_once() -> StdResult<()> {
    let mut storage = MockStorage::new();
    let mut store: DequeStore<u32> = DequeStore::new("pg");
    for i in 0..23u32 {
        if i % 2 == 0 {
            store.push_back(&mut storage, &i)?;
        } else {
            store.push_front(&mut storage, &i)?;
        }
    }
    let mut cursor = store.iter(&storage)?;
    let mut all = Vec::new();
    while let Some(item) = cursor.next() {
        all.push(item?);
    }
    assert_eq!(all.len(), 23);
    for size in [1u32, 4, 5, 23, 24, 100] {
        let mut joined = Vec::new();
        let mut page = 0u32;
        loop {
            let items = store.paging(&storage, page, size)?;
            let lo = ((page * size) as usize).min(all.len());
            let hi = (lo + size as usize).min(all.len());
            assert_eq!(items, all[lo..hi].to_vec());
            if items.is_empty() {
                break;
            }
            joined.extend(items);
            page += 1;
        }
        assert_eq!(joined, all);
    }
    assert_eq!(store.paging(&storage, 0, 0)?, Vec::<u32>::new());
    assert_eq!(store.paging(&storage, 3, 0)?, Vec::<u32>::new());
    assert_eq!(store.paging(&storage, u32::MAX, u32::MAX)?, Vec::<u32>::new());
    assert_eq!(store.paging(&storage, 2, 10)?, all[20..23].to_vec());
    Ok(())
}

#[test]
fn codecs_read_back_what_they_wrote() {
    for x in [0i32, 1, -1, 9, 10, -10, 1234, i32::MAX, i32::MIN] {
        let bytes = <Borsh as Serde<i32>>::serialize(&x).unwrap();
        assert_eq!(bytes, x.to_le_bytes().to_vec());
        assert_eq!(<Borsh as Serde<i32>>::deserialize(&bytes), Ok(x));
        let text = <Json as Serde<i32>>::serialize(&x).unwrap();
        assert_eq!(text, x.to_string().into_bytes());
        assert_eq!(<Json as Serde<i32>>::deserialize(&text), Ok(x));
    }
    for x in [0u32, 7, 10, 99, 100, 4321, u32::MAX] {
        let bytes = <Borsh as Serde<u32>>::serialize(&x).unwrap();
        assert_eq!(bytes, x.to_le_bytes().to_vec());
        assert_eq!(<Borsh as Serde<u32>>::deserialize(&bytes), Ok(x));
        let text = <Json as Serde<u32>>::serialize(&x).unwrap();
        assert_eq!(text, x.to_string().into_bytes());
        assert_eq!(<Json as Serde<u32>>::deserialize(&text), Ok(x));
    }
    assert_eq!(
        <Borsh as Serde<i32>>::serialize(&1234).unwrap(),
        vec![210, 4, 0, 0]
    );
    assert_eq!(<Json as Serde<i32>>::serialize(&-1234).unwrap(), b"-1234".to_vec());
}

#[test]
fn codecs_report_bytes_that_stand_for_nothing() {
    assert!(matches!(
        <Borsh as Serde<u32>>::deserialize(&[1, 2, 3]),
        Err(StoreError::Codec { .. })
    ));
    assert!(matches!(
        <Borsh as Serde<i32>>::deserialize(&[1, 2, 3, 4, 5]),
        Err(StoreError::Codec { .. })
    ));
    assert!(matches!(
        <Json as Serde<u32>>::deserialize(b"-1"),
        Err(StoreError::Codec { .. })
    ));
    assert!(matches!(
        <Json as Serde<i32>>::deserialize(b"12a"),
        Err(StoreError::Codec { .. })
    ));
    assert!(matches!(
        <Json as Serde<u32>>::deserialize(b"4294967296"),
        Err(StoreError::Codec { .. })
    ));
    match <Json as Serde<u32>>::deserialize(b"") {
        Err(StoreError::Codec { target, .. }) => assert_eq!(target, "u32"),
        other => panic!("unexpected {:?}", other),
    }
}

#[test]
fn a_counter_of_the_wrong_size_is_reported() {
    let mut storage = MockStorage::new();
    storage.set(b"badlen", b"123");
    let mut list: AppendStore<i32> = AppendStore::new("bad");
    match list.get_len(&storage) {
        Err(StoreError::Codec { target, .. }) => assert_eq!(target, "u32"),
        other => panic!("unexpected {:?}", other),
    }
    assert_eq!(list.cached_len(), None);
    assert!(matches!(
        list.push(&mut storage, &1),
        Err(StoreError::Codec { .. })
    ));
    let mut deque: DequeStore<i32> = DequeStore::new("bad");
    assert!(matches!(
        deque.push_back(&mut storage, &1),
        Err(StoreError::Codec { .. })
    ));
    storage.set(b"worseoff", b"12345");
    let mut worse: DequeStore<i32> = DequeStore::new("worse");
    assert_eq!(worse.get_len(&storage), Ok(0));
    assert!(matches!(
        worse.get_off(&storage),
        Err(StoreError::Codec { .. })
    ));
    assert!(matches!(
        worse.push_front(&mut storage, &1),
        Err(StoreError::Codec { .. })
    ));
}

#[test]
fn a_missing_or_unreadable_slot_is_reported() -> StdResult<()> {
    let mut storage = MockStorage::new();
    let mut list: AppendStore<i32> = AppendStore::new("m");
    list.push(&mut storage, &1)?;
    list.push(&mut storage, &2)?;
    list.push(&mut storage, &3)?;
    let key = [b"m".as_slice(), &1u32.to_be_bytes()].concat();
    storage.remove(&key);
    match list.get_at(&storage, 1) {
        Err(StoreError::NotFound { kind }) => assert_eq!(kind, "i32"),
        other => panic!("unexpected {:?}", other),
    }
    storage.set(&key, b"xy");
    match list.get_at(&storage, 1) {
        Err(StoreError::Codec { target, .. }) => assert_eq!(target, "i32"),
        other => panic!("unexpected {:?}", other),
    }
    // the removal stops at the slot it cannot move and keeps the length
    assert!(list.remove(&mut storage, 0).is_err());
    assert_eq!(list.get_len(&storage)?, 3);
    // the last item can still be taken off
    assert_eq!(list.pop(&mut storage), Ok(3));
    // popping an unreadable slot fails and still shortens the list
    assert!(matches!(
        list.pop(&mut storage),
        Err(StoreError::Codec { .. })
    ));
    assert_eq!(list.get_len(&storage)?, 1);
    Ok(())
}

#[test]
fn cursor_steps_saturate() -> StdResult<()> {
    let mut storage = MockStorage::new();
    let mut store: DequeStore<i32> = DequeStore::new("cur");
    for i in 0..6 {
        store.push_back(&mut storage, &i)?;
    }
    let mut cursor = store.iter(&storage)?;
    assert_eq!(cursor.size_hint(), (6, Some(6)));
    assert_eq!(cursor.nth(2), Some(Ok(2)));
    assert_eq!(cursor.nth_back(1), Some(Ok(4)));
    assert_eq!(cursor.size_hint(), (1, Some(1)));
    assert_eq!(cursor.next_back(), Some(Ok(3)));
    assert_eq!(cursor.next(), None);
    assert_eq!(cursor.next_back(), None);
    let mut cursor = store.iter(&storage)?;
    assert_eq!(cursor.nth(usize::MAX), None);
    assert_eq!(cursor.size_hint(), (0, Some(0)));
    let mut cursor = store.iter(&storage)?;
    assert_eq!(cursor.nth_back(usize::MAX), None);
    assert_eq!(cursor.next(), None);
    Ok(())
}

#[test]
fn a_removal_stops_at_the_first_item_that_cannot_move() -> StdResult<()> {
    let mut storage = MockStorage::new();
    let mut list: AppendStore<i32> = AppendStore::new("stuck");
    for i in 0..5 {
        list.push(&mut storage, &(10 + i))?;
    }
    let key = [b"stuck".as_slice(), &3u32.to_be_bytes()].concat();
    storage.set(&key, b"xy");
    // position 1 receives the item of position 2; position 2 would receive
    // the item of position 3, which cannot be read
    assert!(matches!(
        list.remove(&mut storage, 1),
        Err(StoreError::Codec { .. })
    ));
    assert_eq!(list.get_len(&storage)?, 5);
    assert_eq!(list.get_at(&storage, 0), Ok(10));
    assert_eq!(list.get_at(&storage, 1), Ok(12));
    assert_eq!(list.get_at(&storage, 2), Ok(12));
    assert_eq!(list.get_at(&storage, 4), Ok(14));
    assert_eq!(stored_u32(&storage, b"stucklen"), Some(5));

    let mut queue: DequeStore<i32> = DequeStore::new("held");
    for i in 0..6 {
        queue.push_back(&mut storage, &(20 + i))?;
    }
    let key = [b"held".as_slice(), &0u32.to_be_bytes()].concat();
    storage.remove(&key);
    // position 2 is nearer to the head: position 1 moves into it, then
    // position 0 cannot be found
    match queue.remove(&mut storage, 2) {
        Err(StoreError::NotFound { kind }) => assert_eq!(kind, "i32"),
        other => panic!("unexpected {:?}", other),
    }
    assert_eq!(queue.get_len(&storage)?, 6);
    assert_eq!(queue.get_off(&storage)?, 0);
    assert_eq!(queue.get_at(&storage, 1), Ok(21));
    assert_eq!(queue.get_at(&storage, 2), Ok(21));
    assert_eq!(queue.get_at(&storage, 3), Ok(23));
    // where only the removed item cannot be read, the gap is closed
    assert!(matches!(
        queue.remove(&mut storage, 0),
        Err(StoreError::NotFound { .. })
    ));
    assert_eq!(queue.get_len(&storage)?, 5);
    assert_eq!(queue.get_off(&storage)?, 1);
    assert_eq!(queue.get_at(&storage, 0), Ok(21));
    Ok(())
}

#[test]
fn a_page_fails_with_its_first_unreadable_item() -> StdResult<()> {
    let mut storage = MockStorage::new();
    let mut queue: DequeStore<u32> = DequeStore::new("pages");
    for i in 0..10u32 {
        queue.push_back(&mut storage, &i)?;
    }
    let key = [b"pages".as_slice(), &6u32.to_be_bytes()].concat();
    storage.remove(&key);
    let key = [b"pages".as_slice(), &7u32.to_be_bytes()].concat();
    storage.set(&key, b"seven");
    assert_eq!(queue.paging(&storage, 0, 5)?, vec![0, 1, 2, 3, 4]);
    match queue.paging(&storage, 1, 5) {
        Err(StoreError::NotFound { kind }) => assert_eq!(kind, "u32"),
        other => panic!("unexpected {:?}", other),
    }
    assert!(matches!(
        queue.paging(&storage, 7, 1),
        Err(StoreError::Codec { .. })
    ));
    assert_eq!(queue.paging(&storage, 4, 2)?, vec![8, 9]);
    Ok(())
}

#[test]
fn wide_items_are_kept_as_eight_bytes() -> StdResult<()> {
    let mut storage = MockStorage::new();
    let mut queue: DequeStore<u64, Borsh> = DequeStore::new("wide");
    queue.push_back(&mut storage, &1)?;
    queue.push_front(&mut storage, &u64::MAX)?;
    assert_eq!(queue.get_at(&storage, 0), Ok(u64::MAX));
    assert_eq!(queue.get_at(&storage, 1), Ok(1));
    let key = [b"wide".as_slice(), &u32::MAX.to_be_bytes()].concat();
    assert_eq!(storage.get(&key), Some(vec![0xff; 8]));
    let bytes = <Borsh as Serde<u64>>::serialize(&0x0102_0304_0506_0708).unwrap();
    assert_eq!(bytes, vec![8, 7, 6, 5, 4, 3, 2, 1]);
    assert_eq!(
        <Borsh as Serde<u64>>::deserialize(&bytes),
        Ok(0x0102_0304_0506_0708)
    );
    assert!(matches!(
        <Borsh as Serde<u64>>::deserialize(&bytes[..7]),
        Err(StoreError::Codec { .. })
    ));
    Ok(())
}

#[test]
fn an_empty_storage_holds_nothing() -> StdResult<()> {
    let mut storage = empty_storage();
    assert_eq!(shade_storage::Storage::get(&storage, b"anylen"), None);
    assert_eq!(shade_storage::Storage::get(&storage, b""), None);
    let mut queue: DequeStore<i32> = DequeStore::new("any");
    assert_eq!(queue.get_len(&storage)?, 0);
    assert_eq!(queue.get_off(&storage)?, 0);
    queue.push_back(&mut storage, &1)?;
    assert_eq!(shade_storage::Storage::get(&storage, b"anylen"), Some(vec![0, 0, 0, 1]));
    shade_storage::Storage::remove(&mut storage, b"anylen");
    assert_eq!(shade_storage::Storage::get(&storage, b"anylen"), None);
    Ok(())
}

#[test]
fn paging_leaves_the_offset_with_the_handle() -> StdResult<()> {
    let mut storage = MockStorage::new();
    let mut writer: DequeStore<i32> = DequeStore::new("seen");
    writer.push_front(&mut storage, &2)?;
    writer.push_front(&mut storage, &1)?;
    let mut reader: DequeStore<i32> = DequeStore::new("seen");
    assert_eq!(reader.cached_off(), None);
    // a page without a position to read looks up the length alone
    assert_eq!(reader.paging(&storage, 5, 2)?, Vec::<i32>::new());
    assert_eq!(reader.cached_len(), Some(2));
    assert_eq!(reader.cached_off(), None);
    assert_eq!(reader.paging(&storage, 0, 2)?, vec![1, 2]);
    assert_eq!(reader.cached_off(), Some(u32::MAX - 1));
    // a cursor keeps what it looks up to itself
    let mut other: DequeStore<i32> = DequeStore::new("seen");
    {
        let mut cursor = other.iter(&storage)?;
        assert_eq!(cursor.next(), Some(Ok(1)));
    }
    assert_eq!(other.cached_len(), Some(2));
    assert_eq!(other.cached_off(), None);
    Ok(())
}
