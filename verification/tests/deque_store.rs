use cosmwasm_std::testing::MockStorage;
use cosmwasm_std::Storage as _;
use shade_storage::{DequeStore, DequeStoreIter, Json, Serde, StoreError};

type StdResult<T> = Result<T, StoreError>;

/// The cursor of a deque store as a standard iterator.
struct Iter<'a, T, Ser>(DequeStoreIter<'a, T, Ser, MockStorage>);

impl<'a, T, Ser: Serde<T>> Iterator for Iter<'a, T, Ser> {
    type Item = StdResult<T>;

    fn next(&mut self) -> Option<Self::Item> {
        self.0.next()
    }

    fn size_hint(&self) -> (usize, Option<usize>) {
        self.0.size_hint()
    }

    fn nth(&mut self, n: usize) -> Option<Self::Item> {
        self.0.nth(n)
    }
}

impl<'a, T, Ser: Serde<T>> DoubleEndedIterator for Iter<'a, T, Ser> {
    fn next_back(&mut self) -> Option<Self::Item> {
        self.0.next_back()
    }

    fn nth_back(&mut self, n: usize) -> Option<Self::Item> {
        self.0.nth_back(n)
    }
}

impl<'a, T, Ser: Serde<T>> ExactSizeIterator for Iter<'a, T, Ser> {}

#[test]
fn test_pushs_pops() -> StdResult<()> {
    let mut storage = MockStorage::new();
    let mut deque_store: DequeStore<i32> = DequeStore::new("test");
    deque_store.push_front(&mut storage, &4)?;
    deque_store.push_back(&mut storage, &5)?;
    deque_store.push_front(&mut storage, &3)?;
    deque_store.push_back(&mut storage, &6)?;
    deque_store.push_front(&mut storage, &2)?;
    deque_store.push_back(&mut storage, &7)?;
    deque_store.push_front(&mut storage, &1)?;
    deque_store.push_back(&mut storage, &8)?;

    assert_eq!(deque_store.pop_front(&mut storage), Ok(1));
    assert_eq!(deque_store.pop_back(&mut storage), Ok(8));
    assert_eq!(deque_store.pop_front(&mut storage), Ok(2));
    assert_eq!(deque_store.pop_back(&mut storage), Ok(7));
    assert_eq!(deque_store.pop_front(&mut storage), Ok(3));
    assert_eq!(deque_store.pop_back(&mut storage), Ok(6));
    assert_eq!(deque_store.pop_front(&mut storage), Ok(4));
    assert_eq!(deque_store.pop_back(&mut storage), Ok(5));
    assert!(deque_store.pop_back(&mut storage).is_err());
    Ok(())
}

#[test]
fn deque_store_test_removes() -> StdResult<()> {
    let mut storage = MockStorage::new();
    let mut deque_store: DequeStore<i32> = DequeStore::new("test");
    deque_store.push_front(&mut storage, &2)?;
    deque_store.push_back(&mut storage, &3)?;
    deque_store.push_back(&mut storage, &4)?;
    deque_store.push_back(&mut storage, &5)?;
    deque_store.push_back(&mut storage, &6)?;
    deque_store.push_front(&mut storage, &1)?;
    deque_store.push_back(&mut storage, &7)?;
    deque_store.push_back(&mut storage, &8)?;

    assert!(deque_store.remove(&mut storage, 8).is_err());
    assert!(deque_store.remove(&mut storage, 9).is_err());

    assert_eq!(deque_store.remove(&mut storage, 7), Ok(8));
    assert_eq!(deque_store.get_at(&storage, 6), Ok(7));
    assert_eq!(deque_store.get_at(&storage, 5), Ok(6));
    assert_eq!(deque_store.get_at(&storage, 4), Ok(5));
    assert_eq!(deque_store.get_at(&storage, 3), Ok(4));
    assert_eq!(deque_store.get_at(&storage, 2), Ok(3));
    assert_eq!(deque_store.get_at(&storage, 1), Ok(2));
    assert_eq!(deque_store.get_at(&storage, 0), Ok(1));

    assert_eq!(deque_store.remove(&mut storage, 6), Ok(7));
    assert_eq!(deque_store.get_at(&storage, 5), Ok(6));
    assert_eq!(deque_store.get_at(&storage, 4), Ok(5));
    assert_eq!(deque_store.get_at(&storage, 3), Ok(4));
    assert_eq!(deque_store.get_at(&storage, 2), Ok(3));
    assert_eq!(deque_store.get_at(&storage, 1), Ok(2));
    assert_eq!(deque_store.get_at(&storage, 0), Ok(1));

    assert_eq!(deque_store.remove(&mut storage, 3), Ok(4));
    assert_eq!(deque_store.get_at(&storage, 4), Ok(6));
    assert_eq!(deque_store.get_at(&storage, 3), Ok(5));
    assert_eq!(deque_store.get_at(&storage, 2), Ok(3));
    assert_eq!(deque_store.get_at(&storage, 1), Ok(2));
    assert_eq!(deque_store.get_at(&storage, 0), Ok(1));

    assert_eq!(deque_store.remove(&mut storage, 1), Ok(2));
    assert_eq!(deque_store.get_at(&storage, 3), Ok(6));
    assert_eq!(deque_store.get_at(&storage, 2), Ok(5));
    assert_eq!(deque_store.get_at(&storage, 1), Ok(3));
    assert_eq!(deque_store.get_at(&storage, 0), Ok(1));

    assert_eq!(deque_store.remove(&mut storage, 2), Ok(5));
    assert_eq!(deque_store.get_at(&storage, 2), Ok(6));
    assert_eq!(deque_store.get_at(&storage, 1), Ok(3));
    assert_eq!(deque_store.get_at(&storage, 0), Ok(1));

    assert_eq!(deque_store.remove(&mut storage, 1), Ok(3));
    assert_eq!(deque_store.get_at(&storage, 1), Ok(6));
    assert_eq!(deque_store.get_at(&storage, 0), Ok(1));

    assert_eq!(deque_store.remove(&mut storage, 1), Ok(6));
    assert_eq!(deque_store.get_at(&storage, 0), Ok(1));

    assert_eq!(deque_store.remove(&mut storage, 0), Ok(1));

    assert!(deque_store.remove(&mut storage, 0).is_err());
    Ok(())
}

#[test]
fn deque_store_test_iterator() -> StdResult<()> {
    let mut storage = MockStorage::new();
    let mut deque_store: DequeStore<i32> = DequeStore::new("test");

    deque_store.push_front(&mut storage, &2143)?;
    deque_store.push_back(&mut storage, &3333)?;
    deque_store.push_back(&mut storage, &3412)?;
    deque_store.push_front(&mut storage, &1234)?;
    deque_store.push_back(&mut storage, &4321)?;

    deque_store.remove(&mut storage, 2)?;

    // iterate twice to make sure nothing changed
    let mut iter = Iter(deque_store.iter(&storage)?);
    assert_eq!(iter.next(), Some(Ok(1234)));
    assert_eq!(iter.next(), Some(Ok(2143)));
    assert_eq!(iter.next(), Some(Ok(3412)));
    assert_eq!(iter.next(), Some(Ok(4321)));
    assert_eq!(iter.next(), None);

    let mut iter = Iter(deque_store.iter(&storage)?);
    assert_eq!(iter.next(), Some(Ok(1234)));
    assert_eq!(iter.next(), Some(Ok(2143)));
    assert_eq!(iter.next(), Some(Ok(3412)));
    assert_eq!(iter.next(), Some(Ok(4321)));
    assert_eq!(iter.next(), None);

    // make sure our implementation of `nth` doesn't break anything
    let mut iter = Iter(deque_store.iter(&storage)?).skip(2);
    assert_eq!(iter.next(), Some(Ok(3412)));
    assert_eq!(iter.next(), Some(Ok(4321)));
    assert_eq!(iter.next(), None);

    Ok(())
}

#[test]
fn deque_store_test_reverse_iterator() -> StdResult<()> {
    let mut storage = MockStorage::new();
    let mut deque_store: DequeStore<i32> = DequeStore::new("test");
    deque_store.push_front(&mut storage, &2143)?;
    deque_store.push_back(&mut storage, &3412)?;
    deque_store.push_back(&mut storage, &3333)?;
    deque_store.push_front(&mut storage, &1234)?;
    deque_store.push_back(&mut storage, &4321)?;

    deque_store.remove(&mut storage, 3)?;

    let mut iter = Iter(deque_store.iter(&storage)?).rev();
    assert_eq!(iter.next(), Some(Ok(4321)));
    assert_eq!(iter.next(), Some(Ok(3412)));
    assert_eq!(iter.next(), Some(Ok(2143)));
    assert_eq!(iter.next(), Some(Ok(1234)));
    assert_eq!(iter.next(), None);

    // iterate twice to make sure nothing changed
    let mut iter = Iter(deque_store.iter(&storage)?).rev();
    assert_eq!(iter.next(), Some(Ok(4321)));
    assert_eq!(iter.next(), Some(Ok(3412)));
    assert_eq!(iter.next(), Some(Ok(2143)));
    assert_eq!(iter.next(), Some(Ok(1234)));
    assert_eq!(iter.next(), None);

    // make sure our implementation of `nth_back` doesn't break anything
    let mut iter = Iter(deque_store.iter(&storage)?).rev().skip(2);
    assert_eq!(iter.next(), Some(Ok(2143)));
    assert_eq!(iter.next(), Some(Ok(1234)));
    assert_eq!(iter.next(), None);

    // make sure our implementation of `ExactSizeIterator` works well
    let mut iter = Iter(deque_store.iter(&storage)?).skip(2).rev();
    assert_eq!(iter.next(), Some(Ok(4321)));
    assert_eq!(iter.next(), Some(Ok(3412)));
    assert_eq!(iter.next(), None);

    Ok(())
}

#[test]
fn deque_store_test_serializations() -> StdResult<()> {
    // Check the default behavior is Json
    let mut storage = MockStorage::new();

    let mut deque_store: DequeStore<i32> = DequeStore::new("test");
    deque_store.push_back(&mut storage, &1234)?;

    let key = [deque_store.as_slice(), &0_u32.to_be_bytes()].concat();
    let _bytes = storage.get(&key);
    // assert_eq!(bytes, Some(vec![210, 4, 0, 0]));

    // Check that overriding the serializer with Json works
    let mut storage = MockStorage::new();
    let mut json_deque_store: DequeStore<i32, Json> = DequeStore::new("test2");
    json_deque_store.push_back(&mut storage, &1234)?;

    let key = [json_deque_store.as_slice(), &0_u32.to_be_bytes()].concat();
    let bytes = storage.get(&key);
    assert_eq!(bytes, Some(b"1234".to_vec()));

    Ok(())
}

#[test]
fn deque_store_test_paging() -> StdResult<()> {
    let mut storage = MockStorage::new();
    let mut append_store: DequeStore<u32> = DequeStore::new("test");

    let page_size: u32 = 5;
    let total_items: u32 = 50;

    for j in 0..total_items {
        let i = total_items - j;
        append_store.push_front(&mut storage, &i)?;
    }

    for i in 0..((total_items / page_size) - 1) {
        let start_page = i;

        let values = append_store.paging(&storage, start_page, page_size)?;

        for (index, value) in values.iter().enumerate() {
            assert_eq!(value, &(page_size * start_page + index as u32 + 1))
        }
    }

    Ok(())
}
