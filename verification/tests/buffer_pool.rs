use turbotransfer_core::scheduler::buffer_pool::BufferPool;

#[test]
fn test_buffer_pool_bounded_allocation() {
    let mut pool = BufferPool::new(2, 1024);
    assert_eq!(pool.available_slots(), 2);
    assert_eq!(pool.idle_count(), 2);

    let buf1 = pool.try_acquire().unwrap();
    assert_eq!(pool.available_slots(), 1);
    assert_eq!(pool.idle_count(), 1);

    let buf2 = pool.try_acquire().unwrap();
    assert_eq!(pool.available_slots(), 0);
    assert_eq!(pool.idle_count(), 0);

    pool.release(buf1);
    assert_eq!(pool.available_slots(), 1);
    assert_eq!(pool.idle_count(), 1);

    pool.release(buf2);
    assert_eq!(pool.available_slots(), 2);
    assert_eq!(pool.idle_count(), 2);
}

#[test]
fn test_buffer_pool_slice_and_recycling() {
    let mut pool = BufferPool::new(1, 1024);
    {
        let mut buf = pool.try_acquire().unwrap();
        let slice = buf.get_mut_slice(512);
        slice[0] = 42;
        slice[511] = 99;
        assert_eq!(buf.as_slice().len(), 512);
        pool.release(buf);
    }
    assert_eq!(pool.available_slots(), 1);
    assert_eq!(pool.idle_count(), 1);

    {
        let mut buf = pool.try_acquire().unwrap();
        let slice = buf.get_mut_slice(256);
        assert_eq!(slice.len(), 256);
        pool.release(buf);
    }
}

#[test]
fn a_full_pool_lends_nothing_until_a_slot_frees() {
    let mut pool = BufferPool::new(1, 16);
    let buf = pool.try_acquire().unwrap();
    assert!(pool.try_acquire().is_none());
    let mut buf = buf;
    buf.get_mut_slice(3).copy_from_slice(&[1, 2, 3]);
    let bytes = pool.freeze(buf);
    assert_eq!(bytes, vec![1, 2, 3]);
    assert_eq!(pool.available_slots(), 1);
    assert_eq!(pool.idle_count(), 0);
    let again = pool.try_acquire().unwrap();
    assert!(again.as_slice().is_empty());
    assert_eq!(pool.chunk_size(), 16);
}
