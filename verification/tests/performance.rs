use pdf_ast::performance::streaming::BufferPool;

#[test]
fn test_buffer_pool() {
    let mut pool = BufferPool::new();

    let buffer1 = pool.get_buffer(1024);
    assert!(buffer1.capacity() >= 1024);

    pool.return_buffer(buffer1);

    let buffer2 = pool.get_buffer(512);
    assert!(buffer2.capacity() >= 512);
}

#[test]
fn buffer_pool_gives_empty_buffers() {
    let mut pool = BufferPool::new();
    let mut b = pool.get_buffer(10);
    assert!(b.is_empty());
    assert!(b.capacity() >= 8192);
    b.extend_from_slice(b"data");
    pool.return_buffer(b);
    let again = pool.get_buffer(100);
    assert!(again.is_empty());
}
