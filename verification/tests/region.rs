use double_mapped_buffer::{DoubleMappedBufferError, DoubleMappedBufferImpl, Region, Window};

#[test]
fn region_accepts_a_double_mapping() {
    let region = Region::new(0x2000_0000, 8192, 4096).expect("a valid mapping");
    assert_eq!(region.base(), 0x2000_0000);
    assert_eq!(region.byte_length(), 8192);
    assert_eq!(region.page_size(), 4096);
    assert_eq!(region.mirror_base(), 0x2000_2000);
    assert_eq!(region.mapped_length(), 16384);
}

#[test]
fn region_rejects_what_is_no_double_mapping() {
    assert!(Region::new(0, 8192, 4096).is_none());
    assert!(Region::new(0x2000_0001, 8192, 4096).is_none());
    assert!(Region::new(0x2000_0800, 8192, 4096).is_none());
    assert!(Region::new(0x2000_0000, 0, 4096).is_none());
    assert!(Region::new(0x2000_0000, 8191, 4096).is_none());
    assert!(Region::new(0x2000_0000, 6144, 4096).is_none());
    assert!(Region::new(0x2000_0000, 8192, 0).is_none());
    assert!(Region::new(6000, 6000, 3000).is_none());
    let half: usize = usize::MAX / 2 + 1;
    assert!(Region::new(4096, half, 4096).is_none());
    assert!(Region::new(half, half / 2, 4096).is_none());
    assert!(Region::new(half, half / 2 - 4096, 4096).is_some());
}

#[test]
fn both_ranges_lead_to_the_same_bytes() {
    let base: usize = 0x2000_0000;
    let region = Region::new(base, 8192, 4096).expect("a valid mapping");
    assert_eq!(region.locate(base), Some(0));
    assert_eq!(region.locate(base + 1), Some(1));
    assert_eq!(region.locate(base + 8191), Some(8191));
    assert_eq!(region.locate(base + 8192), Some(0));
    assert_eq!(region.locate(base + 8193), Some(1));
    assert_eq!(region.locate(base + 16383), Some(8191));
    assert_eq!(region.locate(base + 16384), None);
    assert_eq!(region.locate(base - 1), None);
    assert_eq!(region.locate(0), None);
    assert_eq!(region.locate(usize::MAX), None);
    for k in 0..8192usize {
        assert_eq!(region.locate(base + k), region.locate(base + 8192 + k));
    }
}

#[test]
fn untyped_buffer_of_odd_items() {
    let b = DoubleMappedBufferImpl::new(2000, 3, 1, 4096, Ok(0x3000_0000))
        .expect("failed to create buffer");
    assert_eq!(b.addr(), 0x3000_0000);
    assert_eq!(b.region().byte_length(), 8192);
    assert_eq!(b.len(), 2730);
    assert_eq!(b.item_size(), 3);
    assert_eq!(b.alignment(), 1);
    assert_eq!(
        b.window_at(0, false),
        Window { addr: 0x3000_0000, len: 2730, item_size: 3, writable: false }
    );
    assert_eq!(
        b.window_at(2730, true),
        Window { addr: 0x3000_0000 + 8190, len: 2730, item_size: 3, writable: true }
    );
}

#[test]
fn untyped_buffer_on_large_pages() {
    let b = DoubleMappedBufferImpl::new(12311, 4, 4, 16384, Ok(0x4000_0000))
        .expect("failed to create buffer");
    assert_eq!(b.region().byte_length(), 65536);
    assert_eq!(b.region().page_size(), 16384);
    assert_eq!(b.len(), 16384);
    assert_eq!(b.len() * 4 % 16384, 0);
}

#[test]
fn untyped_creation_errors() {
    assert!(matches!(
        DoubleMappedBufferImpl::new(usize::MAX, 2, 2, 4096, Ok(0x3000_0000)),
        Err(DoubleMappedBufferError::SizeOverflow)
    ));
    assert!(matches!(
        DoubleMappedBufferImpl::new(usize::MAX - 10, 1, 1, 4096, Ok(0x3000_0000)),
        Err(DoubleMappedBufferError::SizeOverflow)
    ));
    assert!(matches!(
        DoubleMappedBufferImpl::new(1, 64, 8192, 4096, Ok(0x3000_0000)),
        Err(DoubleMappedBufferError::Unsupported)
    ));
    assert!(matches!(
        DoubleMappedBufferImpl::new(1, 64, 8192, 4096, Err(DoubleMappedBufferError::OutOfMemory)),
        Err(DoubleMappedBufferError::Unsupported)
    ));
    assert!(matches!(
        DoubleMappedBufferImpl::new(1, 64, 64, 4096, Err(DoubleMappedBufferError::OutOfMemory)),
        Err(DoubleMappedBufferError::OutOfMemory)
    ));
    assert!(matches!(
        DoubleMappedBufferImpl::new(1, 64, 64, 4096, Err(DoubleMappedBufferError::MappingFailed)),
        Err(DoubleMappedBufferError::MappingFailed)
    ));
    assert!(matches!(
        DoubleMappedBufferImpl::new(1, 64, 64, 4096, Err(DoubleMappedBufferError::SizeOverflow)),
        Err(DoubleMappedBufferError::SizeOverflow)
    ));
    assert!(matches!(
        DoubleMappedBufferImpl::new(1, 64, 64, 4096, Ok(0x3000_0040)),
        Err(DoubleMappedBufferError::MappingFailed)
    ));
    let high: usize = usize::MAX - 4095;
    assert!(matches!(
        DoubleMappedBufferImpl::new(1, 64, 64, 4096, Ok(high)),
        Err(DoubleMappedBufferError::MappingFailed)
    ));
}
