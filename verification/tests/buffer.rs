use double_mapped_buffer::{DoubleMappedBuffer, DoubleMappedBufferError, Region, Window};
use std::mem;

const PAGE_SIZE: usize = 4096;

/// Hands out bases the way a platform would: page-aligned, each mapping
/// behind the one before.
struct Platform {
    next: usize,
}

impl Platform {
    fn new() -> Self {
        Platform { next: 0x1000_0000 }
    }

    fn map_twice(&mut self, byte_length: usize) -> Result<usize, DoubleMappedBufferError> {
        let base: usize = self.next;
        self.next = base + 2 * byte_length + PAGE_SIZE;
        Ok(base)
    }
}

/// The backing object of one mapping, reached through addresses.
struct Memory {
    region: Region,
    bytes: Vec<u8>,
}

impl Memory {
    fn new(region: Region) -> Self {
        Memory { region, bytes: vec![0u8; region.byte_length()] }
    }

    fn write(&mut self, window: &Window, index: usize, item: &[u8]) {
        assert!(window.writable);
        assert_eq!(item.len(), window.item_size);
        let start: usize = window.addr + index * window.item_size;
        for (k, byte) in item.iter().enumerate() {
            let place: usize = self.region.locate(start + k).expect("address is not mapped");
            self.bytes[place] = *byte;
        }
    }

    fn read(&self, window: &Window, index: usize) -> Vec<u8> {
        let start: usize = window.addr + index * window.item_size;
        let mut item: Vec<u8> = Vec::new();
        for k in 0..window.item_size {
            let place: usize = self.region.locate(start + k).expect("address is not mapped");
            item.push(self.bytes[place]);
        }
        item
    }
}

fn create<T>(
    platform: &mut Platform,
    min_items: usize,
) -> Result<DoubleMappedBuffer<T>, DoubleMappedBufferError> {
    let byte_length: usize = DoubleMappedBuffer::<T>::mapping_size(min_items, PAGE_SIZE)?;
    let mapped = platform.map_twice(byte_length);
    DoubleMappedBuffer::<T>::new(min_items, PAGE_SIZE, mapped)
}

#[test]
fn byte_buffer() {
    let mut platform = Platform::new();
    let b = create::<u8>(&mut platform, 123).expect("failed to create buffer");
    let ps: usize = PAGE_SIZE;

    assert_eq!(b.len() * mem::size_of::<u8>() % ps, 0);
    assert_eq!(b.addr() % mem::align_of::<u8>(), 0);

    let mut memory = Memory::new(b.region());

    let s = b.slice_mut();
    assert_eq!(s.len, b.len());
    assert_eq!(s.addr, b.addr());

    for i in 0..s.len {
        memory.write(&s, i, &[(i % 128) as u8]);
    }

    let s = b.slice_with_offset(b.len());
    assert_eq!(s.addr, b.addr() + b.len() * mem::size_of::<u8>());
    for i in 0..s.len {
        assert_eq!(memory.read(&s, i), vec![(i % 128) as u8]);
    }

    memory.write(&b.slice_mut(), 0, &[123u8]);
    assert_eq!(memory.read(&b.slice_with_offset(b.len()), 0), vec![123u8]);
}

#[test]
fn u32_buffer() {
    let mut platform = Platform::new();
    let b = create::<u32>(&mut platform, 12311).expect("failed to create buffer");
    let ps: usize = PAGE_SIZE;

    assert_eq!(b.len() * mem::size_of::<u32>() % ps, 0);
    assert_eq!(b.addr() % mem::align_of::<u32>(), 0);

    let mut memory = Memory::new(b.region());

    let s = b.slice_mut();
    assert_eq!(s.len, b.len());
    assert_eq!(s.addr, b.addr());

    for i in 0..s.len {
        memory.write(&s, i, &((i % 128) as u32).to_ne_bytes());
    }

    let s = b.slice_with_offset(b.len());
    assert_eq!(s.addr, b.addr() + b.len() * mem::size_of::<u32>());
    for i in 0..s.len {
        assert_eq!(memory.read(&s, i), ((i % 128) as u32).to_ne_bytes().to_vec());
    }

    memory.write(&b.slice_mut(), 0, &123u32.to_ne_bytes());
    assert_eq!(memory.read(&b.slice_with_offset(b.len()), 0), 123u32.to_ne_bytes().to_vec());
}

#[test]
fn many_buffers() {
    let mut platform = Platform::new();
    let _b0 = create::<u32>(&mut platform, 123).expect("failed to create buffer");
    let _b1 = create::<u32>(&mut platform, 456).expect("failed to create buffer");

    let mut v = Vec::new();

    for _ in 0..100 {
        v.push(create::<u32>(&mut platform, 123).expect("failed to create buffer"));
    }
    assert_eq!(v.len(), 100);
}

#[test]
fn buffers_do_not_share_memory() {
    let mut platform = Platform::new();
    let first = create::<u32>(&mut platform, 123).expect("failed to create buffer");
    let second = create::<u32>(&mut platform, 456).expect("failed to create buffer");
    let first_end: usize = first.addr() + 2 * first.region().byte_length();
    assert!(first_end <= second.addr());
    assert_eq!(first.region().locate(second.addr()), None);
    assert_eq!(second.region().locate(first.addr()), None);
}

#[test]
fn length_covers_the_request() {
    let mut platform = Platform::new();
    let b = create::<u8>(&mut platform, 123).expect("failed to create buffer");
    assert_eq!(b.len(), 4096);
    assert_eq!(b.region().byte_length(), 4096);
    let b = create::<u32>(&mut platform, 12311).expect("failed to create buffer");
    assert_eq!(b.region().byte_length(), 53248);
    assert_eq!(b.len(), 13312);
    assert!(b.len() >= 12311);
    let b = create::<u64>(&mut platform, 512).expect("failed to create buffer");
    assert_eq!(b.len(), 512);
    let b = create::<u64>(&mut platform, 513).expect("failed to create buffer");
    assert_eq!(b.len(), 1024);
}

#[test]
fn windows_of_a_typed_buffer() {
    let mut platform = Platform::new();
    let b = create::<u64>(&mut platform, 100).expect("failed to create buffer");
    let base: usize = b.addr();
    assert_eq!(base % PAGE_SIZE, 0);
    assert_eq!(
        b.slice(),
        Window { addr: base, len: 512, item_size: 8, writable: false }
    );
    assert_eq!(
        b.slice_mut(),
        Window { addr: base, len: 512, item_size: 8, writable: true }
    );
    assert_eq!(
        b.slice_with_offset(7),
        Window { addr: base + 56, len: 512, item_size: 8, writable: false }
    );
    assert_eq!(
        b.slice_mut_with_offset(512),
        Window { addr: base + 4096, len: 512, item_size: 8, writable: true }
    );
    assert_eq!(b.slice_with_offset(0), b.slice());
    for offset in 0..=b.len() {
        let w = b.slice_with_offset(offset);
        assert_eq!(w.addr % mem::align_of::<u64>(), 0);
        assert!(w.addr >= base);
        assert!(w.addr + w.len * w.item_size <= base + 2 * b.region().byte_length());
    }
    assert_eq!(b.buffer().item_size(), 8);
    assert_eq!(b.buffer().alignment(), mem::align_of::<u64>());
    assert_eq!(b.buffer().len(), b.len());
}

#[test]
fn write_through_the_mirror_is_seen_at_the_base() {
    let mut platform = Platform::new();
    let b = create::<u32>(&mut platform, 123).expect("failed to create buffer");
    let mut memory = Memory::new(b.region());
    memory.write(&b.slice_mut_with_offset(b.len()), 0, &0xdead_beefu32.to_ne_bytes());
    assert_eq!(memory.read(&b.slice(), 0), 0xdead_beefu32.to_ne_bytes().to_vec());
}

#[test]
fn write_then_read_at_every_index() {
    let mut platform = Platform::new();
    let b = create::<u16>(&mut platform, 10).expect("failed to create buffer");
    let mut memory = Memory::new(b.region());
    for i in 0..b.len() {
        let value: u16 = (i * 7 + 1) as u16;
        memory.write(&b.slice_mut(), i, &value.to_ne_bytes());
        assert_eq!(memory.read(&b.slice(), i), value.to_ne_bytes().to_vec());
    }
    for i in 0..b.len() {
        let value: u16 = (i * 7 + 1) as u16;
        assert_eq!(memory.read(&b.slice(), i), value.to_ne_bytes().to_vec());
    }
}

#[test]
fn offset_window_is_the_buffer_rotated() {
    let mut platform = Platform::new();
    let b = create::<u32>(&mut platform, 1000).expect("failed to create buffer");
    let n: usize = b.len();
    assert_eq!(n, 1024);
    let mut memory = Memory::new(b.region());
    for i in 0..n {
        memory.write(&b.slice_mut(), i, &(i as u32).to_ne_bytes());
    }
    for offset in [0usize, 1, 5, 511, 1023, 1024] {
        let w = b.slice_with_offset(offset);
        for i in 0..n {
            let expected: u32 = ((offset + i) % n) as u32;
            assert_eq!(memory.read(&w, i), expected.to_ne_bytes().to_vec());
        }
    }
    let w = b.slice_mut_with_offset(1000);
    memory.write(&w, 30, &77u32.to_ne_bytes());
    assert_eq!(memory.read(&b.slice(), 6), 77u32.to_ne_bytes().to_vec());
    assert_eq!(memory.read(&b.slice(), 5), 5u32.to_ne_bytes().to_vec());
    assert_eq!(memory.read(&b.slice(), 7), 7u32.to_ne_bytes().to_vec());
}

#[test]
fn items_that_do_not_divide_the_pages_leave_a_tail() {
    let mut platform = Platform::new();
    let b = create::<[u8; 3]>(&mut platform, 1).expect("failed to create buffer");
    assert_eq!(b.region().byte_length(), 4096);
    assert_eq!(b.len(), 1365);
    assert_eq!(b.len() * 3, 4095);
    let w = b.slice_with_offset(b.len());
    assert_eq!(w.addr, b.addr() + 4095);
    assert_eq!(b.region().locate(w.addr), Some(4095));
    assert_eq!(b.region().locate(w.addr + 1), Some(0));
    let mut memory = Memory::new(b.region());
    memory.write(&b.slice_mut(), 0, &[1u8, 2, 3]);
    assert_eq!(memory.read(&w, 0), vec![0u8, 1, 2]);
}

#[test]
fn typed_creation_errors() {
    let too_many: usize = usize::MAX / 4 + 1;
    assert!(matches!(
        DoubleMappedBuffer::<u32>::mapping_size(too_many, PAGE_SIZE),
        Err(DoubleMappedBufferError::SizeOverflow)
    ));
    assert!(matches!(
        DoubleMappedBuffer::<u32>::new(too_many, PAGE_SIZE, Ok(0x1000_0000)),
        Err(DoubleMappedBufferError::SizeOverflow)
    ));
    assert!(matches!(
        DoubleMappedBuffer::<u64>::new(usize::MAX, PAGE_SIZE, Ok(0x1000_0000)),
        Err(DoubleMappedBufferError::SizeOverflow)
    ));
    assert!(matches!(
        DoubleMappedBuffer::<u32>::new(1, 2, Ok(0x1000_0000)),
        Err(DoubleMappedBufferError::Unsupported)
    ));
    assert!(matches!(
        DoubleMappedBuffer::<u32>::new(123, PAGE_SIZE, Err(DoubleMappedBufferError::OutOfMemory)),
        Err(DoubleMappedBufferError::OutOfMemory)
    ));
    assert!(matches!(
        DoubleMappedBuffer::<u32>::new(123, PAGE_SIZE, Err(DoubleMappedBufferError::MappingFailed)),
        Err(DoubleMappedBufferError::MappingFailed)
    ));
    assert!(matches!(
        DoubleMappedBuffer::<u32>::new(123, PAGE_SIZE, Ok(0x1000_0004)),
        Err(DoubleMappedBufferError::MappingFailed)
    ));
    assert!(matches!(
        DoubleMappedBuffer::<u32>::new(123, PAGE_SIZE, Ok(0)),
        Err(DoubleMappedBufferError::MappingFailed)
    ));
}
