use ota_core::flash::{erase_length, EraseCursor, FlashWriter, ERASE_CHUNK, ERASED_BYTE, WRITE_BUFFER_SIZE};

fn image(n: usize) -> Vec<u8> {
    (0..n).map(|i| (i * 7 + 3) as u8).collect()
}

/// Feeds `sizes`-long reads of an image through a writer; returns the
/// writes and the final count.
fn stream(sizes: &[usize]) -> (Vec<(u32, Vec<u8>)>, u32, Vec<u8>) {
    let total: usize = sizes.iter().sum();
    let img = image(total);
    let mut w = FlashWriter::new(WRITE_BUFFER_SIZE);
    let mut writes = Vec::new();
    let mut at = 0;
    for &n in sizes {
        assert!(n <= w.max_read());
        if let Some(op) = w.push(&img[at..at + n]) {
            writes.push((op.offset, op.data));
        }
        at += n;
    }
    if let Some(op) = w.finish() {
        writes.push((op.offset, op.data));
    }
    (writes, w.bytes_written(), img)
}

fn check_cover(writes: &[(u32, Vec<u8>)], img: &[u8]) {
    let mut next = 0u32;
    let mut data = Vec::new();
    for (off, d) in writes {
        assert_eq!(*off, next, "writes must be contiguous");
        assert_eq!(d.len() % 4, 0, "writes must be aligned");
        next += d.len() as u32;
        data.extend_from_slice(d);
    }
    assert!(data.len() >= img.len() && data.len() < img.len() + 4);
    assert_eq!(&data[..img.len()], img);
    assert!(data[img.len()..].iter().all(|&b| b == ERASED_BYTE));
}

#[test]
fn odd_reads_cover_image_once() {
    let (writes, count, img) = stream(&[300, 1, 699]);
    assert_eq!(count, 1000);
    check_cover(&writes, &img);
    assert_eq!(writes.len(), 2);
    assert_eq!(writes[0].0, 0);
    assert_eq!(writes[0].1.len(), 300);
    assert_eq!(writes[1].0, 300);
    assert_eq!(writes[1].1.len(), 700);
}

#[test]
fn unaligned_tail_is_padded_but_not_counted() {
    let (writes, count, img) = stream(&[5, 2]);
    assert_eq!(count, 7);
    check_cover(&writes, &img);
    assert_eq!(writes.last().unwrap(), &(4u32, vec![img[4], img[5], img[6], 0xFF]));
}

#[test]
fn many_split_patterns_cover_image() {
    let patterns: Vec<Vec<usize>> = vec![
        vec![],
        vec![1],
        vec![3, 3, 3, 3],
        vec![1, 1, 1, 1, 1, 1, 1, 1, 1],
        vec![2048, 1, 2047, 5],
        vec![4, 8, 12],
        vec![7, 13, 1, 2, 1000, 999],
    ];
    for p in patterns {
        let (writes, count, img) = stream(&p);
        assert_eq!(count as usize, img.len());
        check_cover(&writes, &img);
    }
}

#[test]
fn empty_stream_writes_nothing() {
    let (writes, count, _) = stream(&[]);
    assert!(writes.is_empty());
    assert_eq!(count, 0);
}

#[test]
fn max_read_leaves_room_for_buffered_bytes() {
    let mut w = FlashWriter::new(WRITE_BUFFER_SIZE);
    assert_eq!(w.max_read(), 2048);
    assert!(w.push(&[1, 2, 3]).is_none());
    assert_eq!(w.pending_len(), 3);
    assert_eq!(w.max_read(), 2045);
}

#[test]
fn erase_length_rounds_up_to_pages() {
    assert_eq!(erase_length(0), Some(0));
    assert_eq!(erase_length(1), Some(4096));
    assert_eq!(erase_length(1000), Some(4096));
    assert_eq!(erase_length(4096), Some(4096));
    assert_eq!(erase_length(4097), Some(8192));
    assert_eq!(erase_length(4294963200), Some(4294963200));
    assert_eq!(erase_length(4294963201), None);
}

fn ranges(total: u32, chunk: u32) -> Vec<(u32, u32)> {
    let mut c = EraseCursor::new(total, chunk);
    let mut out = Vec::new();
    while let Some(r) = c.next_range() {
        out.push(r);
    }
    out
}

#[test]
fn erase_ranges_cover_region_in_chunks() {
    let total = erase_length(200_000).unwrap();
    assert_eq!(total, 200_704);
    let rs = ranges(total, ERASE_CHUNK);
    assert_eq!(rs, vec![(0, 65536), (65536, 131072), (131072, 196608), (196608, 200704)]);
    let rs = ranges(8192, 4096);
    assert_eq!(rs, vec![(0, 4096), (4096, 8192)]);
    assert!(ranges(0, ERASE_CHUNK).is_empty());
    for size in [1u32, 4095, 65536, 65537, 1_000_000] {
        let total = erase_length(size).unwrap();
        let rs = ranges(total, ERASE_CHUNK);
        let mut next = 0;
        for (a, b) in &rs {
            assert_eq!(*a, next);
            assert!(b > a && b - a <= ERASE_CHUNK);
            next = *b;
        }
        assert_eq!(next, total);
        assert_eq!(total % 4096, 0);
        assert!(total >= size && total < size + 4096);
    }
}
