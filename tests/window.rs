use xdelta_stream::window::{BlockInfo, SrcBuffer, DEFAULT_BLOCK_COUNT, DEFAULT_SRC_WINSIZE};

fn reference(len: usize) -> Vec<u8> {
    (0..len).map(|i| (i * 7 + 3) as u8).collect()
}

/// Reads `want` bytes of `data` from `*pos` on, as a stream would.
fn read_from(data: &[u8], pos: &mut usize, want: usize) -> Vec<u8> {
    let end = (*pos + want).min(data.len());
    let out = data[*pos..end].to_vec();
    *pos = end;
    out
}

fn open(data: &[u8], count: usize, bs: usize, pos: &mut usize) -> SrcBuffer {
    let first = read_from(data, pos, count * bs);
    SrcBuffer::new(count, bs, first)
}

/// Fetches until `blkno` is in the window, then serves it.
fn serve(cache: &mut SrcBuffer, data: &[u8], pos: &mut usize, blkno: usize) -> BlockInfo {
    while cache.needs_fetch(blkno) {
        let bs = cache.blksize();
        let chunk = read_from(data, pos, bs);
        cache.fetch(&chunk);
    }
    cache.getblk(blkno).expect("block in window")
}

fn bytes_of<'a>(cache: &'a SrcBuffer, info: &BlockInfo) -> &'a [u8] {
    &cache.buffer()[info.offset..info.offset + info.onblk]
}

#[test]
fn reference_longer_than_window_is_served_block_by_block() {
    let data = reference(37);
    let mut pos = 0;
    let mut cache = open(&data, 4, 4, &mut pos);
    assert!(!cache.eof_known());
    assert_eq!(cache.read_len(), 16);
    for b in 0..10 {
        let info = serve(&mut cache, &data, &mut pos, b);
        let start = (b * 4).min(37);
        let end = (b * 4 + 4).min(37);
        assert_eq!(info.curblkno, b);
        assert_eq!(bytes_of(&cache, &info), &data[start..end]);
    }
    assert!(cache.eof_known());
    assert_eq!(cache.read_len(), 37);
}

#[test]
fn served_ranges_of_the_window_do_not_overlap() {
    let data = reference(16);
    let mut pos = 0;
    let mut cache = open(&data, 4, 4, &mut pos);
    let mut ranges = Vec::new();
    for b in 0..4 {
        let info = serve(&mut cache, &data, &mut pos, b);
        ranges.push((info.offset, info.offset + info.onblk));
    }
    ranges.sort();
    for w in ranges.windows(2) {
        assert!(w[0].1 <= w[1].0);
    }
}

#[test]
fn partial_final_block_reports_its_length() {
    let data = reference(21);
    let mut pos = 0;
    let mut cache = open(&data, 2, 4, &mut pos);
    let mut last = None;
    for b in 0..6 {
        last = Some(serve(&mut cache, &data, &mut pos, b));
    }
    let info = last.unwrap();
    assert_eq!(info.curblkno, 5);
    assert_eq!(info.onblk, 1);
    assert!(info.eof_known);
    assert_eq!(info.max_blkno, 5);
    assert_eq!(info.onlastblk, 1);
    assert_eq!(bytes_of(&cache, &info), &data[20..21]);
}

#[test]
fn exact_multiple_reference_has_full_last_block() {
    let data = reference(16);
    let mut pos = 0;
    let mut cache = open(&data, 2, 4, &mut pos);
    for b in 0..4 {
        serve(&mut cache, &data, &mut pos, b);
    }
    let info = serve(&mut cache, &data, &mut pos, 4);
    assert!(info.eof_known);
    assert_eq!(info.onblk, 0);
    assert_eq!(info.max_blkno, 3);
    assert_eq!(info.onlastblk, 4);
    assert_eq!(cache.read_len(), 16);
}

#[test]
fn short_reference_is_known_to_end_at_once() {
    let data = reference(6);
    let mut pos = 0;
    let cache = open(&data, 4, 4, &mut pos);
    assert!(cache.eof_known());
    assert!(!cache.needs_fetch(9));
    let info = cache.getblk(1).unwrap();
    assert_eq!(info.onblk, 2);
    assert_eq!(info.max_blkno, 1);
    assert_eq!(info.onlastblk, 2);
    assert_eq!(bytes_of(&cache, &info), &data[4..6]);
    let past = cache.getblk(9).unwrap();
    assert_eq!(past.onblk, 0);
}

#[test]
fn empty_reference_has_no_valid_block() {
    let cache = SrcBuffer::new(4, 4, Vec::new());
    assert!(cache.eof_known());
    assert_eq!(cache.read_len(), 0);
    let info = cache.getblk(0).unwrap();
    assert_eq!(info.onblk, 0);
    assert!(info.eof_known);
    assert_eq!(info.max_blkno, 0);
    assert_eq!(info.onlastblk, 0);
}

#[test]
fn evicted_and_unfetched_blocks_are_refused() {
    let data = reference(40);
    let mut pos = 0;
    let mut cache = open(&data, 2, 4, &mut pos);
    assert!(cache.getblk(2).is_none());
    assert!(cache.needs_fetch(2));
    serve(&mut cache, &data, &mut pos, 3);
    assert_eq!(cache.block_offset(), 2);
    assert!(cache.getblk(1).is_none());
    assert!(cache.getblk(2).is_some());
}

#[test]
fn fetch_reports_a_short_read_as_the_end() {
    let data = reference(8);
    let mut cache = SrcBuffer::new(2, 4, data.clone());
    assert!(!cache.eof_known());
    assert!(cache.can_fetch());
    assert!(!cache.fetch(&[9, 9, 9, 9]));
    assert!(cache.fetch(&[5]));
    assert!(cache.eof_known());
    assert_eq!(cache.read_len(), 13);
    assert_eq!(cache.block_offset(), 2);
    let info = cache.getblk(3).unwrap();
    assert_eq!(bytes_of(&cache, &info), &[5u8][..]);
    assert_eq!(info.max_blkno, 3);
    assert_eq!(info.onlastblk, 1);
}

#[test]
fn default_geometry_divides_the_window() {
    assert_eq!(DEFAULT_SRC_WINSIZE / DEFAULT_BLOCK_COUNT * DEFAULT_BLOCK_COUNT, DEFAULT_SRC_WINSIZE);
    assert_eq!(DEFAULT_SRC_WINSIZE / DEFAULT_BLOCK_COUNT, 1 << 20);
}
