use sps30::read_frame::{Error, FrameSync};

const FB: u8 = 0x7e;

/// Feeds the synchronizer one read at a time, exactly as a transport
/// would; once the reads run out, every further read is empty (end of
/// stream).
fn run_sync(reads: &[&[u8]], capacity: usize) -> Result<Vec<u8>, Error> {
    let mut sync = FrameSync::new(capacity);
    let mut i = 0;
    loop {
        let chunk: &[u8] = if i < reads.len() { reads[i] } else { &[] };
        i += 1;
        match sync.push_chunk(chunk) {
            Ok(Some(frame)) => return Ok(frame),
            Ok(None) => continue,
            Err(e) => return Err(e),
        }
    }
}

#[test]
fn first_read_ends_in_2_boundaries() {
    // read 1           read 2        no read 3
    // * ------ **    --------*
    let reads: &[&[u8]] = &[
        &[FB, 2, 3, 4, 5, 6, 7, 8, FB, FB],
        &[255, 2, 3, 4, 5, 6, 7, 8, 9, FB],
    ];
    let frame = run_sync(reads, 20).unwrap();
    assert_eq!(&frame, &[FB, 255, 2, 3, 4, 5, 6, 7, 8, 9, FB])
}

#[test]
fn eof_on_noise() {
    // read 1           read 2        no read 3
    // ------ *       xxx *-------       -*xxxxx
    let reads: &[&[u8]] = &[
        &[2, 3, 4, 5, 6, 7, 8, FB],
        &[20, 21, 22, FB, 1, 2, 3, 4, 5],
        &[6, FB, 25, 26, 27, 28, 29],
    ];
    let err = run_sync(reads, 20).unwrap_err();
    assert_eq!(err, Error::Eof)
}

#[test]
fn eof_mid_package() {
    // read 1           read 2        no read 3
    // ----**----     -----
    let reads: &[&[u8]] = &[&[2, 3, 4, 5, FB, FB, 1, 2, 3], &[4, 5, 6, 7]];
    let err = run_sync(reads, 20).unwrap_err();
    assert_eq!(err, Error::Eof)
}

#[test]
fn last_package_split() {
    // read 1           read 2        read 3
    // -------        ----**----         -*
    let reads: &[&[u8]] = &[
        &[12, 13, 14, 15, 16, 17, 18],
        &[19, 20, 21, FB, 1, 2, 3, 4, 5],
        &[6, FB],
    ];
    let frame = run_sync(reads, 20).unwrap();
    assert_eq!(&frame, &[FB, 1, 2, 3, 4, 5, 6, FB])
}

#[test]
fn huge_read() {
    // read 1
    // ------------------------------**------*
    let reads: &[&[u8]] = &[&[
        255, 2, 3, 4, 5, 6, 7, 8, 9, 10, 255, 22, 23, 24, 25, 26, 27, 28, 29, 255, 2, 3, 4, 5, 6,
        7, 8, 9, 10, FB, 1, 2, 3, 4, 5, 6, FB,
    ]];
    let frame = run_sync(reads, 8).unwrap();
    assert_eq!(&frame, &[FB, 1, 2, 3, 4, 5, 6, FB])
}

#[test]
fn end_in_many_small_reads() {
    // read 1             read 2    read 3  ... read 12   read 13
    // *---------------     -         -            -         *
    let reads: &[&[u8]] = &[
        &[FB, 2, 3, 4, 5, 6, 7, 8, 9, 10, 255, 22, 23, 24, 25],
        &[5],
        &[5],
        &[5],
        &[5],
        &[5],
        &[5],
        &[5],
        &[5],
        &[5],
        &[5],
        &[5],
        &[FB],
    ];
    let frame = run_sync(reads, 80).unwrap();
    assert_eq!(
        &frame,
        &[
            FB, 2, 3, 4, 5, 6, 7, 8, 9, 10, 255, 22, 23, 24, 25, 5, 5, 5, 5, 5, 5, 5, 5, 5, 5, 5,
            FB
        ]
    )
}

#[test]
fn two_frames_back_to_back_returns_later_one() {
    let f1: &[u8] = &[FB, 1, 2, 3, 4, 5, FB];
    let f2: &[u8] = &[FB, 9, 8, 7, 6, 5, FB];
    let mut chunk = f1.to_vec();
    chunk.extend_from_slice(f2);
    let frame = run_sync(&[&chunk], 40).unwrap();
    assert_eq!(frame.as_slice(), f2);
}

#[test]
fn eof_reported_immediately_on_empty_read() {
    let mut sync = FrameSync::new(20);
    let err = sync.push_chunk(&[]).unwrap_err();
    assert_eq!(err, Error::Eof);
}

#[test]
fn split_frame_matches_unsplit_delivery() {
    let f: &[u8] = &[FB, 1, 2, 3, 4, 5, 6, FB];
    let split = run_sync(&[&f[..5], &f[5..]], 20).unwrap();
    let whole = run_sync(&[f], 20).unwrap();
    assert_eq!(split, whole);
    assert_eq!(split.as_slice(), f);
}

#[test]
fn frame_larger_than_scratch_capacity_fails() {
    // The closing marker arrives in a later read, so the candidate must
    // sit in scratch; seven bytes do not fit a capacity of four.
    let reads: &[&[u8]] = &[&[FB, 1, 2, 3, 4], &[5, 6, FB]];
    let err = run_sync(reads, 4).unwrap_err();
    assert_eq!(err, Error::BufferOutOfSpace);
}

#[test]
fn trailing_bytes_discard_completed_frame() {
    // A complete frame followed by the start of a newer one in the same
    // read is discarded; the newer frame is returned once it completes.
    let reads: &[&[u8]] = &[&[FB, 1, 2, 3, 4, 5, FB, FB, 9], &[8, FB]];
    let frame = run_sync(reads, 20).unwrap();
    assert_eq!(&frame, &[FB, 9, 8, FB]);
}
