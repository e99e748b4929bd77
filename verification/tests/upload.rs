use md5::Digest;
use s3gate::chunker::Chunker;

fn run_chunker(chunk_size: usize, frames: &[&[u8]]) -> (Vec<(u64, Vec<u8>)>, s3gate::chunker::FinishedUpload) {
    let mut c = Chunker::start(chunk_size).unwrap();
    let mut sent: Vec<(u64, Vec<u8>)> = Vec::new();
    for f in frames {
        for ch in c.push_frame(f) {
            sent.push((ch.offset, ch.bytes));
        }
    }
    let fin = c.finish().expect("expected content");
    sent.push((fin.last_chunk.offset, fin.last_chunk.bytes.clone()));
    (sent, fin)
}

#[test]
fn total_size_matches_input_length() {
    let (_, fin) = run_chunker(4, &[b"hello", b" ", b"world!"]);
    assert_eq!(fin.size, 12);
}

#[test]
fn chunk_ranges_tile_the_object() {
    let (_, fin) = run_chunker(4, &[b"hello", b" ", b"world!"]);
    assert_eq!(fin.chunks.len(), 3);
    assert_eq!(fin.chunks[0].start, 0);
    for i in 1..fin.chunks.len() {
        assert_eq!(fin.chunks[i].start, fin.chunks[i - 1].end);
    }
    assert_eq!(fin.chunks[fin.chunks.len() - 1].end, fin.size);
}

#[test]
fn emitted_chunks_reconstruct_the_bytes() {
    let data = b"the quick brown fox jumps over the lazy dog";
    let (sent, fin) = run_chunker(7, &[&data[..3], &data[3..19], &data[19..]]);
    let mut rebuilt: Vec<u8> = Vec::new();
    for (offset, bytes) in &sent {
        assert_eq!(*offset as usize, rebuilt.len(), "offsets must be contiguous");
        rebuilt.extend_from_slice(bytes);
    }
    assert_eq!(rebuilt, data.to_vec());
    assert_eq!(fin.size as usize, data.len());
}

#[test]
fn every_chunk_but_last_is_full_size() {
    let data = [7u8; 26];
    let (sent, _) = run_chunker(8, &[&data[..1], &data[1..2], &data[2..]]);
    for (i, (_, bytes)) in sent.iter().enumerate() {
        if i + 1 < sent.len() {
            assert_eq!(bytes.len(), 8);
        } else {
            assert!(bytes.len() >= 1 && bytes.len() <= 8);
        }
    }
}

#[test]
fn whole_object_md5_matches_reference_digest() {
    let data = b"abc";
    let (_, fin) = run_chunker(2, &[&data[..1], &data[1..]]);
    assert_eq!(
        s3gate::digests::to_hex(&fin.md5),
        "900150983cd24fb0d6963f7d28e17f72"
    );
}

#[test]
fn md5_is_independent_of_framing() {
    let data = b"a message split many different ways";
    let (_, one) = run_chunker(5, &[&data[..]]);
    let (_, two) = run_chunker(5, &[&data[..1], &data[1..2], &data[2..30], &data[30..]]);
    let (_, three) = run_chunker(5, &[b"", &data[..10], b"", &data[10..]]);
    assert_eq!(one.md5, two.md5);
    assert_eq!(two.md5, three.md5);
    assert_eq!(one.size, three.size);
    assert_eq!(one.chunks.len(), three.chunks.len());
}

#[test]
fn per_chunk_checksums_match_reference_digests() {
    let data = b"0123456789abcdef0123";
    let (sent, fin) = run_chunker(16, &[&data[..]]);
    assert_eq!(sent.len(), fin.chunks.len());
    for ((_, bytes), rec) in sent.iter().zip(fin.chunks.iter()) {
        let want_md5 = md5::Md5::digest(bytes).to_vec();
        let want_sha = sha2::Sha256::digest(bytes).to_vec();
        assert_eq!(rec.md5, want_md5);
        assert_eq!(rec.sha256, want_sha);
    }
}

#[test]
fn empty_stream_yields_no_content() {
    let mut c = Chunker::start(4).unwrap();
    assert!(c.push_frame(b"").is_empty());
    assert!(c.push_frame(b"").is_empty());
    assert!(c.finish().is_none());
}

#[test]
fn nonempty_stream_never_yields_zero_chunks() {
    let mut c = Chunker::start(1024).unwrap();
    c.push_frame(b"x");
    let fin = c.finish().expect("one byte is content");
    assert_eq!(fin.size, 1);
    assert_eq!(fin.chunks.len(), 1);
}

#[test]
fn chunk_size_below_one_is_a_backend_contract_violation() {
    match Chunker::start(0) {
        Err(e) => assert_eq!(e, s3gate::error::S3Error::InternalError),
        Ok(_) => panic!("a zero chunk size must be rejected"),
    }
}

#[test]
fn frame_ending_exactly_on_boundary() {
    let data = [3u8; 8];
    let (sent, fin) = run_chunker(4, &[&data[..4], &data[4..]]);
    assert_eq!(fin.size, 8);
    assert_eq!(fin.chunks.len(), 2);
    assert_eq!(sent[0].1.len(), 4);
    assert_eq!(sent[1].1.len(), 4);
}

#[test]
fn upload_result_carries_backend_reference() {
    let mut c = Chunker::start(4).unwrap();
    c.push_frame(b"data");
    let fin = c.finish().unwrap();
    let r = fin.into_result(String::from("blob-17"));
    assert_eq!(r.backend_ref, "blob-17");
    assert_eq!(r.size, 4);
    assert_eq!(r.chunks.len(), 1);
}

#[test]
fn hex_encoding_is_lowercase_high_nibble_first() {
    let bytes: Vec<u8> = vec![0x00, 0xff, 0x1a, 0xb2];
    assert_eq!(s3gate::digests::to_hex(&bytes), "00ff1ab2");
}
