use adapter_core::caching_writer::within_budget;
use adapter_core::caching_writer::CachingWriter;
use adapter_core::caching_writer::Forward;

/// Sends the chunks through a writer whose downstream takes at most `gulp`
/// bytes per plain write, and returns what `finish` gave and what went
/// downstream.
fn run(chunks: &[&[u8]], max: usize, gulp: usize) -> (u64, Option<Vec<u8>>, Vec<u8>) {
    let mut writer = CachingWriter::new(max, 3).unwrap();
    let mut downstream: Vec<u8> = Vec::new();
    for chunk in chunks {
        let mut rest: &[u8] = chunk;
        while !rest.is_empty() {
            let accepted = match writer.write(rest).unwrap() {
                Forward::All { wrote, .. } => wrote,
                Forward::Offer => rest.len().min(gulp),
            };
            downstream.extend_from_slice(&rest[..accepted]);
            writer.record(accepted);
            rest = &rest[accepted..];
        }
        writer.flush().unwrap();
    }
    let (total, cached) = writer.finish().unwrap();
    (total, cached, downstream)
}

fn noise(len: usize) -> Vec<u8> {
    let mut state: u64 = 0x2545F4914F6CDD1D;
    let mut out = Vec::with_capacity(len);
    for _ in 0..len {
        state ^= state << 13;
        state ^= state >> 7;
        state ^= state << 17;
        out.push((state >> 24) as u8);
    }
    out
}

#[test]
fn round_trip_within_budget() {
    let text = b"the quick brown fox jumps over the lazy dog; ".repeat(200);
    let (total, cached, downstream) = run(&[&text], 1 << 20, 1 << 20);
    assert_eq!(total, text.len() as u64);
    assert_eq!(downstream, text);
    let artifact = cached.unwrap();
    assert!(artifact.len() < text.len());
    assert_eq!(zstd::stream::decode_all(&artifact[..]).unwrap(), text);
}

#[test]
fn round_trip_in_many_chunks() {
    let text = b"line of converted output\n".repeat(500);
    let chunks: Vec<&[u8]> = text.chunks(37).collect();
    let (total, cached, downstream) = run(&chunks, 1 << 20, 1 << 20);
    assert_eq!(total, text.len() as u64);
    assert_eq!(downstream, text);
    assert_eq!(zstd::stream::decode_all(&cached.unwrap()[..]).unwrap(), text);
}

#[test]
fn nothing_written_is_cached_as_empty() {
    let (total, cached, downstream) = run(&[], 1 << 10, 1 << 10);
    assert_eq!(total, 0);
    assert!(downstream.is_empty());
    let artifact = cached.unwrap();
    assert!(zstd::stream::decode_all(&artifact[..]).unwrap().is_empty());
}

#[test]
fn overflow_at_finish_drops_the_copy() {
    let text = b"short".to_vec();
    let (total, cached, downstream) = run(&[&text], 0, 1 << 10);
    assert_eq!(total, 5);
    assert_eq!(downstream, text);
    assert!(cached.is_none());
}

#[test]
fn overflow_mid_stream_drops_the_copy() {
    let data = noise(1 << 20);
    let chunks: Vec<&[u8]> = data.chunks(64 * 1024).collect();
    let (total, cached, downstream) = run(&chunks, 1000, 1000);
    assert_eq!(total, data.len() as u64);
    assert_eq!(downstream, data);
    assert!(cached.is_none());
}

#[test]
fn dropped_copy_is_never_taken_up_again() {
    let data = noise(1 << 20);
    let mut writer = CachingWriter::new(10, 3).unwrap();
    let mut dropped = false;
    for chunk in data.chunks(128 * 1024) {
        let mut rest = chunk;
        while !rest.is_empty() {
            match writer.write(rest).unwrap() {
                Forward::All { wrote, compressed_len } => {
                    assert!(!dropped);
                    assert!(wrote <= rest.len());
                    if !within_budget(compressed_len, 10) {
                        dropped = true;
                    }
                    writer.record(wrote);
                    rest = &rest[wrote..];
                }
                Forward::Offer => {
                    assert!(dropped);
                    writer.record(rest.len());
                    rest = &[];
                }
            }
        }
        writer.flush().unwrap();
    }
    assert!(dropped);
    assert!(matches!(writer.write(b"compressible compressible").unwrap(), Forward::Offer));
    let (total, cached) = writer.finish().unwrap();
    assert_eq!(total, data.len() as u64);
    assert!(cached.is_none());
}

#[test]
fn total_counts_what_downstream_accepted() {
    let mut writer = CachingWriter::new(1 << 20, 1).unwrap();
    match writer.write(b"0123456789").unwrap() {
        Forward::All { wrote, .. } => {
            assert_eq!(wrote, 10);
            writer.record(wrote);
        }
        Forward::Offer => panic!("the copy is still kept"),
    }
    writer.record(0);
    writer.record(7);
    let (total, cached) = writer.finish().unwrap();
    assert_eq!(total, 17);
    assert_eq!(zstd::stream::decode_all(&cached.unwrap()[..]).unwrap(), b"0123456789");
}

fn in_one_write(text: &[u8], max: usize) -> (u64, Option<Vec<u8>>) {
    let mut writer = CachingWriter::new(max, 3).unwrap();
    match writer.write(text).unwrap() {
        Forward::All { wrote, .. } => assert_eq!(wrote, text.len()),
        Forward::Offer => panic!("the copy is still kept"),
    }
    writer.record(text.len());
    writer.finish().unwrap()
}

#[test]
fn artifact_at_the_budget_is_kept() {
    let text = b"abcabcabcabcabcabcabcabc".to_vec();
    let len = in_one_write(&text, 1 << 20).1.unwrap().len();
    let (total, kept) = in_one_write(&text, len);
    assert_eq!(total, text.len() as u64);
    assert_eq!(kept.unwrap().len(), len);
    assert_eq!(in_one_write(&text, len - 1), (text.len() as u64, None));
}

#[test]
fn budget_decision() {
    assert!(within_budget(0, 0));
    assert!(within_budget(10, 10));
    assert!(!within_budget(11, 10));
    assert!(within_budget(3, usize::MAX));
}

#[test]
fn flush_after_drop_succeeds() {
    let mut writer = CachingWriter::new(0, 3).unwrap();
    let data = noise(1 << 19);
    for chunk in data.chunks(1 << 17) {
        let _ = writer.write(chunk).unwrap();
        writer.record(chunk.len());
    }
    assert!(writer.flush().is_ok());
    assert_eq!(writer.finish().unwrap(), (data.len() as u64, None));
}

fn copy_len_after(writer: &mut CachingWriter) -> usize {
    match writer.write(b"").unwrap() {
        Forward::All { wrote, compressed_len } => {
            assert_eq!(wrote, 0);
            compressed_len
        }
        Forward::Offer => panic!("the copy is still kept"),
    }
}

#[test]
fn flush_moves_held_back_bytes_into_the_copy() {
    let mut writer = CachingWriter::new(1 << 20, 3).unwrap();
    match writer.write(b"some converted text").unwrap() {
        Forward::All { wrote, compressed_len } => {
            assert_eq!(wrote, 19);
            assert_eq!(compressed_len, 0);
            writer.record(wrote);
        }
        Forward::Offer => panic!("the copy is still kept"),
    }
    assert_eq!(copy_len_after(&mut writer), 0);
    writer.flush().unwrap();
    let flushed = copy_len_after(&mut writer);
    assert!(flushed > 0);
    writer.flush().unwrap();
    assert!(copy_len_after(&mut writer) >= flushed);
    let (total, cached) = writer.finish().unwrap();
    assert_eq!(total, 19);
    assert_eq!(
        zstd::stream::decode_all(&cached.unwrap()[..]).unwrap(),
        b"some converted text"
    );
}

#[test]
fn flush_keeps_a_copy_that_it_pushes_over_the_budget() {
    let mut writer = CachingWriter::new(1, 3).unwrap();
    assert!(matches!(
        writer.write(b"some converted text").unwrap(),
        Forward::All { wrote: 19, compressed_len: 0 }
    ));
    writer.record(19);
    writer.flush().unwrap();
    match writer.write(b"").unwrap() {
        Forward::All { compressed_len, .. } => assert!(compressed_len > 1),
        Forward::Offer => panic!("flushing gives up no copy"),
    }
    assert!(matches!(writer.write(b"more").unwrap(), Forward::Offer));
    writer.record(4);
    assert_eq!(writer.finish().unwrap(), (23, None));
}

fn prose(words: usize) -> Vec<u8> {
    let vocabulary: [&str; 12] = [
        "adapter", "archive", "stream", "matcher", "cache", "budget", "writer", "search",
        "extension", "content", "prefix", "depth",
    ];
    let mut state: u64 = 0x9E3779B97F4A7C15;
    let mut out = Vec::new();
    for _ in 0..words {
        state ^= state << 13;
        state ^= state >> 7;
        state ^= state << 17;
        out.extend_from_slice(vocabulary[(state % 12) as usize].as_bytes());
        out.push(b' ');
    }
    out
}

fn artifact_at_level(text: &[u8], level: i32) -> Vec<u8> {
    let mut writer = CachingWriter::new(1 << 24, level).unwrap();
    let mut rest = text;
    while !rest.is_empty() {
        match writer.write(rest).unwrap() {
            Forward::All { wrote, .. } => {
                writer.record(wrote);
                rest = &rest[wrote..];
            }
            Forward::Offer => panic!("the copy is still kept"),
        }
    }
    let (total, cached) = writer.finish().unwrap();
    assert_eq!(total, text.len() as u64);
    cached.unwrap()
}

#[test]
fn copy_is_compressed_at_the_given_level() {
    let text = prose(40_000);
    let fast = artifact_at_level(&text, 1);
    let thorough = artifact_at_level(&text, 19);
    assert_eq!(zstd::stream::decode_all(&fast[..]).unwrap(), text);
    assert_eq!(zstd::stream::decode_all(&thorough[..]).unwrap(), text);
    assert!(thorough.len() < fast.len());
    assert_eq!(artifact_at_level(&text, 1), fast);
}

#[test]
fn compressor_failure_is_reported_as_it_came() {
    let failure = std::io::Error::new(std::io::ErrorKind::Other, "encoder is finished");
    match adapter_core::caching_writer::reported::<usize>(Err(failure)) {
        Err(e) => {
            assert_eq!(e.source.kind(), std::io::ErrorKind::Other);
            assert_eq!(e.source.to_string(), "encoder is finished");
        }
        Ok(_) => panic!("a failure was reported as success"),
    }
    assert_eq!(adapter_core::caching_writer::reported(Ok(7usize)).unwrap(), 7);
}

#[test]
fn new_writer_has_taken_nothing() {
    for level in [0, 1, 3, 19] {
        let writer = CachingWriter::new(64, level).unwrap();
        assert_eq!(writer.bytes_written(), 0);
        let (total, cached) = writer.finish().unwrap();
        assert_eq!(total, 0);
        assert!(zstd::stream::decode_all(&cached.unwrap()[..]).unwrap().is_empty());
    }
}

#[test]
fn write_takes_the_whole_buffer_at_once() {
    let data = noise(1 << 20);
    let mut writer = CachingWriter::new(1 << 24, 3).unwrap();
    match writer.write(&data).unwrap() {
        Forward::All { wrote, compressed_len } => {
            assert_eq!(wrote, data.len());
            assert!(compressed_len > 0);
        }
        Forward::Offer => panic!("the copy is still kept"),
    }
    writer.record(data.len());
    let (total, cached) = writer.finish().unwrap();
    assert_eq!(total, data.len() as u64);
    assert_eq!(zstd::stream::decode_all(&cached.unwrap()[..]).unwrap(), data);
}

#[test]
fn empty_write_keeps_the_copy() {
    let mut writer = CachingWriter::new(1024, 3).unwrap();
    assert!(matches!(
        writer.write(b"").unwrap(),
        Forward::All { wrote: 0, compressed_len: 0 }
    ));
    assert_eq!(writer.bytes_written(), 0);
    let (total, cached) = writer.finish().unwrap();
    assert_eq!(total, 0);
    assert!(zstd::stream::decode_all(&cached.unwrap()[..]).unwrap().is_empty());
}

#[test]
fn overflow_call_forwards_its_whole_buffer() {
    let mut writer = CachingWriter::new(1, 3).unwrap();
    assert!(matches!(
        writer.write(b"a").unwrap(),
        Forward::All { wrote: 1, compressed_len: 0 }
    ));
    writer.record(1);
    writer.flush().unwrap();
    match writer.write(b"b").unwrap() {
        Forward::All { wrote, compressed_len } => {
            assert_eq!(wrote, 1);
            assert!(compressed_len > 1);
        }
        Forward::Offer => panic!("the copy was kept until this call"),
    }
    writer.record(1);
    assert!(matches!(writer.write(b"c").unwrap(), Forward::Offer));
    assert_eq!(writer.finish().unwrap(), (2, None));
}

#[test]
fn overflow_inside_a_large_buffer_forwards_all_of_it() {
    let data = noise(1 << 20);
    let mut writer = CachingWriter::new(100, 3).unwrap();
    match writer.write(&data).unwrap() {
        Forward::All { wrote, compressed_len } => {
            assert_eq!(wrote, data.len());
            assert!(compressed_len > 100);
        }
        Forward::Offer => panic!("the copy was kept until this call"),
    }
    writer.record(data.len());
    assert!(matches!(writer.write(b"x").unwrap(), Forward::Offer));
    assert_eq!(writer.finish().unwrap(), (data.len() as u64, None));
}
