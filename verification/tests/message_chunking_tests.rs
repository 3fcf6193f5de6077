use qudag_network::message_chunking::{ChunkableMessage, ChunkerConfig, MessageChunker};
use qudag_network::types::{MessagePriority, NetworkError, NetworkMessage};

fn message(id: &str, payload: Vec<u8>) -> NetworkMessage {
    NetworkMessage {
        id: id.to_string(),
        source: vec![1],
        destination: vec![2],
        payload,
        priority: MessagePriority::Normal,
        ttl_secs: 60,
    }
}

fn uncompressed(max_chunk_size: usize) -> ChunkerConfig {
    ChunkerConfig { max_chunk_size, enable_compression: false, ..Default::default() }
}

#[test]
fn test_message_reassembly() {
    let mut chunker = MessageChunker::new(uncompressed(1024));
    let original_data = vec![42u8; 2500];
    let msg = message(&uuid::Uuid::new_v4().to_string(), original_data.clone());
    let chunks = chunker.chunk_message(&msg).unwrap();
    let mut reassembled_data = None;
    for chunk in chunks {
        if let Some(data) = chunker.process_chunk(chunk).unwrap() {
            reassembled_data = Some(data);
        }
    }
    assert_eq!(reassembled_data.unwrap(), original_data);
}

#[test]
fn test_out_of_order_reassembly() {
    let mut chunker = MessageChunker::new(uncompressed(1024));
    let original_data = vec![99u8; 3072];
    let msg = message(&uuid::Uuid::new_v4().to_string(), original_data.clone());
    let chunks = chunker.chunk_message(&msg).unwrap();
    let mut reassembled_data = None;
    chunker.process_chunk(chunks[2].clone()).unwrap();
    chunker.process_chunk(chunks[0].clone()).unwrap();
    if let Some(data) = chunker.process_chunk(chunks[1].clone()).unwrap() {
        reassembled_data = Some(data);
    }
    assert_eq!(reassembled_data.unwrap(), original_data);
}

#[test]
fn chunks_without_compression() {
    let chunker = MessageChunker::new(uncompressed(1024));
    let msg = message("m", vec![0u8; 3000]);
    let chunks = chunker.chunk_message(&msg).unwrap();
    assert_eq!(chunks.len(), 3);
    for (i, chunk) in chunks.iter().enumerate() {
        assert_eq!(chunk.header.chunk_index, i as u32);
        assert_eq!(chunk.header.total_chunks, 3);
        assert!(chunk.header.chunk_size <= 1024);
        assert_eq!(chunk.header.original_size, 3000);
        assert_eq!(&chunk.header.message_hash, blake3::hash(&msg.payload).as_bytes());
    }
    assert_eq!(chunks[2].data.len(), 3000 - 2048);
    // Small payloads need no chunking.
    assert!(chunker.chunk_message(&message("s", vec![1; 1024])).unwrap().is_empty());
}

#[test]
fn compressed_payloads_round_trip() {
    let mut chunker = MessageChunker::new(ChunkerConfig { max_chunk_size: 16, ..Default::default() });
    let payload: Vec<u8> = (0..2000u32).map(|i| (i * 7 % 251) as u8).collect();
    let msg = message("c", payload.clone());
    let chunks = chunker.chunk_message(&msg).unwrap();
    let compressed = zstd::encode_all(&payload[..], 3).unwrap();
    assert_eq!(chunks.len(), (compressed.len() + 15) / 16);
    assert_eq!(&chunks[0].header.message_hash, blake3::hash(&compressed).as_bytes());
    let mut out = None;
    for chunk in chunks.into_iter().rev() {
        if let Some(d) = chunker.process_chunk_at(chunk, 5).unwrap() {
            out = Some(d);
        }
    }
    assert_eq!(out.unwrap(), payload);
    // A chunk of a message already reassembled is answered from the cache.
    let again = chunker.chunk_message(&msg).unwrap();
    assert_eq!(chunker.process_chunk_at(again[0].clone(), 6).unwrap(), Some(payload));
    assert_eq!(chunker.get_stats().cache_size, 1);
}

#[test]
fn chunk_validation_errors() {
    let mut chunker = MessageChunker::new(uncompressed(4));
    let msg = message("v", vec![1, 2, 3, 4, 5, 6]);
    let chunks = chunker.chunk_message(&msg).unwrap();
    assert!(chunker.validate_chunk(&chunks[0]).is_ok());

    let mut bad = chunks[0].clone();
    bad.header.chunk_index = 2;
    match chunker.validate_chunk(&bad) {
        Err(NetworkError::ValidationError(m)) => assert_eq!(m, "Invalid chunk index"),
        _ => panic!("expected a validation error"),
    }
    let mut bad = chunks[0].clone();
    bad.data.push(0);
    match chunker.process_chunk_at(bad, 0) {
        Err(NetworkError::ValidationError(m)) => assert_eq!(m, "Chunk size mismatch"),
        _ => panic!("expected a validation error"),
    }
    let mut bad = chunks[0].clone();
    bad.data.push(0);
    bad.header.chunk_size = 5;
    match chunker.validate_chunk(&bad) {
        Err(NetworkError::ValidationError(m)) => assert_eq!(m, "Chunk size exceeds maximum"),
        _ => panic!("expected a validation error"),
    }
    let mut bad = chunks[1].clone();
    chunker.process_chunk_at(chunks[0].clone(), 0).unwrap();
    bad.header.total_chunks = 3;
    match chunker.process_chunk_at(bad, 0) {
        Err(NetworkError::ValidationError(m)) => assert_eq!(m, "Inconsistent chunk count"),
        _ => panic!("expected a validation error"),
    }
}

#[test]
fn corrupted_chunks_fail_the_hash_check() {
    let mut chunker = MessageChunker::new(uncompressed(4));
    let msg = message("h", vec![1, 2, 3, 4, 5, 6]);
    let mut chunks = chunker.chunk_message(&msg).unwrap();
    chunks[1].data[0] = 99;
    assert_eq!(chunker.process_chunk_at(chunks[0].clone(), 0).unwrap(), None);
    assert!(matches!(chunker.process_chunk_at(chunks[1].clone(), 0), Err(NetworkError::ValidationError(_))));
}

#[test]
fn stale_reassemblies_are_dropped() {
    let mut chunker = MessageChunker::new(ChunkerConfig { max_chunk_size: 4, enable_compression: false, chunk_timeout_ns: 100, ..Default::default() });
    let msg = message("t", vec![1, 2, 3, 4, 5, 6]);
    let chunks = chunker.chunk_message(&msg).unwrap();
    chunker.process_chunk_at(chunks[0].clone(), 0).unwrap();
    assert_eq!(chunker.get_stats().active_reassemblies, 1);
    assert_eq!(chunker.get_stats().total_chunks_waiting, 1);
    chunker.cleanup_expired_at(99);
    assert_eq!(chunker.get_stats().active_reassemblies, 1);
    chunker.cleanup_expired_at(100);
    assert_eq!(chunker.get_stats().active_reassemblies, 0);
}

#[test]
fn chunkable_messages() {
    let msg = message("k", vec![0; 10]);
    assert!(msg.needs_chunking(9));
    assert!(!msg.needs_chunking(10));
    let chunked = msg.into_chunked();
    assert!(chunked.chunks.is_none());
    assert_eq!(chunked.base.id, "k");
}

#[test]
fn payloads_that_do_not_shrink_are_sent_as_they_are() {
    let mut chunker = MessageChunker::new(ChunkerConfig { max_chunk_size: 1024, ..Default::default() });
    let mut x: u32 = 12345;
    let payload: Vec<u8> = (0..3000)
        .map(|_| {
            x = x.wrapping_mul(1_103_515_245).wrapping_add(12_345);
            (x >> 16) as u8
        })
        .collect();
    assert!(zstd::encode_all(&payload[..], 3).unwrap().len() >= payload.len());
    let msg = message("noisy", payload.clone());
    let chunks = chunker.chunk_message(&msg).unwrap();
    assert_eq!(chunks.len(), 3);
    assert_eq!(&chunks[0].header.message_hash, blake3::hash(&payload).as_bytes());
    let mut out = None;
    for chunk in chunks {
        if let Some(d) = chunker.process_chunk_at(chunk, 1).unwrap() {
            out = Some(d);
        }
    }
    assert_eq!(out.unwrap(), payload);
}

#[test]
fn zero_payload_with_default_compression_round_trips() {
    let mut chunker = MessageChunker::new(ChunkerConfig { max_chunk_size: 1024, ..Default::default() });
    let msg = message("zeros", vec![0u8; 3000]);
    let chunks = chunker.chunk_message(&msg).unwrap();
    assert_eq!(chunks.len(), 1);
    assert_eq!(chunker.process_chunk_at(chunks[0].clone(), 1).unwrap(), Some(vec![0u8; 3000]));
}
