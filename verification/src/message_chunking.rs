//! Splitting large messages into chunks and reassembling them.
//!
//! A payload larger than the chunk size is (optionally) compressed, hashed
//! with BLAKE3 and cut into consecutive pieces of at most `max_chunk_size`
//! bytes. The receiver collects pieces per message id in any order and, once
//! all are present, concatenates them, checks the hash and decompresses.

use vstd::prelude::*;
use crate::clock::now_nanos;
use crate::compression::{zstd_decode, zstd_decoded, zstd_encode, zstd_encoded};
use crate::digest::{blake3_digest, blake3_hash};
use crate::lru_cache::{lru_entries, lru_capacity, lru_get, lru_len, lru_new, lru_put, put_outcome, MessageCache};
use crate::text::{decimal, push_decimal};
use crate::types::{NetworkError, NetworkMessage};

verus! {

/// Default maximum chunk size (64 KiB).
pub const MAX_CHUNK_SIZE: usize = 65536;

/// Maximum number of chunks per message.
pub const MAX_CHUNKS: usize = 10000;

/// Default time after which an incomplete reassembly is dropped (30 s).
pub const CHUNK_TIMEOUT_NS: u64 = 30_000_000_000;

/// zstd level used for compression.
pub const COMPRESSION_LEVEL: i32 = 3;

/// Header of one chunk.
#[derive(Debug, Clone)]
pub struct ChunkHeader {
    /// Id of the message the chunk belongs to
    pub message_id: String,
    /// Number of chunks of the message
    pub total_chunks: u32,
    /// Position of this chunk
    pub chunk_index: u32,
    /// Length of this chunk's data
    pub chunk_size: usize,
    /// BLAKE3 hash of the transmitted (possibly compressed) bytes
    pub message_hash: [u8; 32],
    /// Length of the original payload
    pub original_size: usize,
}

/// A chunk with its header.
#[derive(Debug, Clone)]
pub struct ChunkedMessage {
    /// Chunk header
    pub header: ChunkHeader,
    /// Chunk data
    pub data: Vec<u8>,
}

/// A received chunk.
#[derive(Debug)]
pub struct StreamingChunk {
    /// Chunk data
    pub data: Vec<u8>,
    /// Time of arrival, in nanoseconds
    pub received_at: u64,
}

/// Reassembly progress of one message.
#[derive(Debug)]
pub struct ReassemblyState {
    /// Received chunks by index; each index at most once
    pub chunks: Vec<(u32, StreamingChunk)>,
    /// Expected number of chunks
    pub total_chunks: u32,
    /// Original payload length
    pub original_size: usize,
    /// Expected BLAKE3 hash of the concatenated chunks
    pub message_hash: [u8; 32],
    /// Time of the first chunk
    pub started_at: u64,
    /// Time of the latest chunk
    pub last_activity: u64,
}

/// Chunker configuration.
#[derive(Debug, Clone, Copy)]
pub struct ChunkerConfig {
    /// Maximum chunk size
    pub max_chunk_size: usize,
    /// Inactivity after which a reassembly is dropped, in nanoseconds
    pub chunk_timeout_ns: u64,
    /// Whether large payloads are compressed
    pub enable_compression: bool,
    /// Payloads longer than this are compressed
    pub compression_threshold: usize,
    /// Number of reassembled messages kept in the cache
    pub cache_size: usize,
}

impl ChunkerConfig {
    /// 64 KiB chunks, 30 s timeout, compression above 1 KiB, 1000 cached messages.
    pub open spec fn spec_default() -> ChunkerConfig {
        ChunkerConfig {
            max_chunk_size: MAX_CHUNK_SIZE,
            chunk_timeout_ns: CHUNK_TIMEOUT_NS,
            enable_compression: true,
            compression_threshold: 1024,
            cache_size: 1000,
        }
    }
}

impl Default for ChunkerConfig {
    fn default() -> (r: Self)
        ensures
            r == ChunkerConfig::spec_default(),
    {
        ChunkerConfig {
            max_chunk_size: MAX_CHUNK_SIZE,
            chunk_timeout_ns: CHUNK_TIMEOUT_NS,
            enable_compression: true,
            compression_threshold: 1024,
            cache_size: 1000,
        }
    }
}

/// `data` cut into consecutive pieces of `max` bytes, the last one shorter.
pub open spec fn split_chunks(data: Seq<u8>, max: nat) -> Seq<Seq<u8>>
    decreases data.len(),
{
    if data.len() == 0 || max == 0 {
        seq![]
    } else if data.len() <= max {
        seq![data]
    } else {
        seq![data.take(max as int)] + split_chunks(data.skip(max as int), max)
    }
}

/// The pieces of `s` joined in order.
pub open spec fn concat_all(s: Seq<Seq<u8>>) -> Seq<u8>
    decreases s.len(),
{
    if s.len() == 0 {
        seq![]
    } else {
        s[0] + concat_all(s.drop_first())
    }
}

/// Joining the pieces gives back the data.
pub proof fn lemma_split_concat(data: Seq<u8>, max: nat)
    requires
        max > 0,
    ensures
        concat_all(split_chunks(data, max)) == data,
        forall|i: int| 0 <= i < split_chunks(data, max).len() ==> 0 < (#[trigger] split_chunks(data, max)[i]).len() <= max,
    decreases data.len(),
{
    if data.len() == 0 {
        assert(concat_all(split_chunks(data, max)) =~= data);
    } else if data.len() <= max {
        let s = split_chunks(data, max);
        assert(s.drop_first() =~= Seq::<Seq<u8>>::empty());
        assert(concat_all(s.drop_first()) =~= Seq::<u8>::empty());
        assert(concat_all(s) =~= data);
    } else {
        lemma_split_concat(data.skip(max as int), max);
        let s = split_chunks(data, max);
        assert(s.drop_first() =~= split_chunks(data.skip(max as int), max));
        assert(data.take(max as int) + data.skip(max as int) =~= data);
        assert forall|i: int| 0 <= i < s.len() implies 0 < (#[trigger] s[i]).len() <= max by {
            if i > 0 {
                assert(s[i] == split_chunks(data.skip(max as int), max)[i - 1]);
            }
        }
    }
}

/// Whether a payload of `len` bytes is compressed before chunking.
pub open spec fn compresses(config: ChunkerConfig, len: nat) -> bool {
    config.enable_compression && len > config.compression_threshold
}

/// The bytes that are hashed and cut for `payload`, or `None` where
/// compression fails: the zstd frame of the payload when it is compressed
/// and the frame is shorter than the payload, else the payload itself.
pub open spec fn transmitted_bytes(config: ChunkerConfig, payload: Seq<u8>) -> Option<Seq<u8>> {
    if compresses(config, payload.len()) {
        match zstd_encoded(payload, COMPRESSION_LEVEL) {
            Some(c) => if c.len() < payload.len() { Some(c) } else { Some(payload) },
            None => None,
        }
    } else {
        Some(payload)
    }
}

/// The chunk list for `message` whose transmitted bytes are `data`.
pub open spec fn chunks_for(message: NetworkMessage, data: Seq<u8>, max: nat, r: Seq<ChunkedMessage>) -> bool {
    let pieces = split_chunks(data, max);
    &&& r.len() == pieces.len()
    &&& forall|i: int|
        0 <= i < r.len() ==> {
            &&& (#[trigger] r[i]).data@ == pieces[i]
            &&& r[i].header.message_id@ == message.id@
            &&& r[i].header.total_chunks == pieces.len()
            &&& r[i].header.chunk_index == i
            &&& r[i].header.chunk_size == pieces[i].len()
            &&& r[i].header.message_hash@ == blake3_digest(data)
            &&& r[i].header.original_size == message.payload@.len()
        }
}

/// The data of the received chunks, by index.
pub open spec fn chunk_map(s: Seq<(u32, StreamingChunk)>) -> Map<u32, Seq<u8>>
    decreases s.len(),
{
    if s.len() == 0 {
        Map::empty()
    } else {
        chunk_map(s.drop_last()).insert(s.last().0, s.last().1.data@)
    }
}

/// Indices occur at most once.
pub open spec fn distinct_indices(s: Seq<(u32, StreamingChunk)>) -> bool {
    forall|i: int, j: int| 0 <= i < j < s.len() ==> (#[trigger] s[i]).0 != (#[trigger] s[j]).0
}

/// The chunks `0..n` of `m` joined in order.
pub open spec fn join_indices(m: Map<u32, Seq<u8>>, n: nat) -> Seq<u8>
    decreases n,
{
    if n == 0 {
        seq![]
    } else {
        join_indices(m, (n - 1) as nat) + m[(n - 1) as u32]
    }
}

/// All chunks `0..n` are present in `m`.
pub open spec fn all_present(m: Map<u32, Seq<u8>>, n: nat) -> bool {
    forall|i: u32| i < n ==> #[trigger] m.dom().contains(i)
}

/// The map from index to piece for a complete split.
pub open spec fn pieces_map(pieces: Seq<Seq<u8>>) -> Map<u32, Seq<u8>> {
    Map::new(|i: u32| (i as int) < pieces.len(), |i: u32| pieces[i as int])
}

/// Joining the first `n` pieces in index order gives their concatenation.
proof fn lemma_join_pieces(pieces: Seq<Seq<u8>>, n: nat)
    requires
        n <= pieces.len(),
        pieces.len() <= 0xffff_ffff,
    ensures
        join_indices(pieces_map(pieces), n) == concat_all(pieces.take(n as int)),
    decreases n,
{
    if n == 0 {
        assert(pieces.take(0) =~= Seq::<Seq<u8>>::empty());
    } else {
        lemma_join_pieces(pieces, (n - 1) as nat);
        lemma_concat_push(pieces.take((n - 1) as int), pieces[n - 1]);
        assert(pieces.take(n as int) =~= pieces.take((n - 1) as int).push(pieces[n - 1]));
        assert(pieces_map(pieces)[(n - 1) as u32] == pieces[n - 1]);
    }
}

proof fn lemma_concat_push(s: Seq<Seq<u8>>, x: Seq<u8>)
    ensures
        concat_all(s.push(x)) == concat_all(s) + x,
    decreases s.len(),
{
    if s.len() == 0 {
        assert(s.push(x).drop_first() =~= Seq::<Seq<u8>>::empty());
        assert(concat_all(s.push(x).drop_first()) =~= Seq::<u8>::empty());
        assert(concat_all(s) =~= Seq::<u8>::empty());
        assert(concat_all(s.push(x)) =~= x);
    } else {
        lemma_concat_push(s.drop_first(), x);
        assert(s.push(x).drop_first() =~= s.drop_first().push(x));
        assert(concat_all(s.push(x)) =~= s[0] + (concat_all(s.drop_first()) + x));
    }
}

/// The law of chunking: once every chunk of a split has arrived, in whatever
/// order, joining them by index gives back the data that was split.
pub proof fn law_reassembly_restores_data(data: Seq<u8>, max: nat)
    requires
        max > 0,
        split_chunks(data, max).len() <= 0xffff_ffff,
    ensures
        ({
            let pieces = split_chunks(data, max);
            &&& all_present(pieces_map(pieces), pieces.len())
            &&& join_indices(pieces_map(pieces), pieces.len()) == data
        }),
{
    let pieces = split_chunks(data, max);
    lemma_split_concat(data, max);
    lemma_join_pieces(pieces, pieces.len());
    assert(pieces.take(pieces.len() as int) =~= pieces);
}

/// Whether the chunks `0..total` of `m` are incomplete or do not hash to `hash`.
pub open spec fn reassembly_invalid(m: Map<u32, Seq<u8>>, total: nat, hash: Seq<u8>) -> bool {
    !all_present(m, total) || blake3_digest(join_indices(m, total)) != hash
}

/// What reassembling a complete state yields: the joined chunks if their hash
/// matches, decompressed when compression is on and the joined bytes are
/// shorter than the original payload.
pub open spec fn reassembly_result(
    config: ChunkerConfig,
    m: Map<u32, Seq<u8>>,
    total: nat,
    hash: Seq<u8>,
    original_size: nat,
) -> Option<Seq<u8>> {
    let data = join_indices(m, total);
    if !all_present(m, total) || blake3_digest(data) != hash {
        None
    } else if config.enable_compression && data.len() < original_size {
        zstd_decoded(data)
    } else {
        Some(data)
    }
}

/// Copy of `s[from..to]`.
fn copy_range(s: &[u8], from: usize, to: usize) -> (r: Vec<u8>)
    requires
        from <= to <= s@.len(),
    ensures
        r@ == s@.subrange(from as int, to as int),
{
    let mut r: Vec<u8> = Vec::new();
    let mut i = from;
    while i < to
        invariant
            from <= i <= to,
            to <= s@.len(),
            r@ == s@.subrange(from as int, i as int),
        decreases to - i,
    {
        r.push(s[i]);
        i = i + 1;
        assert(r@ =~= s@.subrange(from as int, i as int));
    }
    r
}

/// `data` cut into pieces of at most `max` bytes.
fn split_into_pieces(data: &[u8], max: usize) -> (r: Vec<Vec<u8>>)
    requires
        max > 0,
    ensures
        r@.len() == split_chunks(data@, max as nat).len(),
        forall|i: int| 0 <= i < r@.len() ==> (#[trigger] r@[i])@ == split_chunks(data@, max as nat)[i],
{
    let mut r: Vec<Vec<u8>> = Vec::new();
    let mut offset: usize = 0;
    let len = data.len();
    assert(data@.skip(0) =~= data@);
    while offset < len
        invariant
            max > 0,
            len == data@.len(),
            offset <= len,
            r@.len() + split_chunks(data@.skip(offset as int), max as nat).len() == split_chunks(data@, max as nat).len(),
            forall|i: int| 0 <= i < r@.len() ==> (#[trigger] r@[i])@ == split_chunks(data@, max as nat)[i],
            forall|i: int| 0 <= i < split_chunks(data@.skip(offset as int), max as nat).len() ==>
                split_chunks(data@, max as nat)[r@.len() + i] == #[trigger] split_chunks(data@.skip(offset as int), max as nat)[i],
        decreases len - offset,
    {
        let ghost rest = data@.skip(offset as int);
        let end: usize = if len - offset > max { offset + max } else { len };
        let piece = copy_range(data, offset, end);
        proof {
            if rest.len() > max {
                assert(rest.skip(max as int) =~= data@.skip(end as int));
                assert(piece@ =~= rest.take(max as int));
            } else {
                assert(data@.skip(end as int) =~= Seq::<u8>::empty());
                assert(piece@ =~= rest);
            }
            assert(split_chunks(rest, max as nat)[0] == piece@);
            assert forall|i: int| 0 <= i < split_chunks(data@.skip(end as int), max as nat).len() implies
                split_chunks(rest, max as nat)[i + 1] == #[trigger] split_chunks(data@.skip(end as int), max as nat)[i] by {
            }
        }
        r.push(piece);
        offset = end;
        proof {
            assert forall|i: int| 0 <= i < split_chunks(data@.skip(offset as int), max as nat).len() implies
                split_chunks(data@, max as nat)[r@.len() + i] == #[trigger] split_chunks(data@.skip(offset as int), max as nat)[i] by {
                assert(split_chunks(rest, max as nat)[i + 1] == split_chunks(data@.skip(offset as int), max as nat)[i]);
            }
        }
    }
    proof {
        assert(data@.skip(offset as int) =~= Seq::<u8>::empty());
    }
    r
}

/// Abstract reassembly progress: chunk data by index plus the bookkeeping.
pub struct ReassemblyView {
    /// Chunk data by index
    pub chunks: Map<u32, Seq<u8>>,
    /// Number of chunks received
    pub count: nat,
    /// Expected number of chunks
    pub total_chunks: u32,
    /// Original payload length
    pub original_size: usize,
    /// Expected hash
    pub message_hash: Seq<u8>,
    /// Time of the first chunk
    pub started_at: u64,
    /// Time of the latest chunk
    pub last_activity: u64,
}

impl ReassemblyState {
    /// Indices are distinct.
    pub open spec fn wf(&self) -> bool {
        distinct_indices(self.chunks@)
    }

    /// Abstract view.
    pub open spec fn view(&self) -> ReassemblyView {
        ReassemblyView {
            chunks: chunk_map(self.chunks@),
            count: self.chunks@.len(),
            total_chunks: self.total_chunks,
            original_size: self.original_size,
            message_hash: self.message_hash@,
            started_at: self.started_at,
            last_activity: self.last_activity,
        }
    }

    /// Position of chunk `index`.
    fn find(&self, index: u32) -> (r: Option<usize>)
        requires
            self.wf(),
        ensures
            r matches Some(p) ==> p < self.chunks@.len() && self.chunks@[p as int].0 == index,
            r is None ==> forall|j: int| 0 <= j < self.chunks@.len() ==> (#[trigger] self.chunks@[j]).0 != index,
            r is Some <==> chunk_map(self.chunks@).dom().contains(index),
            r matches Some(p) ==> chunk_map(self.chunks@)[index] == self.chunks@[p as int].1.data@,
    {
        let mut i: usize = 0;
        while i < self.chunks.len()
            invariant
                self.wf(),
                0 <= i <= self.chunks@.len(),
                forall|j: int| 0 <= j < i ==> (#[trigger] self.chunks@[j]).0 != index,
            decreases self.chunks@.len() - i,
        {
            if self.chunks[i].0 == index {
                proof {
                    lemma_chunk_map_at(self.chunks@, i as int);
                }
                return Some(i);
            }
            i = i + 1;
        }
        proof {
            lemma_chunk_map_absent(self.chunks@, index);
        }
        None
    }

    /// Stores `data` as chunk `index`, replacing an earlier copy.
    fn insert_chunk(&mut self, index: u32, data: Vec<u8>, now: u64)
        requires
            old(self).wf(),
        ensures
            final(self).wf(),
            final(self)@ == (ReassemblyView {
                chunks: old(self)@.chunks.insert(index, data@),
                count: if old(self)@.chunks.dom().contains(index) {
                    old(self)@.count
                } else {
                    old(self)@.count + 1
                },
                ..old(self)@
            }),
    {
        match self.find(index) {
            Some(p) => {
                let ghost s0 = self.chunks@;
                self.chunks.set(p, (index, StreamingChunk { data, received_at: now }));
                proof {
                    lemma_chunk_map_update(s0, p as int, self.chunks@[p as int]);
                    assert(self.chunks@ == s0.update(p as int, self.chunks@[p as int]));
                }
            },
            None => {
                let ghost s0 = self.chunks@;
                self.chunks.push((index, StreamingChunk { data, received_at: now }));
                proof {
                    assert(self.chunks@.drop_last() =~= s0);
                }
            },
        }
    }
}

proof fn lemma_chunk_map_absent(s: Seq<(u32, StreamingChunk)>, k: u32)
    requires
        forall|j: int| 0 <= j < s.len() ==> (#[trigger] s[j]).0 != k,
    ensures
        !chunk_map(s).dom().contains(k),
    decreases s.len(),
{
    if s.len() > 0 {
        lemma_chunk_map_absent(s.drop_last(), k);
        assert(s[s.len() - 1].0 != k);
    }
}

proof fn lemma_chunk_map_at(s: Seq<(u32, StreamingChunk)>, i: int)
    requires
        distinct_indices(s),
        0 <= i < s.len(),
    ensures
        chunk_map(s).dom().contains(s[i].0),
        chunk_map(s)[s[i].0] == s[i].1.data@,
    decreases s.len(),
{
    if i < s.len() - 1 {
        lemma_chunk_map_at(s.drop_last(), i);
        assert(s[i].0 != s[s.len() - 1].0);
    }
}

proof fn lemma_chunk_map_update(s: Seq<(u32, StreamingChunk)>, i: int, x: (u32, StreamingChunk))
    requires
        distinct_indices(s),
        0 <= i < s.len(),
        x.0 == s[i].0,
    ensures
        chunk_map(s.update(i, x)) == chunk_map(s).insert(x.0, x.1.data@),
        distinct_indices(s.update(i, x)),
    decreases s.len(),
{
    let t = s.update(i, x);
    assert forall|a: int, b: int| 0 <= a < b < t.len() implies (#[trigger] t[a]).0 != (#[trigger] t[b]).0 by {
        assert(t[a].0 == s[a].0 && t[b].0 == s[b].0);
    }
    if i == s.len() - 1 {
        assert(t.drop_last() =~= s.drop_last());
        assert(chunk_map(t) =~= chunk_map(s).insert(x.0, x.1.data@));
    } else {
        lemma_chunk_map_update(s.drop_last(), i, x);
        assert(t.drop_last() =~= s.drop_last().update(i, x));
        assert(s[i].0 != s[s.len() - 1].0);
        assert(chunk_map(t) =~= chunk_map(s).insert(x.0, x.1.data@));
    }
}

/// Appends `src` to `dst`.
fn append_bytes(dst: &mut Vec<u8>, src: &Vec<u8>)
    ensures
        final(dst)@ == old(dst)@ + src@,
{
    let mut i: usize = 0;
    while i < src.len()
        invariant
            0 <= i <= src@.len(),
            dst@ == old(dst)@ + src@.take(i as int),
        decreases src@.len() - i,
    {
        dst.push(src[i]);
        i = i + 1;
        assert(dst@ =~= old(dst)@ + src@.take(i as int));
    }
    assert(src@.take(src@.len() as int) =~= src@);
}

/// Whether two 32-byte hashes are equal.
fn same_hash(a: &[u8; 32], b: &[u8; 32]) -> (r: bool)
    ensures
        r == (a@ == b@),
{
    let mut i: usize = 0;
    while i < 32
        invariant
            0 <= i <= 32,
            forall|j: int| 0 <= j < i ==> a@[j] == b@[j],
        decreases 32 - i,
    {
        if a[i] != b[i] {
            return false;
        }
        i = i + 1;
    }
    assert(a@ =~= b@);
    true
}

/// Whether a chunk is acceptable: its index is below the total, its data has
/// the declared length, and that length is within the chunk size.
pub open spec fn valid_chunk(config: ChunkerConfig, chunk: ChunkedMessage) -> bool {
    &&& chunk.header.chunk_index < chunk.header.total_chunks
    &&& chunk.data@.len() == chunk.header.chunk_size
    &&& chunk.header.chunk_size <= config.max_chunk_size
}

/// Chunker statistics.
#[derive(Debug, Clone, Copy)]
pub struct ChunkerStats {
    /// Messages being reassembled
    pub active_reassemblies: usize,
    /// Reassembled messages in the cache
    pub cache_size: usize,
    /// Chunks held by unfinished reassemblies
    pub total_chunks_waiting: usize,
}

/// Reassembly states of `s` by message id.
pub open spec fn states_view(s: Seq<(String, ReassemblyState)>) -> Map<Seq<char>, ReassemblyView>
    decreases s.len(),
{
    if s.len() == 0 {
        Map::empty()
    } else {
        states_view(s.drop_last()).insert(s.last().0@, s.last().1@)
    }
}

/// Ids occur at most once and every state is well formed.
pub open spec fn states_wf(s: Seq<(String, ReassemblyState)>) -> bool {
    &&& forall|i: int, j: int| 0 <= i < j < s.len() ==> (#[trigger] s[i]).0@ != (#[trigger] s[j]).0@
    &&& forall|i: int| 0 <= i < s.len() ==> (#[trigger] s[i]).1.wf()
}

/// Sum of the chunk counts of the states in `s`.
pub open spec fn waiting_chunks(s: Seq<(String, ReassemblyState)>) -> nat
    decreases s.len(),
{
    if s.len() == 0 {
        0
    } else {
        waiting_chunks(s.drop_last()) + s.last().1.chunks@.len()
    }
}

proof fn lemma_states_absent(s: Seq<(String, ReassemblyState)>, k: Seq<char>)
    requires
        forall|j: int| 0 <= j < s.len() ==> (#[trigger] s[j]).0@ != k,
    ensures
        !states_view(s).dom().contains(k),
    decreases s.len(),
{
    if s.len() > 0 {
        lemma_states_absent(s.drop_last(), k);
        assert(s[s.len() - 1].0@ != k);
    }
}

proof fn lemma_states_at(s: Seq<(String, ReassemblyState)>, i: int)
    requires
        states_wf(s),
        0 <= i < s.len(),
    ensures
        states_view(s).dom().contains(s[i].0@),
        states_view(s)[s[i].0@] == s[i].1@,
    decreases s.len(),
{
    if i < s.len() - 1 {
        assert(states_wf(s.drop_last()));
        lemma_states_at(s.drop_last(), i);
        assert(s[i].0@ != s[s.len() - 1].0@);
    }
}

proof fn lemma_states_update(s: Seq<(String, ReassemblyState)>, i: int, x: (String, ReassemblyState))
    requires
        states_wf(s),
        0 <= i < s.len(),
        x.0@ == s[i].0@,
        x.1.wf(),
    ensures
        states_view(s.update(i, x)) == states_view(s).insert(x.0@, x.1@),
        states_wf(s.update(i, x)),
    decreases s.len(),
{
    let t = s.update(i, x);
    assert forall|a: int, b: int| 0 <= a < b < t.len() implies (#[trigger] t[a]).0@ != (#[trigger] t[b]).0@ by {
        assert(t[a].0@ == s[a].0@ && t[b].0@ == s[b].0@);
    }
    assert forall|a: int| 0 <= a < t.len() implies (#[trigger] t[a]).1.wf() by {
        if a != i {
            assert(t[a] == s[a]);
        }
    }
    if i == s.len() - 1 {
        assert(t.drop_last() =~= s.drop_last());
        assert(states_view(t) =~= states_view(s).insert(x.0@, x.1@));
    } else {
        assert(states_wf(s.drop_last()));
        lemma_states_update(s.drop_last(), i, x);
        assert(t.drop_last() =~= s.drop_last().update(i, x));
        assert(s[i].0@ != s[s.len() - 1].0@);
        assert(states_view(t) =~= states_view(s).insert(x.0@, x.1@));
    }
}

proof fn lemma_states_remove(s: Seq<(String, ReassemblyState)>, i: int)
    requires
        states_wf(s),
        0 <= i < s.len(),
    ensures
        states_view(s.remove(i)) == states_view(s).remove(s[i].0@),
        states_wf(s.remove(i)),
    decreases s.len(),
{
    let t = s.remove(i);
    assert forall|a: int, b: int| 0 <= a < b < t.len() implies (#[trigger] t[a]).0@ != (#[trigger] t[b]).0@ by {
        let a2 = if a < i { a } else { a + 1 };
        let b2 = if b < i { b } else { b + 1 };
        assert(t[a] == s[a2] && t[b] == s[b2]);
    }
    assert forall|a: int| 0 <= a < t.len() implies (#[trigger] t[a]).1.wf() by {
        let a2 = if a < i { a } else { a + 1 };
        assert(t[a] == s[a2]);
    }
    if i == s.len() - 1 {
        assert(t =~= s.drop_last());
        assert forall|j: int| 0 <= j < t.len() implies (#[trigger] t[j]).0@ != s[i].0@ by {
            assert(t[j] == s[j]);
        }
        lemma_states_absent(t, s[i].0@);
        assert(states_view(t) =~= states_view(s).remove(s[i].0@));
    } else {
        assert(states_wf(s.drop_last()));
        lemma_states_remove(s.drop_last(), i);
        assert(t.drop_last() =~= s.drop_last().remove(i));
        assert(t.last() == s.last());
        assert(s[i].0@ != s[s.len() - 1].0@);
        assert(states_view(t) =~= states_view(s).remove(s[i].0@));
    }
}

/// The progress of the message of `header` when one of its chunks arrives
/// at `now`: the earlier progress, or a fresh one taken from the header, with
/// its activity time set to `now`.
pub open spec fn touched_progress(states: Map<Seq<char>, ReassemblyView>, header: ChunkHeader, now: u64) -> ReassemblyView {
    if states.dom().contains(header.message_id@) {
        ReassemblyView { last_activity: now, ..states[header.message_id@] }
    } else {
        ReassemblyView {
            chunks: Map::empty(),
            count: 0,
            total_chunks: header.total_chunks,
            original_size: header.original_size,
            message_hash: header.message_hash@,
            started_at: now,
            last_activity: now,
        }
    }
}

/// `v` with `data` stored as chunk `index`.
pub open spec fn with_chunk(v: ReassemblyView, index: u32, data: Seq<u8>) -> ReassemblyView {
    ReassemblyView {
        chunks: v.chunks.insert(index, data),
        count: if v.chunks.dom().contains(index) { v.count } else { v.count + 1 },
        ..v
    }
}

/// The effect of one incoming `chunk` at time `now` on the reassembly
/// progress `states` and the cached messages `cached` (of capacity `cap`),
/// giving `states2`, `cached2` and the answer `r`:
/// - an invalid chunk is refused and nothing changes;
/// - a message already in the cache is answered from it;
/// - a chunk whose total disagrees with the progress recorded for its
///   message is refused ("Inconsistent chunk count"), the progress keeping
///   its new activity time;
/// - otherwise the chunk is stored; once as many chunks as expected are
///   held, the message is reassembled, cached and its progress dropped, or,
///   where reassembly fails, the error is returned and the progress kept;
///   before that the answer is `None`.
pub open spec fn chunk_step(
    config: ChunkerConfig,
    states: Map<Seq<char>, ReassemblyView>,
    cached: Map<Seq<char>, Seq<u8>>,
    cap: nat,
    chunk: ChunkedMessage,
    now: u64,
    states2: Map<Seq<char>, ReassemblyView>,
    cached2: Map<Seq<char>, Seq<u8>>,
    r: Result<Option<Vec<u8>>, NetworkError>,
) -> bool {
    let id = chunk.header.message_id@;
    if !valid_chunk(config, chunk) {
        &&& (r matches Err(NetworkError::ValidationError(_)))
        &&& states2 == states
        &&& cached2 == cached
    } else if cached.dom().contains(id) {
        &&& (r matches Ok(Some(d)) && d@ == cached[id])
        &&& states2 == states
        &&& cached2 == cached
    } else {
        let base = touched_progress(states, chunk.header, now);
        let next = with_chunk(base, chunk.header.chunk_index, chunk.data@);
        let result = reassembly_result(config, next.chunks, next.total_chunks as nat, next.message_hash, next.original_size as nat);
        if base.total_chunks != chunk.header.total_chunks {
            &&& (r matches Err(NetworkError::ValidationError(e)) && e@ == "Inconsistent chunk count"@)
            &&& states2 == states.insert(id, base)
            &&& cached2 == cached
        } else if next.count != next.total_chunks {
            &&& (r matches Ok(None))
            &&& states2 == states.insert(id, next)
            &&& cached2 == cached
        } else if result is None {
            &&& r is Err
            &&& reassembly_invalid(next.chunks, next.total_chunks as nat, next.message_hash)
                ==> (r matches Err(NetworkError::ValidationError(_)))
            &&& !reassembly_invalid(next.chunks, next.total_chunks as nat, next.message_hash)
                ==> (r matches Err(NetworkError::Internal(_)))
            &&& states2 == states.insert(id, next)
            &&& cached2 == cached
        } else {
            &&& (r matches Ok(Some(d)) && d@ == result->0)
            &&& states2 == states.remove(id)
            &&& put_outcome(cached, cap, id, result->0, cached2)
        }
    }
}

/// Whether progress last active at `v.last_activity` is still kept at `now`:
/// less than `timeout` has passed (no time, where the clock went back).
pub open spec fn still_active(v: ReassemblyView, now: u64, timeout: u64) -> bool {
    (if now > v.last_activity { now - v.last_activity } else { 0 }) < timeout
}

/// The ids whose progress in `states` is still kept at `now`.
pub open spec fn active_ids(states: Map<Seq<char>, ReassemblyView>, now: u64, timeout: u64) -> Set<Seq<char>> {
    Set::new(|k: Seq<char>| states.dom().contains(k) && still_active(states[k], now, timeout))
}

proof fn lemma_states_key(s: Seq<(String, ReassemblyState)>, k: Seq<char>)
    requires
        states_view(s).dom().contains(k),
    ensures
        exists|j: int| 0 <= j < s.len() && (#[trigger] s[j]).0@ == k && states_view(s)[k] == s[j].1@,
    decreases s.len(),
{
    if s.last().0@ != k {
        lemma_states_key(s.drop_last(), k);
        let j = choose|j: int| 0 <= j < s.drop_last().len() && (#[trigger] s.drop_last()[j]).0@ == k
            && states_view(s.drop_last())[k] == s.drop_last()[j].1@;
        assert(s[j] == s.drop_last()[j]);
    } else {
        assert(s[s.len() - 1].0@ == k);
    }
}

proof fn lemma_states_len(s: Seq<(String, ReassemblyState)>)
    requires
        states_wf(s),
    ensures
        states_view(s).dom().finite(),
        states_view(s).dom().len() == s.len(),
    decreases s.len(),
{
    if s.len() > 0 {
        assert(states_wf(s.drop_last()));
        lemma_states_len(s.drop_last());
        assert forall|j: int| 0 <= j < s.drop_last().len() implies (#[trigger] s.drop_last()[j]).0@ != s.last().0@ by {
            assert(s.drop_last()[j] == s[j]);
        }
        lemma_states_absent(s.drop_last(), s.last().0@);
    }
}

proof fn lemma_waiting_prefix(s: Seq<(String, ReassemblyState)>, n: int)
    requires
        0 <= n <= s.len(),
    ensures
        waiting_chunks(s.take(n)) <= waiting_chunks(s),
    decreases s.len(),
{
    if n < s.len() {
        lemma_waiting_prefix(s.drop_last(), n);
        assert(s.drop_last().take(n) =~= s.take(n));
    } else {
        assert(s.take(n) =~= s);
    }
}

/// Message chunking and reassembly.
pub struct MessageChunker {
    /// Reassembly progress by message id; each id at most once
    pub reassembly_states: Vec<(String, ReassemblyState)>,
    /// Recently reassembled messages by id
    pub chunk_cache: MessageCache,
    /// Configuration
    pub config: ChunkerConfig,
}

impl MessageChunker {
    /// Internal consistency.
    pub open spec fn wf(&self) -> bool {
        states_wf(self.reassembly_states@)
    }

    /// Reassembly progress by message id.
    pub open spec fn states(&self) -> Map<Seq<char>, ReassemblyView> {
        states_view(self.reassembly_states@)
    }

    /// Reassembled messages in the cache.
    pub open spec fn cached(&self) -> Map<Seq<char>, Seq<u8>> {
        lru_entries(self.chunk_cache)
    }

    /// A chunker without reassemblies and with an empty cache of `cache_size` entries.
    pub fn new(config: ChunkerConfig) -> (r: Self)
        requires
            config.cache_size > 0,
        ensures
            r.wf(),
            r.config == config,
            r.states() == Map::<Seq<char>, ReassemblyView>::empty(),
            r.cached().dom() == Set::<Seq<char>>::empty(),
            lru_capacity(r.chunk_cache) == config.cache_size,
    {
        let r = MessageChunker {
            reassembly_states: Vec::new(),
            chunk_cache: lru_new(config.cache_size),
            config,
        };
        proof {
            assert(r.states() =~= Map::<Seq<char>, ReassemblyView>::empty());
        }
        r
    }

    fn build_chunks(&self, message: &NetworkMessage, data: &[u8]) -> (r: Result<Vec<ChunkedMessage>, NetworkError>)
        requires
            self.config.max_chunk_size > 0,
        ensures
            split_chunks(data@, self.config.max_chunk_size as nat).len() > MAX_CHUNKS ==> (r matches Err(
                NetworkError::ValidationError(e),
            ) && e@ == "Message too large: "@ + decimal(
                split_chunks(data@, self.config.max_chunk_size as nat).len(),
            ) + " chunks exceeds maximum "@ + decimal(MAX_CHUNKS as nat)),
            split_chunks(data@, self.config.max_chunk_size as nat).len() <= MAX_CHUNKS ==> (r matches Ok(v)
                && chunks_for(*message, data@, self.config.max_chunk_size as nat, v@)),
    {
        let message_hash = blake3_hash(data);
        let pieces = split_into_pieces(data, self.config.max_chunk_size);
        let total = pieces.len();
        if total > MAX_CHUNKS {
            let mut e = String::from_str("Message too large: ");
            push_decimal(&mut e, total as u64);
            e.append(" chunks exceeds maximum ");
            push_decimal(&mut e, MAX_CHUNKS as u64);
            return Err(NetworkError::ValidationError(e));
        }
        let mut chunks: Vec<ChunkedMessage> = Vec::new();
        let mut i: usize = 0;
        while i < total
            invariant
                total == pieces@.len(),
                total <= MAX_CHUNKS,
                0 <= i <= total,
                pieces@.len() == split_chunks(data@, self.config.max_chunk_size as nat).len(),
                forall|j: int| 0 <= j < pieces@.len() ==> (#[trigger] pieces@[j])@ == split_chunks(data@, self.config.max_chunk_size as nat)[j],
                message_hash@ == blake3_digest(data@),
                chunks@.len() == i,
                forall|j: int|
                    0 <= j < i ==> {
                        &&& (#[trigger] chunks@[j]).data@ == split_chunks(data@, self.config.max_chunk_size as nat)[j]
                        &&& chunks@[j].header.message_id@ == message.id@
                        &&& chunks@[j].header.total_chunks == total
                        &&& chunks@[j].header.chunk_index == j
                        &&& chunks@[j].header.chunk_size == split_chunks(data@, self.config.max_chunk_size as nat)[j].len()
                        &&& chunks@[j].header.message_hash@ == blake3_digest(data@)
                        &&& chunks@[j].header.original_size == message.payload@.len()
                    },
            decreases total - i,
        {
            let piece = copy_range(pieces[i].as_slice(), 0, pieces[i].len());
            assert(pieces@[i as int]@.subrange(0, pieces@[i as int]@.len() as int) =~= pieces@[i as int]@);
            let header = ChunkHeader {
                message_id: message.id.clone(),
                total_chunks: total as u32,
                chunk_index: i as u32,
                chunk_size: piece.len(),
                message_hash,
                original_size: message.payload.len(),
            };
            chunks.push(ChunkedMessage { header, data: piece });
            i = i + 1;
        }
        Ok(chunks)
    }

    /// Splits a message for transmission. A payload of at most
    /// `max_chunk_size` bytes needs no chunking (empty list). Otherwise the
    /// payload is compressed when compression is on and it exceeds the
    /// threshold, hashed, and cut into pieces; more than `MAX_CHUNKS` pieces is
    /// an error.
    pub fn chunk_message(&self, message: &NetworkMessage) -> (r: Result<Vec<ChunkedMessage>, NetworkError>)
        requires
            self.config.max_chunk_size > 0,
        ensures
            message.payload@.len() <= self.config.max_chunk_size ==> (r matches Ok(v) && v@.len() == 0),
            message.payload@.len() > self.config.max_chunk_size ==> match transmitted_bytes(self.config, message.payload@) {
                None => r matches Err(NetworkError::Internal(_)),
                Some(data) => {
                    let n = split_chunks(data, self.config.max_chunk_size as nat).len();
                    &&& n > MAX_CHUNKS ==> (r matches Err(NetworkError::ValidationError(_)))
                    &&& n <= MAX_CHUNKS ==> (r is Ok && chunks_for(*message, data, self.config.max_chunk_size as nat, r->Ok_0@))
                    &&& data.len() < message.payload@.len() ==> zstd_decoded(data) == Some(message.payload@)
                },
            },
    {
        if message.payload.len() <= self.config.max_chunk_size {
            return Ok(Vec::new());
        }
        if self.config.enable_compression && message.payload.len() > self.config.compression_threshold {
            match zstd_encode(message.payload.as_slice(), COMPRESSION_LEVEL) {
                Ok(compressed) => {
                    if compressed.len() < message.payload.len() {
                        self.build_chunks(message, compressed.as_slice())
                    } else {
                        self.build_chunks(message, message.payload.as_slice())
                    }
                },
                Err(e) => {
                    let mut m = String::from_str("Compression failed: ");
                    m.append(e.as_str());
                    Err(NetworkError::Internal(m))
                },
            }
        } else {
            self.build_chunks(message, message.payload.as_slice())
        }
    }

    /// Checks a chunk; see `valid_chunk`.
    pub fn validate_chunk(&self, chunk: &ChunkedMessage) -> (r: Result<(), NetworkError>)
        ensures
            r is Ok <==> valid_chunk(self.config, *chunk),
            chunk.header.chunk_index >= chunk.header.total_chunks ==> (r matches Err(NetworkError::ValidationError(e))
                && e@ == "Invalid chunk index"@),
            chunk.header.chunk_index < chunk.header.total_chunks && chunk.data@.len() != chunk.header.chunk_size
                ==> (r matches Err(NetworkError::ValidationError(e)) && e@ == "Chunk size mismatch"@),
            chunk.header.chunk_index < chunk.header.total_chunks && chunk.data@.len() == chunk.header.chunk_size
                && chunk.header.chunk_size > self.config.max_chunk_size
                ==> (r matches Err(NetworkError::ValidationError(e)) && e@ == "Chunk size exceeds maximum"@),
    {
        if chunk.header.chunk_index >= chunk.header.total_chunks {
            return Err(NetworkError::ValidationError(String::from_str("Invalid chunk index")));
        }
        if chunk.data.len() != chunk.header.chunk_size {
            return Err(NetworkError::ValidationError(String::from_str("Chunk size mismatch")));
        }
        if chunk.header.chunk_size > self.config.max_chunk_size {
            return Err(NetworkError::ValidationError(String::from_str("Chunk size exceeds maximum")));
        }
        Ok(())
    }

    /// Joins the chunks of a complete state, checks the hash and decompresses.
    pub fn reassemble_message(&self, state: &ReassemblyState) -> (r: Result<Vec<u8>, NetworkError>)
        requires
            state.wf(),
        ensures
            r is Ok <==> reassembly_result(self.config, state@.chunks, state.total_chunks as nat,
                state.message_hash@, state.original_size as nat) is Some,
            r matches Ok(d) ==> d@ == reassembly_result(self.config, state@.chunks, state.total_chunks as nat,
                state.message_hash@, state.original_size as nat)->0,
            !all_present(state@.chunks, state.total_chunks as nat) ==> r matches Err(NetworkError::ValidationError(_)),
            all_present(state@.chunks, state.total_chunks as nat)
                && blake3_digest(join_indices(state@.chunks, state.total_chunks as nat)) != state.message_hash@
                ==> (r matches Err(NetworkError::ValidationError(e)) && e@ == "Message hash verification failed"@),
            !reassembly_invalid(state@.chunks, state.total_chunks as nat, state.message_hash@) && r is Err
                ==> (r matches Err(NetworkError::Internal(_))),
    {
        let mut data: Vec<u8> = Vec::new();
        let mut i: u32 = 0;
        while i < state.total_chunks
            invariant
                state.wf(),
                0 <= i <= state.total_chunks,
                all_present(state@.chunks, i as nat),
                data@ == join_indices(state@.chunks, i as nat),
            decreases state.total_chunks - i,
        {
            match state.find(i) {
                Some(p) => {
                    append_bytes(&mut data, &state.chunks[p].1.data);
                    proof {
                        assert(join_indices(state@.chunks, (i + 1) as nat) == join_indices(state@.chunks, i as nat)
                            + state@.chunks[i]);
                    }
                },
                None => {
                    let mut e = String::from_str("Missing chunk ");
                    push_decimal(&mut e, i as u64);
                    return Err(NetworkError::ValidationError(e));
                },
            }
            i = i + 1;
        }
        let computed = blake3_hash(data.as_slice());
        if !same_hash(&computed, &state.message_hash) {
            return Err(NetworkError::ValidationError(String::from_str("Message hash verification failed")));
        }
        if self.config.enable_compression && data.len() < state.original_size {
            match zstd_decode(data.as_slice()) {
                Ok(d) => Ok(d),
                Err(e) => {
                    let mut m = String::from_str("Decompression failed: ");
                    m.append(e.as_str());
                    Err(NetworkError::Internal(m))
                },
            }
        } else {
            Ok(data)
        }
    }

    /// Position of the progress for `id`.
    fn find_state(&self, id: &String) -> (r: Option<usize>)
        requires
            self.wf(),
        ensures
            r matches Some(p) ==> p < self.reassembly_states@.len() && self.reassembly_states@[p as int].0@ == id@,
            r is None ==> !self.states().dom().contains(id@),
    {
        let mut i: usize = 0;
        while i < self.reassembly_states.len()
            invariant
                0 <= i <= self.reassembly_states@.len(),
                forall|j: int| 0 <= j < i ==> (#[trigger] self.reassembly_states@[j]).0@ != id@,
            decreases self.reassembly_states@.len() - i,
        {
            if self.reassembly_states[i].0 == *id {
                return Some(i);
            }
            i = i + 1;
        }
        proof {
            lemma_states_absent(self.reassembly_states@, id@);
        }
        None
    }

    /// Records `st` as the progress of the message `id`, which has none yet.
    fn push_state(&mut self, id: String, st: ReassemblyState)
        requires
            old(self).wf(),
            st.wf(),
            !old(self).states().dom().contains(id@),
        ensures
            final(self).wf(),
            final(self).states() == old(self).states().insert(id@, st@),
            final(self).chunk_cache == old(self).chunk_cache,
            final(self).config == old(self).config,
    {
        let ghost s0 = self.reassembly_states@;
        proof {
            assert forall|j: int| 0 <= j < s0.len() implies (#[trigger] s0[j]).0@ != id@ by {
                lemma_states_at(s0, j);
            }
        }
        self.reassembly_states.push((id, st));
        proof {
            assert(self.reassembly_states@.drop_last() =~= s0);
        }
    }

    /// Handles one incoming chunk at time `now`; see `chunk_step`. Returns the
    /// reassembled message once its last chunk has arrived.
    pub fn process_chunk_at(&mut self, chunk: ChunkedMessage, now: u64) -> (r: Result<Option<Vec<u8>>, NetworkError>)
        requires
            old(self).wf(),
        ensures
            final(self).wf(),
            final(self).config == old(self).config,
            lru_capacity(final(self).chunk_cache) == lru_capacity(old(self).chunk_cache),
            chunk_step(
                old(self).config,
                old(self).states(),
                old(self).cached(),
                lru_capacity(old(self).chunk_cache),
                chunk,
                now,
                final(self).states(),
                final(self).cached(),
                r,
            ),
    {
        match self.validate_chunk(&chunk) {
            Ok(()) => {},
            Err(e) => {
                return Err(e);
            },
        }
        let message_id = chunk.header.message_id.clone();
        match lru_get(&mut self.chunk_cache, &message_id) {
            Some(d) => {
                return Ok(Some(d));
            },
            None => {},
        }
        let ghost states0 = self.states();
        let mut st = match self.find_state(&message_id) {
            Some(p) => {
                let ghost s0 = self.reassembly_states@;
                proof {
                    lemma_states_at(s0, p as int);
                    lemma_states_remove(s0, p as int);
                }
                let (_, removed) = self.reassembly_states.remove(p);
                removed
            },
            None => ReassemblyState {
                chunks: Vec::new(),
                total_chunks: chunk.header.total_chunks,
                original_size: chunk.header.original_size,
                message_hash: chunk.header.message_hash,
                started_at: now,
                last_activity: now,
            },
        };
        proof {
            assert(st.wf());
            assert(!self.states().dom().contains(message_id@));
            assert(self.states() == states0.remove(message_id@));
        }
        st.last_activity = now;
        proof {
            assert(st@ == touched_progress(states0, chunk.header, now));
        }
        if st.total_chunks != chunk.header.total_chunks {
            self.push_state(message_id, st);
            proof {
                assert(self.states() =~= states0.insert(chunk.header.message_id@, touched_progress(states0, chunk.header, now)));
            }
            return Err(NetworkError::ValidationError(String::from_str("Inconsistent chunk count")));
        }
        let ghost base = st@;
        st.insert_chunk(chunk.header.chunk_index, chunk.data, now);
        proof {
            assert(st@ == with_chunk(base, chunk.header.chunk_index, chunk.data@));
        }
        if st.chunks.len() == st.total_chunks as usize {
            match self.reassemble_message(&st) {
                Ok(d) => {
                    let copy = copy_range(d.as_slice(), 0, d.len());
                    proof {
                        assert(d@.subrange(0, d@.len() as int) =~= d@);
                    }
                    lru_put(&mut self.chunk_cache, message_id, copy);
                    Ok(Some(d))
                },
                Err(e) => {
                    self.push_state(message_id, st);
                    proof {
                        assert(self.states() =~= states0.insert(chunk.header.message_id@, st@));
                    }
                    Err(e)
                },
            }
        } else {
            self.push_state(message_id, st);
            proof {
                assert(self.states() =~= states0.insert(chunk.header.message_id@, st@));
            }
            Ok(None)
        }
    }

    /// Handles one incoming chunk at the current time; see `process_chunk_at`.
    pub fn process_chunk(&mut self, chunk: ChunkedMessage) -> (r: Result<Option<Vec<u8>>, NetworkError>)
        requires
            old(self).wf(),
        ensures
            final(self).wf(),
            final(self).config == old(self).config,
            lru_capacity(final(self).chunk_cache) == lru_capacity(old(self).chunk_cache),
            exists|now: u64|
                chunk_step(
                    old(self).config,
                    old(self).states(),
                    old(self).cached(),
                    lru_capacity(old(self).chunk_cache),
                    chunk,
                    now,
                    final(self).states(),
                    final(self).cached(),
                    r,
                ),
    {
        let now = now_nanos();
        self.process_chunk_at(chunk, now)
    }

    /// Drops the progress of every message that has been inactive for at
    /// least the configured timeout at `now`.
    pub fn cleanup_expired_at(&mut self, now: u64)
        requires
            old(self).wf(),
        ensures
            final(self).wf(),
            final(self).config == old(self).config,
            final(self).chunk_cache == old(self).chunk_cache,
            final(self).states() == old(self).states().restrict(
                active_ids(old(self).states(), now, old(self).config.chunk_timeout_ns),
            ),
    {
        let ghost orig = self.states();
        let timeout = self.config.chunk_timeout_ns;
        let mut i: usize = 0;
        while i < self.reassembly_states.len()
            invariant
                self.wf(),
                self.config.chunk_timeout_ns == timeout,
                self.config == old(self).config,
                self.chunk_cache == old(self).chunk_cache,
                orig == old(self).states(),
                0 <= i <= self.reassembly_states@.len(),
                forall|j: int| 0 <= j < i ==> still_active(#[trigger] self.reassembly_states@[j].1@, now, timeout),
                forall|k: Seq<char>| #[trigger] self.states().dom().contains(k)
                    ==> orig.dom().contains(k) && orig[k] == self.states()[k],
                forall|k: Seq<char>| #[trigger] orig.dom().contains(k) && still_active(orig[k], now, timeout)
                    ==> self.states().dom().contains(k),
            decreases self.reassembly_states@.len() - i,
        {
            let last = self.reassembly_states[i].1.last_activity;
            let elapsed: u64 = if now > last { now - last } else { 0 };
            if elapsed < timeout {
                i = i + 1;
            } else {
                let ghost s0 = self.reassembly_states@;
                let ghost v0 = self.states();
                proof {
                    lemma_states_at(s0, i as int);
                    lemma_states_remove(s0, i as int);
                    assert(!still_active(orig[s0[i as int].0@], now, timeout));
                }
                self.reassembly_states.remove(i);
                proof {
                    assert forall|j: int| 0 <= j < i implies still_active(#[trigger] self.reassembly_states@[j].1@, now, timeout) by {
                        assert(self.reassembly_states@[j] == s0[j]);
                    }
                }
            }
        }
        proof {
            let target = orig.restrict(active_ids(orig, now, timeout));
            assert forall|k: Seq<char>| #[trigger] self.states().dom().contains(k) implies still_active(orig[k], now, timeout) by {
                lemma_states_key(self.reassembly_states@, k);
            }
            assert(self.states() =~= target);
        }
    }

    /// Drops expired progress at the current time; see `cleanup_expired_at`.
    pub fn cleanup_expired(&mut self)
        requires
            old(self).wf(),
        ensures
            final(self).wf(),
            final(self).config == old(self).config,
            final(self).chunk_cache == old(self).chunk_cache,
            exists|now: u64| final(self).states() == old(self).states().restrict(
                active_ids(old(self).states(), now, old(self).config.chunk_timeout_ns),
            ),
    {
        let now = now_nanos();
        self.cleanup_expired_at(now);
    }

    /// Number of messages in progress, of cached messages and of chunks held
    /// by messages in progress.
    pub fn get_stats(&self) -> (r: ChunkerStats)
        requires
            self.wf(),
            waiting_chunks(self.reassembly_states@) <= usize::MAX,
        ensures
            r.active_reassemblies == self.states().dom().len(),
            r.cache_size == self.cached().len(),
            r.total_chunks_waiting == waiting_chunks(self.reassembly_states@),
    {
        proof {
            lemma_states_len(self.reassembly_states@);
        }
        let mut total: usize = 0;
        let mut i: usize = 0;
        while i < self.reassembly_states.len()
            invariant
                0 <= i <= self.reassembly_states@.len(),
                waiting_chunks(self.reassembly_states@) <= usize::MAX,
                total == waiting_chunks(self.reassembly_states@.take(i as int)),
            decreases self.reassembly_states@.len() - i,
        {
            proof {
                let s = self.reassembly_states@;
                assert(s.take(i + 1).drop_last() =~= s.take(i as int));
                lemma_waiting_prefix(s, i + 1);
            }
            total = total + self.reassembly_states[i].1.chunks.len();
            i = i + 1;
        }
        proof {
            assert(self.reassembly_states@.take(i as int) =~= self.reassembly_states@);
        }
        ChunkerStats {
            active_reassemblies: self.reassembly_states.len(),
            cache_size: lru_len(&self.chunk_cache),
            total_chunks_waiting: total,
        }
    }
}

/// A message with the chunks it was split into, if any.
#[derive(Debug, Clone)]
pub struct ChunkedNetworkMessage {
    /// The message
    pub base: NetworkMessage,
    /// Its chunks, once split
    pub chunks: Option<Vec<ChunkedMessage>>,
}

/// Messages that can be split into chunks.
pub trait ChunkableMessage: Sized {
    /// Whether the payload is longer than `max_size`.
    fn needs_chunking(&self, max_size: usize) -> bool;

    /// The message, not yet split.
    fn into_chunked(self) -> ChunkedNetworkMessage;
}

impl ChunkableMessage for NetworkMessage {
    fn needs_chunking(&self, max_size: usize) -> (r: bool)
        ensures
            r == (self.payload@.len() > max_size),
    {
        self.payload.len() > max_size
    }

    fn into_chunked(self) -> (r: ChunkedNetworkMessage)
        ensures
            r.base == self,
            r.chunks is None,
    {
        ChunkedNetworkMessage { base: self, chunks: None }
    }
}

/// Round trip: the chunks that `chunk_message` cuts from the transmitted
/// bytes `data` of `payload`, once all present, reassemble to the payload,
/// whether or not it was compressed. (When `data` is a compressed frame,
/// `chunk_message` states that it decompresses to the payload.)
pub proof fn law_chunk_round_trip(config: ChunkerConfig, payload: Seq<u8>, data: Seq<u8>)
    requires
        config.max_chunk_size > 0,
        transmitted_bytes(config, payload) == Some(data),
        split_chunks(data, config.max_chunk_size as nat).len() <= MAX_CHUNKS,
        data.len() < payload.len() ==> zstd_decoded(data) == Some(payload),
    ensures
        ({
            let pieces = split_chunks(data, config.max_chunk_size as nat);
            reassembly_result(config, pieces_map(pieces), pieces.len(), blake3_digest(data), payload.len())
                == Some(payload)
        }),
{
    law_reassembly_restores_data(data, config.max_chunk_size as nat);
}

/// Without compression the transmitted bytes are the payload itself, and
/// its chunks reassemble to it.
pub proof fn law_uncompressed_round_trip(config: ChunkerConfig, payload: Seq<u8>)
    requires
        config.max_chunk_size > 0,
        !compresses(config, payload.len()),
        split_chunks(payload, config.max_chunk_size as nat).len() <= MAX_CHUNKS,
    ensures
        ({
            let pieces = split_chunks(payload, config.max_chunk_size as nat);
            &&& transmitted_bytes(config, payload) == Some(payload)
            &&& reassembly_result(config, pieces_map(pieces), pieces.len(), blake3_digest(payload), payload.len())
                == Some(payload)
        }),
{
    law_chunk_round_trip(config, payload, payload);
}

/// The chunk map after the pieces named by `arrivals` have been stored into
/// `m`, one after the other (a piece that arrives again is stored again).
pub open spec fn stored_in_order(m: Map<u32, Seq<u8>>, pieces: Seq<Seq<u8>>, arrivals: Seq<u32>) -> Map<u32, Seq<u8>>
    decreases arrivals.len(),
{
    if arrivals.len() == 0 {
        m
    } else {
        stored_in_order(m, pieces, arrivals.drop_last()).insert(arrivals.last(), pieces[arrivals.last() as int])
    }
}

/// Piece `k` is among `arrivals`.
pub open spec fn arrived(arrivals: Seq<u32>, k: u32) -> bool {
    exists|i: int| 0 <= i < arrivals.len() && arrivals[i] == k
}

/// `arrivals` names only pieces of a split into `n` pieces, and each of
/// them at least once.
pub open spec fn covers_all_pieces(arrivals: Seq<u32>, n: nat) -> bool {
    &&& forall|i: int| 0 <= i < arrivals.len() ==> (#[trigger] arrivals[i] as nat) < n
    &&& forall|k: u32| (k as nat) < n ==> #[trigger] arrived(arrivals, k)
}

proof fn lemma_stored_in_order(pieces: Seq<Seq<u8>>, arrivals: Seq<u32>)
    ensures
        forall|k: u32| #[trigger] stored_in_order(Map::empty(), pieces, arrivals).dom().contains(k)
            <==> arrived(arrivals, k),
        forall|k: u32| #[trigger] stored_in_order(Map::empty(), pieces, arrivals).dom().contains(k)
            ==> stored_in_order(Map::empty(), pieces, arrivals)[k] == pieces[k as int],
    decreases arrivals.len(),
{
    if arrivals.len() > 0 {
        let front = arrivals.drop_last();
        lemma_stored_in_order(pieces, front);
        let m = stored_in_order(Map::empty(), pieces, arrivals);
        let mf = stored_in_order(Map::empty(), pieces, front);
        assert(m == mf.insert(arrivals.last(), pieces[arrivals.last() as int]));
        assert forall|k: u32| #[trigger] m.dom().contains(k) <==> arrived(arrivals, k) by {
            if m.dom().contains(k) && k != arrivals.last() {
                assert(mf.dom().contains(k));
                assert(arrived(front, k));
                let i = choose|i: int| 0 <= i < front.len() && front[i] == k;
                assert(arrivals[i] == k);
            }
            if m.dom().contains(k) && k == arrivals.last() {
                assert(arrivals[arrivals.len() - 1] == k);
            }
            if arrived(arrivals, k) {
                let i = choose|i: int| 0 <= i < arrivals.len() && arrivals[i] == k;
                if i < front.len() {
                    assert(front[i] == k);
                    assert(arrived(front, k));
                    assert(mf.dom().contains(k));
                }
            }
        }
    }
}

/// Out-of-order reassembly: however the chunks cut from the transmitted
/// bytes `data` of `payload` arrive (any order, repeats allowed), once each
/// has arrived the collected chunks are exactly those of the split, and
/// they reassemble to the payload, compressed or not.
pub proof fn law_out_of_order_arrival(config: ChunkerConfig, payload: Seq<u8>, data: Seq<u8>, arrivals: Seq<u32>)
    requires
        config.max_chunk_size > 0,
        transmitted_bytes(config, payload) == Some(data),
        split_chunks(data, config.max_chunk_size as nat).len() <= MAX_CHUNKS,
        data.len() < payload.len() ==> zstd_decoded(data) == Some(payload),
        covers_all_pieces(arrivals, split_chunks(data, config.max_chunk_size as nat).len()),
    ensures
        ({
            let pieces = split_chunks(data, config.max_chunk_size as nat);
            let collected = stored_in_order(Map::empty(), pieces, arrivals);
            &&& collected == pieces_map(pieces)
            &&& reassembly_result(config, collected, pieces.len(), blake3_digest(data), payload.len()) == Some(payload)
        }),
{
    let pieces = split_chunks(data, config.max_chunk_size as nat);
    let collected = stored_in_order(Map::empty(), pieces, arrivals);
    lemma_stored_in_order(pieces, arrivals);
    assert forall|k: u32| #[trigger] collected.dom().contains(k) <==> pieces_map(pieces).dom().contains(k) by {
        if collected.dom().contains(k) {
            assert(arrived(arrivals, k));
            let i = choose|i: int| 0 <= i < arrivals.len() && arrivals[i] == k;
            assert((arrivals[i] as nat) < pieces.len());
        }
        if pieces_map(pieces).dom().contains(k) {
            assert((k as nat) < pieces.len());
            assert(arrived(arrivals, k));
        }
    }
    assert(collected =~= pieces_map(pieces));
    law_chunk_round_trip(config, payload, data);
}

} // verus!
