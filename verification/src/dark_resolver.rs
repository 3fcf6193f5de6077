//! `.dark` domains: addresses derived from signing keys, name validation,
//! and the resolver's registry of domain records, reverse lookups and
//! address book.
//!
//! Signing records (ML-DSA) happens outside the resolver: a record reaches
//! it already signed, and lookups and updates check signatures with a
//! verifier that the caller hands in. A DHT is driven around the resolver:
//! `domain_to_dht_key` names a record's key, `accept_remote_record_at` takes
//! in a record fetched for a domain not found here, and
//! `expired_domains_at` names the records that a cleanup will drop.

use vstd::prelude::*;
use vstd::utf8::encode_utf8;
use crate::assoc::{assoc_find, assoc_insert, assoc_remove, assoc_view, keys_distinct, lemma_assoc_at, lemma_assoc_key, lemma_assoc_len, lemma_assoc_remove};
use crate::clock::now_secs;
use crate::digest::{blake3_digest, blake3_hash};
use crate::encoding::{base58_encode, base58_text};
use crate::text::{ascii_letter_or_digit, is_alphanumeric, to_lowercase, unicode_alphanumeric, unicode_lowercase};
use crate::types::{NetworkAddress, PeerId};

verus! {

/// Errors of dark domain operations.
#[derive(Debug, Clone, PartialEq, Eq)]
pub enum DarkResolverError {
    /// The domain name is already registered
    DomainExists,
    /// The domain is not registered
    DomainNotFound,
    /// The domain name is malformed
    InvalidDomain,
    /// A cryptographic operation failed
    CryptoError(String),
    /// The record store could not be accessed
    StorageError,
    /// The domain's record has expired
    DomainExpired,
    /// A signature did not verify, or the signer is not the owner
    InvalidSignature,
    /// The address could not be derived
    AddressGenerationError(String),
    /// The DHT failed
    DhtError(String),
    /// The ML-DSA implementation failed
    MlDsaError(String),
}

/// A dark domain record, signed by its owner.
#[derive(Debug, Clone)]
pub struct DarkDomainRecord {
    /// ML-DSA public key that verifies the signature
    pub signing_public_key: Vec<u8>,
    /// ML-KEM public key for encryption
    pub encryption_public_key: Vec<u8>,
    /// Network addresses of the domain
    pub addresses: Vec<NetworkAddress>,
    /// Human-readable alias
    pub alias: Option<String>,
    /// Time to live, in seconds
    pub ttl: u32,
    /// Registration time, in seconds since the epoch
    pub registered_at: u64,
    /// Expiration time, in seconds since the epoch
    pub expires_at: u64,
    /// The owner
    pub owner_id: PeerId,
    /// ML-DSA signature over the other fields
    pub signature: Vec<u8>,
    /// Additional metadata
    pub metadata: Vec<(String, String)>,
}

/// A `.dark` address derived from a signing key.
#[derive(Debug, Clone, PartialEq, Eq, Hash)]
pub struct DarkAddress {
    /// Base58 text of the key's hash
    pub address: String,
    /// Full domain name, such as `mynode.dark`
    pub domain: String,
}

/// An address book entry.
#[derive(Debug, Clone)]
pub struct AddressBookEntry {
    /// Human-readable name
    pub name: String,
    /// The address
    pub dark_address: DarkAddress,
    /// Notes
    pub notes: Option<String>,
    /// Time it was added, in seconds since the epoch
    pub added_at: u64,
}

/// The byte strings of `parts` joined in order.
pub open spec fn joined(parts: Seq<Vec<u8>>) -> Seq<u8>
    decreases parts.len(),
{
    if parts.len() == 0 {
        seq![]
    } else {
        joined(parts.drop_last()) + parts.last()@
    }
}

/// The `n` little-endian bytes of `t`.
pub open spec fn le_n(t: u64, n: nat) -> Seq<u8> {
    Seq::new(n, |i: int| ((t >> (8 * i) as u64) & 0xff) as u8)
}

/// The bytes of an alias, none when there is none.
pub open spec fn alias_bytes(alias: Option<String>) -> Seq<u8> {
    match alias {
        Some(a) => encode_utf8(a@),
        None => seq![],
    }
}

/// What a record's signature covers, given the encodings of its addresses
/// and of its owner: the signing key, the encryption key, the address
/// encodings, the alias, the TTL (4 bytes), the registration and expiry
/// times (8 bytes each, all little-endian) and the owner's encoding.
pub open spec fn signable_input(r: DarkDomainRecord, encoded_addresses: Seq<Vec<u8>>, encoded_owner: Seq<u8>) -> Seq<u8> {
    r.signing_public_key@ + r.encryption_public_key@ + joined(encoded_addresses) + alias_bytes(r.alias)
        + le_n(r.ttl as u64, 4) + le_n(r.registered_at, 8) + le_n(r.expires_at, 8) + encoded_owner
}

/// The tag that precedes a domain name in its DHT key.
pub open spec fn dht_key_tag() -> Seq<u8> {
    seq![100u8, 97, 114, 107, 95, 100, 111, 109, 97, 105, 110, 58]
}

fn push_all(v: &mut Vec<u8>, b: &[u8])
    ensures
        final(v)@ == old(v)@ + b@,
{
    let mut i: usize = 0;
    while i < b.len()
        invariant
            0 <= i <= b@.len(),
            v@ == old(v)@ + b@.take(i as int),
        decreases b@.len() - i,
    {
        v.push(b[i]);
        i = i + 1;
        assert(v@ =~= old(v)@ + b@.take(i as int));
    }
    assert(b@.take(i as int) =~= b@);
}

fn push_le(v: &mut Vec<u8>, t: u64, n: usize)
    requires
        n <= 8,
    ensures
        final(v)@ == old(v)@ + le_n(t, n as nat),
{
    let mut i: usize = 0;
    while i < n
        invariant
            0 <= i <= n,
            n <= 8,
            v@ == old(v)@ + le_n(t, i as nat),
        decreases n - i,
    {
        let shift: u64 = 8 * (i as u64);
        v.push(((t >> shift) & 0xff) as u8);
        i = i + 1;
        assert(v@ =~= old(v)@ + le_n(t, i as nat));
    }
}

impl DarkDomainRecord {
    /// An unsigned record registered at `now` that expires `ttl` seconds
    /// later; the owner's signature is added by the signer.
    pub fn new(
        signing_public_key: Vec<u8>,
        encryption_public_key: Vec<u8>,
        addresses: Vec<NetworkAddress>,
        alias: Option<String>,
        ttl: u32,
        owner_id: PeerId,
        now: u64,
    ) -> (r: DarkDomainRecord)
        requires
            now + ttl <= u64::MAX,
        ensures
            r.signing_public_key == signing_public_key,
            r.encryption_public_key == encryption_public_key,
            r.addresses == addresses,
            r.alias == alias,
            r.ttl == ttl,
            r.registered_at == now,
            r.expires_at == now + ttl,
            r.owner_id == owner_id,
            r.signature@.len() == 0,
            r.metadata@.len() == 0,
    {
        DarkDomainRecord {
            signing_public_key,
            encryption_public_key,
            addresses,
            alias,
            ttl,
            registered_at: now,
            expires_at: now + ttl as u64,
            owner_id,
            signature: Vec::new(),
            metadata: Vec::new(),
        }
    }

    /// The BLAKE3 hash that the owner signs; see `signable_input`. The
    /// encodings of the addresses and of the owner are made by the caller.
    pub fn to_signable_bytes(&self, encoded_addresses: &[Vec<u8>], encoded_owner: &[u8]) -> (r: Vec<u8>)
        ensures
            r@ == blake3_digest(signable_input(*self, encoded_addresses@, encoded_owner@)),
    {
        let mut v: Vec<u8> = Vec::new();
        push_all(&mut v, self.signing_public_key.as_slice());
        push_all(&mut v, self.encryption_public_key.as_slice());
        let mut i: usize = 0;
        while i < encoded_addresses.len()
            invariant
                0 <= i <= encoded_addresses@.len(),
                v@ == self.signing_public_key@ + self.encryption_public_key@ + joined(encoded_addresses@.take(i as int)),
            decreases encoded_addresses@.len() - i,
        {
            proof {
                assert(encoded_addresses@.take(i + 1).drop_last() =~= encoded_addresses@.take(i as int));
            }
            push_all(&mut v, encoded_addresses[i].as_slice());
            i = i + 1;
        }
        proof {
            assert(encoded_addresses@.take(i as int) =~= encoded_addresses@);
        }
        match &self.alias {
            Some(a) => push_all(&mut v, a.as_str().as_bytes()),
            None => {},
        }
        push_le(&mut v, self.ttl as u64, 4);
        push_le(&mut v, self.registered_at, 8);
        push_le(&mut v, self.expires_at, 8);
        push_all(&mut v, encoded_owner);
        proof {
            assert(v@ =~= signable_input(*self, encoded_addresses@, encoded_owner@));
        }
        let h = blake3_hash(v.as_slice());
        let mut out: Vec<u8> = Vec::new();
        push_all(&mut out, &h);
        out
    }

    /// Whether the record has expired at `now` (strictly after its expiry).
    pub fn is_expired_at(&self, now: u64) -> (r: bool)
        ensures
            r == record_expired(*self, now),
    {
        now > self.expires_at
    }

    /// Whether the record has expired at the current time.
    pub fn is_expired(&self) -> (r: bool)
        ensures
            exists|now: u64| r == record_expired(*self, now),
    {
        self.is_expired_at(now_secs())
    }
}

/// Whether `record` has expired at `now`.
pub open spec fn record_expired(record: DarkDomainRecord, now: u64) -> bool {
    now > record.expires_at
}

impl AddressBookEntry {
    /// A copy of the entry.
    pub fn duplicate(&self) -> (r: AddressBookEntry)
        ensures
            r == *self,
    {
        let notes = match &self.notes {
            Some(n) => Some(n.clone()),
            None => None,
        };
        AddressBookEntry {
            name: self.name.clone(),
            dark_address: DarkAddress {
                address: self.dark_address.address.clone(),
                domain: self.dark_address.domain.clone(),
            },
            notes,
            added_at: self.added_at,
        }
    }
}

/// The bytes of `dark_address_v1`, which precede the key in the address hash.
pub open spec fn dark_address_tag() -> Seq<u8> {
    seq![100u8, 97, 114, 107, 95, 97, 100, 100, 114, 101, 115, 115, 95, 118, 49]
}

/// The address of a signing key: base58 text of the first 20 bytes of the
/// BLAKE3 hash of the tag followed by the key.
pub open spec fn dark_address_text(public_key: Seq<u8>) -> Seq<char> {
    base58_text(blake3_digest(dark_address_tag() + public_key).take(20))
}

/// The text `.dark`.
pub open spec fn dark_suffix() -> Seq<char> {
    seq!['.', 'd', 'a', 'r', 'k']
}

/// Length of the UTF-8 encoding of `s`, in bytes.
pub open spec fn byte_len(s: Seq<char>) -> nat {
    encode_utf8(s).len()
}

/// Every character is alphanumeric or a hyphen.
pub open spec fn label_chars_ok(s: Seq<char>) -> bool {
    forall|i: int| 0 <= i < s.len() ==> unicode_alphanumeric(#[trigger] s[i]) || s[i] == '-'
}

/// Every character is ASCII.
pub open spec fn ascii_text(s: Seq<char>) -> bool {
    forall|i: int| 0 <= i < s.len() ==> (#[trigger] s[i] as u32) < 128
}

/// Every character is an ASCII letter or digit or a hyphen.
pub open spec fn ascii_label_chars_ok(s: Seq<char>) -> bool {
    forall|i: int| 0 <= i < s.len() ==> ascii_letter_or_digit(#[trigger] s[i]) || s[i] == '-'
}

/// ASCII text takes one byte per character.
pub proof fn lemma_ascii_byte_len(s: Seq<char>)
    requires
        ascii_text(s),
    ensures
        byte_len(s) == s.len(),
    decreases s.len(),
{
    if s.len() > 0 {
        assert(ascii_text(s.drop_first())) by {
            assert forall|i: int| 0 <= i < s.drop_first().len() implies (#[trigger] s.drop_first()[i] as u32) < 128 by {
                assert(s.drop_first()[i] == s[i + 1]);
            }
        }
        lemma_ascii_byte_len(s.drop_first());
        assert((s[0] as u32) < 128);
    }
}

/// `valid_custom_name` for ASCII text: 3 to 63 characters, ASCII letters,
/// digits and hyphens, not starting or ending with a hyphen.
pub open spec fn valid_ascii_custom_name(s: Seq<char>) -> bool {
    &&& 3 <= s.len() <= 63
    &&& ascii_label_chars_ok(s)
    &&& !(s.len() > 0 && s[0] == '-')
    &&& !(s.len() > 0 && s[s.len() - 1] == '-')
}

/// `valid_dark_domain` for ASCII text.
pub open spec fn valid_ascii_dark_domain(d: Seq<char>) -> bool {
    &&& d.len() >= 5
    &&& d.subrange(d.len() - 5, d.len() as int) == dark_suffix()
    &&& valid_ascii_custom_name(d.subrange(0, d.len() - 5))
    &&& !has_double_hyphen(d.subrange(0, d.len() - 5))
}

/// A valid custom name: 3 to 63 bytes, alphanumerics and hyphens, not
/// starting or ending with a hyphen.
pub open spec fn valid_custom_name(s: Seq<char>) -> bool {
    &&& 3 <= byte_len(s) <= 63
    &&& label_chars_ok(s)
    &&& !(s.len() > 0 && s[0] == '-')
    &&& !(s.len() > 0 && s[s.len() - 1] == '-')
}

/// Two hyphens in a row somewhere in `s`.
pub open spec fn has_double_hyphen(s: Seq<char>) -> bool {
    exists|i: int| 0 <= i < s.len() - 1 && #[trigger] s[i] == '-' && s[i + 1] == '-'
}

/// A valid `.dark` domain: a valid custom name without two hyphens in a
/// row, followed by `.dark`.
pub open spec fn valid_dark_domain(d: Seq<char>) -> bool {
    &&& d.len() >= 5
    &&& d.subrange(d.len() - 5, d.len() as int) == dark_suffix()
    &&& valid_custom_name(d.subrange(0, d.len() - 5))
    &&& !has_double_hyphen(d.subrange(0, d.len() - 5))
}

/// The custom name as text.
pub open spec fn name_text(custom_name: Option<&str>) -> Option<Seq<char>> {
    match custom_name {
        Some(n) => Some(n@),
        None => None,
    }
}

/// The domain that a key registers under: `name.dark` for a valid custom
/// name, else the lowercased first 8 characters of its address followed by
/// `.dark`; `None` for an invalid custom name.
pub open spec fn chosen_domain(public_key: Seq<u8>, custom: Option<Seq<char>>) -> Option<Seq<char>> {
    match custom {
        Some(n) => if valid_custom_name(n) {
            Some(n + dark_suffix())
        } else {
            None
        },
        None => Some(unicode_lowercase(dark_address_text(public_key).take(8)) + dark_suffix()),
    }
}

/// The domains of `m` whose records have expired at `now`.
pub open spec fn expired_domains(m: Map<Seq<char>, DarkDomainRecord>, now: u64) -> Set<Seq<char>> {
    Set::new(|d: Seq<char>| m.dom().contains(d) && record_expired(m[d], now))
}

/// The addresses of the records of `m` whose domains are not in `keep`.
pub open spec fn dropped_addresses(m: Map<Seq<char>, DarkDomainRecord>, keep: Set<Seq<char>>) -> Set<Seq<char>> {
    Set::new(|a: Seq<char>| exists|d: Seq<char>|
        #![trigger m[d]]
        m.dom().contains(d) && !keep.contains(d) && dark_address_text(m[d].signing_public_key@) == a)
}

/// A successful cleanup at `now` took `before` to `after`, removing and
/// counting the expired records.
pub open spec fn cleaned_at(
    before: Map<Seq<char>, DarkDomainRecord>,
    after: Map<Seq<char>, DarkDomainRecord>,
    r: Result<usize, DarkResolverError>,
    now: u64,
) -> bool {
    r is Ok ==> after == before.remove_keys(expired_domains(before, now)) && r->Ok_0 == expired_domains(before, now).len()
}

/// An update of `d` with `record` at `now` went through: `verify` accepted
/// the new record, `d` names a live record that `verify` accepted too, and
/// both records have the same signing key.
pub open spec fn update_accepted<F: Fn(&DarkDomainRecord) -> Result<(), DarkResolverError>>(
    m: Map<Seq<char>, DarkDomainRecord>,
    d: Seq<char>,
    record: DarkDomainRecord,
    now: u64,
    verify: &F,
) -> bool {
    &&& verify.ensures((&record,), Ok::<(), DarkResolverError>(()))
    &&& valid_dark_domain(d)
    &&& m.dom().contains(d)
    &&& !record_expired(m[d], now)
    &&& verify.ensures((&m[d],), Ok::<(), DarkResolverError>(()))
    &&& m[d].signing_public_key@ == record.signing_public_key@
}

/// An update of `d` with `record` at `now` was refused with `e`: `verify`
/// refused the new record with `e`, or it accepted it and then `d` is
/// malformed, unknown or expired, `verify` refused the stored record with
/// `e`, or the signing keys differ.
pub open spec fn update_refused<F: Fn(&DarkDomainRecord) -> Result<(), DarkResolverError>>(
    m: Map<Seq<char>, DarkDomainRecord>,
    d: Seq<char>,
    record: DarkDomainRecord,
    now: u64,
    verify: &F,
    e: DarkResolverError,
) -> bool {
    ||| verify.ensures((&record,), Err::<(), DarkResolverError>(e))
    ||| verify.ensures((&record,), Ok::<(), DarkResolverError>(())) && {
        ||| !valid_dark_domain(d) && e == DarkResolverError::InvalidDomain
        ||| valid_dark_domain(d) && !m.dom().contains(d) && e == DarkResolverError::DomainNotFound
        ||| valid_dark_domain(d) && m.dom().contains(d) && record_expired(m[d], now)
            && e == DarkResolverError::DomainExpired
        ||| valid_dark_domain(d) && m.dom().contains(d) && !record_expired(m[d], now)
            && verify.ensures((&m[d],), Err::<(), DarkResolverError>(e))
        ||| valid_dark_domain(d) && m.dom().contains(d) && !record_expired(m[d], now)
            && verify.ensures((&m[d],), Ok::<(), DarkResolverError>(()))
            && m[d].signing_public_key@ != record.signing_public_key@ && e == DarkResolverError::InvalidSignature
    }
}

/// Whether two byte strings are equal.
fn bytes_equal(a: &Vec<u8>, b: &Vec<u8>) -> (r: bool)
    ensures
        r == (a@ == b@),
{
    if a.len() != b.len() {
        return false;
    }
    let mut i: usize = 0;
    while i < a.len()
        invariant
            a@.len() == b@.len(),
            0 <= i <= a@.len(),
            forall|j: int| 0 <= j < i ==> a@[j] == b@[j],
        decreases a@.len() - i,
    {
        if a[i] != b[i] {
            return false;
        }
        i = i + 1;
    }
    assert(a@ =~= b@);
    true
}

/// Whether every character is alphanumeric or a hyphen.
fn chars_ok(s: &str) -> (r: bool)
    ensures
        r == label_chars_ok(s@),
        ascii_text(s@) ==> (r == ascii_label_chars_ok(s@)),
{
    let n = s.unicode_len();
    let mut i: usize = 0;
    while i < n
        invariant
            n == s@.len(),
            0 <= i <= n,
            forall|j: int| 0 <= j < i ==> unicode_alphanumeric(#[trigger] s@[j]) || s@[j] == '-',
            ascii_text(s@) ==> forall|j: int| 0 <= j < i ==> ascii_letter_or_digit(#[trigger] s@[j]) || s@[j] == '-',
        decreases n - i,
    {
        let c = s.get_char(i);
        if !(is_alphanumeric(c) || c == '-') {
            proof {
                if ascii_text(s@) {
                    assert((s@[i as int] as u32) < 128);
                    assert(!ascii_label_chars_ok(s@));
                }
            }
            return false;
        }
        proof {
            if ascii_text(s@) {
                assert((s@[i as int] as u32) < 128);
            }
        }
        i = i + 1;
    }
    true
}

/// Whether two hyphens follow each other somewhere.
fn double_hyphen(s: &str) -> (r: bool)
    ensures
        r == has_double_hyphen(s@),
{
    let n = s.unicode_len();
    if n < 2 {
        return false;
    }
    let mut i: usize = 0;
    while i + 1 < n
        invariant
            n == s@.len(),
            n >= 2,
            0 <= i <= n - 1,
            forall|j: int| 0 <= j < i ==> !(#[trigger] s@[j] == '-' && s@[j + 1] == '-'),
        decreases n - i,
    {
        if s.get_char(i) == '-' && s.get_char(i + 1) == '-' {
            return true;
        }
        i = i + 1;
    }
    false
}

/// Rules shared by custom names and the label of a domain.
fn label_ok(name: &str) -> (r: bool)
    ensures
        r == valid_custom_name(name@),
        ascii_text(name@) ==> (r == valid_ascii_custom_name(name@)),
{
    let bytes = name.as_bytes().len();
    proof {
        if ascii_text(name@) {
            lemma_ascii_byte_len(name@);
        }
    }
    if bytes < 3 || bytes > 63 {
        return false;
    }
    let n = name.unicode_len();
    if n > 0 && (name.get_char(0) == '-' || name.get_char(n - 1) == '-') {
        return false;
    }
    proof {
        if n == 0 {
            assert(encode_utf8(name@) =~= Seq::<u8>::empty()) by {
                assert(name@ =~= Seq::<char>::empty());
            }
        }
    }
    chars_ok(name)
}

/// Registry of dark domains, with reverse lookups and an address book.
pub struct DarkResolver {
    /// Records by domain name; each name once
    pub domains: Vec<(String, DarkDomainRecord)>,
    /// Address book entries by name; each name once
    pub address_book: Vec<(String, AddressBookEntry)>,
    /// Domain names by dark address; each address once
    pub reverse_lookup: Vec<(String, String)>,
}

impl DarkResolver {
    /// Each registry holds every key once.
    pub open spec fn wf(&self) -> bool {
        &&& keys_distinct(self.domains@)
        &&& keys_distinct(self.address_book@)
        &&& keys_distinct(self.reverse_lookup@)
    }

    /// Records by domain name.
    pub open spec fn domain_map(&self) -> Map<Seq<char>, DarkDomainRecord> {
        assoc_view(self.domains@)
    }

    /// Address book by name.
    pub open spec fn book(&self) -> Map<Seq<char>, AddressBookEntry> {
        assoc_view(self.address_book@)
    }

    /// Domain names by dark address.
    pub open spec fn reverse(&self) -> Map<Seq<char>, String> {
        assoc_view(self.reverse_lookup@)
    }

    /// An empty resolver.
    pub fn new() -> (r: DarkResolver)
        ensures
            r.wf(),
            r.domain_map() == Map::<Seq<char>, DarkDomainRecord>::empty(),
            r.book() == Map::<Seq<char>, AddressBookEntry>::empty(),
            r.reverse() == Map::<Seq<char>, String>::empty(),
    {
        let r = DarkResolver { domains: Vec::new(), address_book: Vec::new(), reverse_lookup: Vec::new() };
        proof {
            assert(r.domain_map() =~= Map::<Seq<char>, DarkDomainRecord>::empty());
            assert(r.book() =~= Map::<Seq<char>, AddressBookEntry>::empty());
            assert(r.reverse() =~= Map::<Seq<char>, String>::empty());
        }
        r
    }

    /// The DHT key of a domain's record: the BLAKE3 hash of `dark_domain:`
    /// followed by the domain's bytes.
    pub fn domain_to_dht_key(domain: &str) -> (r: Vec<u8>)
        ensures
            r@ == blake3_digest(dht_key_tag() + encode_utf8(domain@)),
    {
        let mut v: Vec<u8> = Vec::new();
        v.push(100u8);
        v.push(97u8);
        v.push(114u8);
        v.push(107u8);
        v.push(95u8);
        v.push(100u8);
        v.push(111u8);
        v.push(109u8);
        v.push(97u8);
        v.push(105u8);
        v.push(110u8);
        v.push(58u8);
        assert(v@ =~= dht_key_tag());
        push_all(&mut v, domain.as_bytes());
        let h = blake3_hash(v.as_slice());
        let mut out: Vec<u8> = Vec::new();
        push_all(&mut out, &h);
        out
    }

    /// Whether `name` is a valid custom name; see `valid_custom_name`.
    pub fn is_valid_custom_name(name: &str) -> (r: bool)
        ensures
            r == valid_custom_name(name@),
            ascii_text(name@) ==> (r == valid_ascii_custom_name(name@)),
    {
        label_ok(name)
    }

    /// Whether `domain` is a valid `.dark` domain; see `valid_dark_domain`.
    pub fn is_valid_dark_domain(domain: &str) -> (r: bool)
        ensures
            r == valid_dark_domain(domain@),
            ascii_text(domain@) ==> (r == valid_ascii_dark_domain(domain@)),
    {
        let n = domain.unicode_len();
        if n < 5 {
            return false;
        }
        if !(domain.get_char(n - 5) == '.' && domain.get_char(n - 4) == 'd' && domain.get_char(n - 3) == 'a'
            && domain.get_char(n - 2) == 'r' && domain.get_char(n - 1) == 'k') {
            proof {
                assert(domain@.subrange(n - 5, n as int) != dark_suffix()) by {
                    if domain@.subrange(n - 5, n as int) == dark_suffix() {
                        assert(domain@.subrange(n - 5, n as int)[0] == domain@[n - 5]);
                        assert(domain@.subrange(n - 5, n as int)[1] == domain@[n - 4]);
                        assert(domain@.subrange(n - 5, n as int)[2] == domain@[n - 3]);
                        assert(domain@.subrange(n - 5, n as int)[3] == domain@[n - 2]);
                        assert(domain@.subrange(n - 5, n as int)[4] == domain@[n - 1]);
                    }
                }
            }
            return false;
        }
        proof {
            assert(domain@.subrange(n - 5, n as int) =~= dark_suffix());
        }
        let label = domain.substring_char(0, n - 5);
        proof {
            if ascii_text(domain@) {
                assert forall|i: int| 0 <= i < label@.len() implies (#[trigger] label@[i] as u32) < 128 by {
                    assert(label@[i] == domain@[i]);
                }
            }
        }
        label_ok(label) && !double_hyphen(label)
    }

    /// The dark address of `public_key`: the base58 text of the first 20
    /// bytes of the BLAKE3 hash of `dark_address_v1` followed by the key.
    /// With a custom name the domain is `name.dark` (an invalid name is
    /// refused); without one, it is the first 8 characters of the address,
    /// lowercased, followed by `.dark`.
    pub fn generate_dark_address(public_key: &[u8], custom_name: Option<&str>) -> (r: Result<DarkAddress, DarkResolverError>)
        ensures
            r matches Ok(a) ==> a.address@ == dark_address_text(public_key@),
            custom_name matches Some(n) ==> (r is Ok <==> valid_custom_name(n@)),
            custom_name is Some && !valid_custom_name(custom_name->0@) ==> (r matches Err(DarkResolverError::InvalidDomain)),
            custom_name is Some && r is Ok ==> r->Ok_0.domain@ == custom_name->0@ + dark_suffix(),
            custom_name is None ==> r is Ok,
            dark_address_text(public_key@).len() >= 20,
            custom_name is None && r is Ok ==> r->Ok_0.domain@
                == unicode_lowercase(dark_address_text(public_key@).take(8)) + dark_suffix(),
    {
        let mut input: Vec<u8> = vec![100u8, 97, 114, 107, 95, 97, 100, 100, 114, 101, 115, 115, 95, 118, 49];
        let mut i: usize = 0;
        assert(input@ =~= dark_address_tag());
        while i < public_key.len()
            invariant
                0 <= i <= public_key@.len(),
                input@ == dark_address_tag() + public_key@.take(i as int),
            decreases public_key@.len() - i,
        {
            input.push(public_key[i]);
            i = i + 1;
            assert(input@ =~= dark_address_tag() + public_key@.take(i as int));
        }
        assert(public_key@.take(public_key@.len() as int) =~= public_key@);
        let hash = blake3_hash(input.as_slice());
        let mut head: Vec<u8> = Vec::new();
        let mut j: usize = 0;
        while j < 20
            invariant
                0 <= j <= 20,
                hash@.len() == 32,
                head@ == hash@.take(j as int),
            decreases 20 - j,
        {
            head.push(hash[j]);
            j = j + 1;
            assert(head@ =~= hash@.take(j as int));
        }
        let address = base58_encode(head.as_slice());
        match custom_name {
            Some(name) => {
                if !label_ok(name) {
                    return Err(DarkResolverError::InvalidDomain);
                }
                let mut domain = String::from_str(name);
                domain.append(".dark");
                proof {
                    reveal_strlit(".dark");
                    assert(domain@ =~= name@ + dark_suffix());
                }
                Ok(DarkAddress { address, domain })
            },
            None => {
                let head_text = address.as_str().substring_char(0, 8);
                let mut domain = to_lowercase(head_text);
                domain.append(".dark");
                proof {
                    reveal_strlit(".dark");
                    assert(address@.subrange(0, 8) =~= address@.take(8));
                    assert(domain@ =~= unicode_lowercase(address@.take(8)) + dark_suffix());
                }
                Ok(DarkAddress { address, domain })
            },
        }
    }

    /// Registers a signed record under the domain derived from its signing
    /// key (see `chosen_domain`) and records the reverse lookup from the
    /// key's address. A domain that cannot be formed, is not a valid `.dark`
    /// domain, or is taken is refused, and nothing changes.
    pub fn register_domain(&mut self, custom_name: Option<&str>, record: DarkDomainRecord) -> (r: Result<DarkAddress, DarkResolverError>)
        requires
            old(self).wf(),
        ensures
            final(self).wf(),
            final(self).book() == old(self).book(),
            r is Err ==> final(self).domain_map() == old(self).domain_map() && final(self).reverse() == old(self).reverse(),
            chosen_domain(record.signing_public_key@, name_text(custom_name)) is None
                ==> (r matches Err(DarkResolverError::InvalidDomain)),
            chosen_domain(record.signing_public_key@, name_text(custom_name)) matches Some(d) ==> {
                &&& !valid_dark_domain(d) ==> (r matches Err(DarkResolverError::InvalidDomain))
                &&& valid_dark_domain(d) && old(self).domain_map().dom().contains(d)
                    ==> (r matches Err(DarkResolverError::DomainExists))
                &&& valid_dark_domain(d) && !old(self).domain_map().dom().contains(d) ==> {
                    &&& r is Ok
                    &&& r->Ok_0.domain@ == d
                    &&& r->Ok_0.address@ == dark_address_text(record.signing_public_key@)
                    &&& final(self).domain_map() == old(self).domain_map().insert(d, record)
                    &&& final(self).reverse() == old(self).reverse().insert(r->Ok_0.address@, r->Ok_0.domain)
                }
            },
    {
        let addr = match Self::generate_dark_address(record.signing_public_key.as_slice(), custom_name) {
            Ok(a) => a,
            Err(e) => {
                return Err(e);
            },
        };
        if !Self::is_valid_dark_domain(addr.domain.as_str()) {
            return Err(DarkResolverError::InvalidDomain);
        }
        match assoc_find(&self.domains, &addr.domain) {
            Some(_) => {
                return Err(DarkResolverError::DomainExists);
            },
            None => {},
        }
        assoc_insert(&mut self.domains, addr.domain.clone(), record);
        assoc_insert(&mut self.reverse_lookup, addr.address.clone(), addr.domain.clone());
        Ok(addr)
    }

    /// The record of `domain` at time `now`: refused as `InvalidDomain` when
    /// the name is malformed, `DomainNotFound` when it is not registered and
    /// `DomainExpired` when its record has expired. Otherwise the record's
    /// signature is checked with `verify`, and its refusal is handed on.
    pub fn lookup_domain_at<F>(&self, domain: &str, now: u64, verify: &F) -> (r: Result<&DarkDomainRecord, DarkResolverError>)
        where
            F: Fn(&DarkDomainRecord) -> Result<(), DarkResolverError>,
        requires
            self.wf(),
            forall|x: &DarkDomainRecord| verify.requires((x,)),
        ensures
            !valid_dark_domain(domain@) ==> (r matches Err(DarkResolverError::InvalidDomain)),
            valid_dark_domain(domain@) && !self.domain_map().dom().contains(domain@)
                ==> (r matches Err(DarkResolverError::DomainNotFound)),
            valid_dark_domain(domain@) && self.domain_map().dom().contains(domain@)
                && record_expired(self.domain_map()[domain@], now) ==> (r matches Err(DarkResolverError::DomainExpired)),
            valid_dark_domain(domain@) && self.domain_map().dom().contains(domain@)
                && !record_expired(self.domain_map()[domain@], now) ==> {
                &&& r matches Ok(rec) ==> *rec == self.domain_map()[domain@]
                    && verify.ensures((&self.domain_map()[domain@],), Ok::<(), DarkResolverError>(()))
                &&& r is Err ==> verify.ensures((&self.domain_map()[domain@],), Err::<(), DarkResolverError>(r->Err_0))
            },
    {
        if !Self::is_valid_dark_domain(domain) {
            return Err(DarkResolverError::InvalidDomain);
        }
        let key = String::from_str(domain);
        match assoc_find(&self.domains, &key) {
            Some(p) => {
                let rec = &self.domains[p].1;
                if rec.is_expired_at(now) {
                    Err(DarkResolverError::DomainExpired)
                } else {
                    let res = verify(rec);
                    proof {
                        assert(verify.ensures((&self.domain_map()[domain@],), res));
                    }
                    match res {
                        Ok(u) => {
                            assert(u == ());
                            assert(res == Ok::<(), DarkResolverError>(()));
                            Ok(rec)
                        },
                        Err(e) => Err(e),
                    }
                }
            },
            None => Err(DarkResolverError::DomainNotFound),
        }
    }

    /// The record of `domain` at the current time; see `lookup_domain_at`.
    pub fn lookup_domain<F>(&self, domain: &str, verify: &F) -> (r: Result<&DarkDomainRecord, DarkResolverError>)
        where
            F: Fn(&DarkDomainRecord) -> Result<(), DarkResolverError>,
        requires
            self.wf(),
            forall|x: &DarkDomainRecord| verify.requires((x,)),
        ensures
            !valid_dark_domain(domain@) ==> (r matches Err(DarkResolverError::InvalidDomain)),
            valid_dark_domain(domain@) && !self.domain_map().dom().contains(domain@)
                ==> (r matches Err(DarkResolverError::DomainNotFound)),
            r matches Ok(rec) ==> *rec == self.domain_map()[domain@] && self.domain_map().dom().contains(domain@)
                && verify.ensures((&self.domain_map()[domain@],), Ok::<(), DarkResolverError>(())),
            r is Err && valid_dark_domain(domain@) && self.domain_map().dom().contains(domain@)
                ==> (r matches Err(DarkResolverError::DomainExpired))
                || verify.ensures((&self.domain_map()[domain@],), Err::<(), DarkResolverError>(r->Err_0)),
    {
        self.lookup_domain_at(domain, now_secs(), verify)
    }

    /// The network addresses of `domain` at time `now`; errors as for
    /// `lookup_domain_at`.
    pub fn resolve_addresses_at<F>(&self, domain: &str, now: u64, verify: &F) -> (r: Result<Vec<NetworkAddress>, DarkResolverError>)
        where
            F: Fn(&DarkDomainRecord) -> Result<(), DarkResolverError>,
        requires
            self.wf(),
            forall|x: &DarkDomainRecord| verify.requires((x,)),
        ensures
            !valid_dark_domain(domain@) ==> (r matches Err(DarkResolverError::InvalidDomain)),
            valid_dark_domain(domain@) && !self.domain_map().dom().contains(domain@)
                ==> (r matches Err(DarkResolverError::DomainNotFound)),
            valid_dark_domain(domain@) && self.domain_map().dom().contains(domain@)
                && record_expired(self.domain_map()[domain@], now) ==> (r matches Err(DarkResolverError::DomainExpired)),
            valid_dark_domain(domain@) && self.domain_map().dom().contains(domain@)
                && !record_expired(self.domain_map()[domain@], now) ==> {
                &&& r matches Ok(v) ==> v@ == self.domain_map()[domain@].addresses@
                    && verify.ensures((&self.domain_map()[domain@],), Ok::<(), DarkResolverError>(()))
                &&& r is Err ==> verify.ensures((&self.domain_map()[domain@],), Err::<(), DarkResolverError>(r->Err_0))
            },
    {
        match self.lookup_domain_at(domain, now, verify) {
            Ok(rec) => {
                let mut v: Vec<NetworkAddress> = Vec::new();
                let mut i: usize = 0;
                while i < rec.addresses.len()
                    invariant
                        0 <= i <= rec.addresses@.len(),
                        v@ == rec.addresses@.take(i as int),
                    decreases rec.addresses@.len() - i,
                {
                    v.push(rec.addresses[i]);
                    i = i + 1;
                    assert(v@ =~= rec.addresses@.take(i as int));
                }
                assert(rec.addresses@.take(i as int) =~= rec.addresses@);
                Ok(v)
            },
            Err(e) => Err(e),
        }
    }

    /// The network addresses of `domain` at the current time.
    pub fn resolve_addresses<F>(&self, domain: &str, verify: &F) -> (r: Result<Vec<NetworkAddress>, DarkResolverError>)
        where
            F: Fn(&DarkDomainRecord) -> Result<(), DarkResolverError>,
        requires
            self.wf(),
            forall|x: &DarkDomainRecord| verify.requires((x,)),
        ensures
            !valid_dark_domain(domain@) ==> (r matches Err(DarkResolverError::InvalidDomain)),
            valid_dark_domain(domain@) && !self.domain_map().dom().contains(domain@)
                ==> (r matches Err(DarkResolverError::DomainNotFound)),
            r matches Ok(v) ==> self.domain_map().dom().contains(domain@) && v@ == self.domain_map()[domain@].addresses@
                && verify.ensures((&self.domain_map()[domain@],), Ok::<(), DarkResolverError>(())),
    {
        self.resolve_addresses_at(domain, now_secs(), verify)
    }

    /// Takes in the record of `domain` that the DHT returned when it was not
    /// found here, at time `now`: refused as `DomainExpired` when expired,
    /// with `verify`'s refusal when its signature does not verify, and
    /// otherwise kept under `domain`. On an error nothing changes.
    pub fn accept_remote_record_at<F>(&mut self, domain: &str, record: DarkDomainRecord, now: u64, verify: &F) -> (r: Result<(), DarkResolverError>)
        where
            F: Fn(&DarkDomainRecord) -> Result<(), DarkResolverError>,
        requires
            old(self).wf(),
            forall|x: &DarkDomainRecord| verify.requires((x,)),
        ensures
            final(self).wf(),
            final(self).book() == old(self).book(),
            final(self).reverse() == old(self).reverse(),
            r is Err ==> final(self).domain_map() == old(self).domain_map(),
            record_expired(record, now) ==> (r matches Err(DarkResolverError::DomainExpired)),
            !record_expired(record, now) ==> {
                &&& r is Ok ==> verify.ensures((&record,), Ok::<(), DarkResolverError>(()))
                    && final(self).domain_map() == old(self).domain_map().insert(domain@, record)
                &&& r is Err ==> verify.ensures((&record,), Err::<(), DarkResolverError>(r->Err_0))
            },
    {
        if record.is_expired_at(now) {
            return Err(DarkResolverError::DomainExpired);
        }
        let res = verify(&record);
        proof {
            assert(verify.ensures((&record,), res));
        }
        match res {
            Ok(u) => {
                assert(u == ());
                assert(res == Ok::<(), DarkResolverError>(()));
            },
            Err(e) => {
                return Err(e);
            },
        }
        assoc_insert(&mut self.domains, String::from_str(domain), record);
        Ok(())
    }

    /// The domains whose records have expired at `now`, each once.
    pub fn expired_domains_at(&self, now: u64) -> (r: Vec<String>)
        requires
            self.wf(),
        ensures
            forall|i: int| 0 <= i < r@.len() ==> expired_domains(self.domain_map(), now).contains(#[trigger] r@[i]@),
            forall|d: Seq<char>| #[trigger] expired_domains(self.domain_map(), now).contains(d)
                ==> exists|i: int| 0 <= i < r@.len() && r@[i]@ == d,
            forall|i: int, j: int| 0 <= i < j < r@.len() ==> (#[trigger] r@[i])@ != (#[trigger] r@[j])@,
    {
        let mut v: Vec<String> = Vec::new();
        let ghost mut idx: Seq<int> = Seq::empty();
        let mut i: usize = 0;
        while i < self.domains.len()
            invariant
                self.wf(),
                0 <= i <= self.domains@.len(),
                idx.len() == v@.len(),
                forall|k: int| 0 <= k < v@.len() ==> 0 <= #[trigger] idx[k] < i && v@[k]@ == self.domains@[idx[k]].0@
                    && record_expired(self.domains@[idx[k]].1, now),
                forall|k: int, l: int| 0 <= k < l < v@.len() ==> #[trigger] idx[k] < #[trigger] idx[l],
                forall|j: int| 0 <= j < i && record_expired(#[trigger] self.domains@[j].1, now)
                    ==> exists|k: int| 0 <= k < v@.len() && idx[k] == j,
            decreases self.domains@.len() - i,
        {
            let ghost old_idx = idx;
            if self.domains[i].1.is_expired_at(now) {
                v.push(self.domains[i].0.clone());
                proof {
                    idx = idx.push(i as int);
                    assert(idx[idx.len() - 1] == i);
                }
            }
            proof {
                assert forall|k: int| 0 <= k < old_idx.len() implies idx[k] == #[trigger] old_idx[k] by {}
                assert forall|j: int| 0 <= j < i + 1 && record_expired(#[trigger] self.domains@[j].1, now)
                    implies exists|k: int| 0 <= k < v@.len() && idx[k] == j by {
                    if j < i {
                        let k = choose|k: int| 0 <= k < old_idx.len() && old_idx[k] == j;
                        assert(idx[k] == j);
                    } else {
                        assert(idx[idx.len() - 1] == j);
                    }
                }
            }
            i = i + 1;
        }
        proof {
            assert forall|k: int| 0 <= k < v@.len() implies expired_domains(self.domain_map(), now).contains(#[trigger] v@[k]@) by {
                lemma_assoc_at(self.domains@, idx[k]);
            }
            assert forall|d: Seq<char>| #[trigger] expired_domains(self.domain_map(), now).contains(d)
                implies exists|k: int| 0 <= k < v@.len() && v@[k]@ == d by {
                lemma_assoc_key(self.domains@, d);
                let j = choose|j: int| 0 <= j < self.domains@.len() && (#[trigger] self.domains@[j]).0@ == d
                    && self.domain_map()[d] == self.domains@[j].1;
                let k = choose|k: int| 0 <= k < v@.len() && idx[k] == j;
                assert(v@[k]@ == d);
            }
            assert forall|a: int, b: int| 0 <= a < b < v@.len() implies (#[trigger] v@[a])@ != (#[trigger] v@[b])@ by {
                assert(idx[a] < idx[b]);
                assert(self.domains@[idx[a]].0@ != self.domains@[idx[b]].0@);
            }
        }
        v
    }

    /// Stores an address book entry under `name`, added at `now`, replacing
    /// an earlier one.
    pub fn add_to_address_book_at(&mut self, name: String, dark_address: DarkAddress, notes: Option<String>, now: u64) -> (r: Result<(), DarkResolverError>)
        requires
            old(self).wf(),
        ensures
            final(self).wf(),
            r is Ok,
            final(self).book() == old(self).book().insert(name@, AddressBookEntry { name, dark_address, notes, added_at: now }),
            final(self).domain_map() == old(self).domain_map(),
            final(self).reverse() == old(self).reverse(),
    {
        let entry = AddressBookEntry { name: name.clone(), dark_address, notes, added_at: now };
        assoc_insert(&mut self.address_book, name, entry);
        Ok(())
    }

    /// Stores an address book entry under `name`, added now.
    pub fn add_to_address_book(&mut self, name: String, dark_address: DarkAddress, notes: Option<String>) -> (r: Result<(), DarkResolverError>)
        requires
            old(self).wf(),
        ensures
            final(self).wf(),
            r is Ok,
            exists|now: u64| final(self).book() == old(self).book().insert(
                name@,
                AddressBookEntry { name, dark_address, notes, added_at: now },
            ),
            final(self).domain_map() == old(self).domain_map(),
            final(self).reverse() == old(self).reverse(),
    {
        self.add_to_address_book_at(name, dark_address, notes, now_secs())
    }

    /// The address book entry of `name`, or `DomainNotFound`.
    pub fn lookup_address_book(&self, name: &str) -> (r: Result<AddressBookEntry, DarkResolverError>)
        requires
            self.wf(),
        ensures
            self.book().dom().contains(name@) ==> (r matches Ok(e) && e == self.book()[name@]),
            !self.book().dom().contains(name@) ==> (r matches Err(DarkResolverError::DomainNotFound)),
    {
        let key = String::from_str(name);
        match assoc_find(&self.address_book, &key) {
            Some(p) => Ok(self.address_book[p].1.duplicate()),
            None => Err(DarkResolverError::DomainNotFound),
        }
    }

    /// All address book entries, each once.
    pub fn list_address_book(&self) -> (r: Result<Vec<AddressBookEntry>, DarkResolverError>)
        requires
            self.wf(),
        ensures
            r is Ok,
            r->Ok_0@.len() == self.book().dom().len(),
            forall|i: int| 0 <= i < r->Ok_0@.len() ==> exists|k: Seq<char>|
                #![trigger self.book()[k]]
                self.book().dom().contains(k) && self.book()[k] == #[trigger] r->Ok_0@[i],
            forall|k: Seq<char>| #[trigger] self.book().dom().contains(k)
                ==> exists|i: int| 0 <= i < r->Ok_0@.len() && r->Ok_0@[i] == self.book()[k],
    {
        let mut v: Vec<AddressBookEntry> = Vec::new();
        let mut i: usize = 0;
        while i < self.address_book.len()
            invariant
                self.wf(),
                0 <= i <= self.address_book@.len(),
                v@.len() == i,
                forall|j: int| 0 <= j < i ==> v@[j] == (#[trigger] self.address_book@[j]).1,
            decreases self.address_book@.len() - i,
        {
            v.push(self.address_book[i].1.duplicate());
            i = i + 1;
        }
        proof {
            lemma_assoc_len(self.address_book@);
            assert forall|j: int| 0 <= j < v@.len() implies exists|k: Seq<char>|
                #![trigger self.book()[k]]
                self.book().dom().contains(k) && self.book()[k] == #[trigger] v@[j] by {
                lemma_assoc_at(self.address_book@, j);
                assert(v@[j] == self.address_book@[j].1);
                assert(self.book()[self.address_book@[j].0@] == v@[j]);
            }
            assert forall|k: Seq<char>| #[trigger] self.book().dom().contains(k)
                implies exists|j: int| 0 <= j < v@.len() && v@[j] == self.book()[k] by {
                lemma_assoc_key(self.address_book@, k);
                let j = choose|j: int| 0 <= j < self.address_book@.len() && (#[trigger] self.address_book@[j]).0@ == k
                    && self.book()[k] == self.address_book@[j].1;
                assert(v@[j] == self.address_book@[j].1);
            }
        }
        Ok(v)
    }

    /// Replaces the record of `domain` at time `now` with `record`. The new
    /// record's signature is checked first with `verify`; then the domain
    /// must resolve (errors as for `lookup_domain_at`) and the new record
    /// must have the same signing key as the old one (else
    /// `InvalidSignature`). On an error nothing changes.
    pub fn update_domain_at<F>(&mut self, domain: &str, record: DarkDomainRecord, now: u64, verify: &F) -> (r: Result<(), DarkResolverError>)
        where
            F: Fn(&DarkDomainRecord) -> Result<(), DarkResolverError>,
        requires
            old(self).wf(),
            forall|x: &DarkDomainRecord| verify.requires((x,)),
        ensures
            final(self).wf(),
            final(self).book() == old(self).book(),
            final(self).reverse() == old(self).reverse(),
            r is Err ==> final(self).domain_map() == old(self).domain_map(),
            r is Ok ==> update_accepted(old(self).domain_map(), domain@, record, now, verify)
                && final(self).domain_map() == old(self).domain_map().insert(domain@, record),
            r is Err ==> update_refused(old(self).domain_map(), domain@, record, now, verify, r->Err_0),
    {
        let res = verify(&record);
        proof {
            assert(verify.ensures((&record,), res));
        }
        match res {
            Ok(u) => {
                assert(u == ());
                assert(res == Ok::<(), DarkResolverError>(()));
            },
            Err(e) => {
                return Err(e);
            },
        }
        let same_key = match self.lookup_domain_at(domain, now, verify) {
            Ok(existing) => bytes_equal(&existing.signing_public_key, &record.signing_public_key),
            Err(e) => {
                return Err(e);
            },
        };
        if !same_key {
            return Err(DarkResolverError::InvalidSignature);
        }
        assoc_insert(&mut self.domains, String::from_str(domain), record);
        Ok(())
    }

    /// Replaces the record of `domain` at the current time; see
    /// `update_domain_at`.
    pub fn update_domain<F>(&mut self, domain: &str, record: DarkDomainRecord, verify: &F) -> (r: Result<(), DarkResolverError>)
        where
            F: Fn(&DarkDomainRecord) -> Result<(), DarkResolverError>,
        requires
            old(self).wf(),
            forall|x: &DarkDomainRecord| verify.requires((x,)),
        ensures
            final(self).wf(),
            final(self).book() == old(self).book(),
            final(self).reverse() == old(self).reverse(),
            r is Err ==> final(self).domain_map() == old(self).domain_map(),
            r is Ok ==> final(self).domain_map() == old(self).domain_map().insert(domain@, record),
            exists|now: u64|
                #![trigger update_accepted(old(self).domain_map(), domain@, record, now, verify)]
                #![trigger update_refused(old(self).domain_map(), domain@, record, now, verify, r->Err_0)]
                (r is Ok ==> update_accepted(old(self).domain_map(), domain@, record, now, verify)) && (r is Err
                    ==> update_refused(old(self).domain_map(), domain@, record, now, verify, r->Err_0)),
    {
        let now = now_secs();
        let ghost rec = record;
        let r = self.update_domain_at(domain, record, now, verify);
        assert((r is Ok ==> update_accepted(old(self).domain_map(), domain@, rec, now, verify)) && (r is Err
            ==> update_refused(old(self).domain_map(), domain@, rec, now, verify, r->Err_0)));
        r
    }

    /// Removes every record expired at `now`, and the reverse lookup of its
    /// address, returning how many were removed; it always succeeds.
    pub fn cleanup_expired_at(&mut self, now: u64) -> (r: Result<usize, DarkResolverError>)
        requires
            old(self).wf(),
        ensures
            final(self).wf(),
            final(self).book() == old(self).book(),
            r is Ok,
            r is Ok ==> {
                &&& final(self).domain_map() == old(self).domain_map().remove_keys(
                    expired_domains(old(self).domain_map(), now),
                )
                &&& final(self).reverse() == old(self).reverse().remove_keys(
                    dropped_addresses(old(self).domain_map(), final(self).domain_map().dom()),
                )
                &&& r->Ok_0 == expired_domains(old(self).domain_map(), now).len()
            },
            forall|k: Seq<char>| #[trigger] final(self).domain_map().dom().contains(k)
                ==> old(self).domain_map().dom().contains(k) && final(self).domain_map()[k] == old(self).domain_map()[k],
            forall|k: Seq<char>| #[trigger] old(self).domain_map().dom().contains(k)
                && !record_expired(old(self).domain_map()[k], now) ==> final(self).domain_map().dom().contains(k),
    {
        let ghost orig = self.domain_map();
        let ghost orig_rev = self.reverse();
        proof {
            lemma_assoc_len(self.domains@);
            assert(orig.dom().difference(orig.dom()) =~= Set::<Seq<char>>::empty());
            assert(dropped_addresses(orig, orig.dom()) =~= Set::<Seq<char>>::empty());
            assert(orig_rev.remove_keys(Set::<Seq<char>>::empty()) =~= orig_rev);
        }
        let orig_len = self.domains.len();
        let mut count: usize = 0;
        let mut i: usize = 0;
        while i < self.domains.len()
            invariant
                self.wf(),
                orig.dom().len() == orig_len,
                self.book() == old(self).book(),
                orig == old(self).domain_map(),
                orig_rev == old(self).reverse(),
                orig.dom().finite(),
                orig.dom().len() == old(self).domains@.len(),
                0 <= i <= self.domains@.len(),
                forall|j: int| 0 <= j < i ==> !record_expired(#[trigger] self.domains@[j].1, now),
                forall|k: Seq<char>| #[trigger] self.domain_map().dom().contains(k)
                    ==> orig.dom().contains(k) && self.domain_map()[k] == orig[k],
                forall|k: Seq<char>| #[trigger] orig.dom().contains(k) && !self.domain_map().dom().contains(k)
                    ==> record_expired(orig[k], now) && dark_address_text(orig[k].signing_public_key@).len() >= 8,
                forall|k: Seq<char>| #[trigger] orig.dom().contains(k) && !record_expired(orig[k], now)
                    ==> self.domain_map().dom().contains(k),
                count == orig.dom().difference(self.domain_map().dom()).len(),
                self.reverse() == orig_rev.remove_keys(dropped_addresses(orig, self.domain_map().dom())),
            decreases self.domains@.len() - i,
        {
            if self.domains[i].1.is_expired_at(now) {
                let ghost s0 = self.domains@;
                let ghost cur0 = self.domain_map();
                let ghost d0 = s0[i as int].0@;
                proof {
                    lemma_assoc_at(s0, i as int);
                    lemma_assoc_remove(s0, i as int);
                }
                let (_, rec) = self.domains.remove(i);
                proof {
                    assert(self.domain_map() == cur0.remove(d0));
                    assert(orig.dom().difference(self.domain_map().dom()) =~= orig.dom().difference(cur0.dom()).insert(d0));
                    assert(!orig.dom().difference(cur0.dom()).contains(d0));
                    vstd::set_lib::lemma_len_difference(orig.dom(), self.domain_map().dom());
                }
                count = count + 1;
                let addr = match Self::generate_dark_address(rec.signing_public_key.as_slice(), None) {
                    Ok(a) => a,
                    Err(e) => {
                        return Err(e);
                    },
                };
                let ghost rev0 = self.reverse();
                assoc_remove(&mut self.reverse_lookup, &addr.address);
                proof {
                    assert(orig[d0] == rec);
                    assert forall|k: Seq<char>| #[trigger] self.domain_map().dom().contains(k)
                        implies orig.dom().contains(k) && self.domain_map()[k] == orig[k] by {
                        assert(cur0.dom().contains(k));
                    }
                    assert forall|k: Seq<char>| #[trigger] orig.dom().contains(k) && !self.domain_map().dom().contains(k)
                        implies record_expired(orig[k], now) && dark_address_text(orig[k].signing_public_key@).len() >= 8 by {
                        if k != d0 {
                            assert(!cur0.dom().contains(k));
                        }
                    }
                    let drop0 = dropped_addresses(orig, cur0.dom());
                    let drop1 = dropped_addresses(orig, self.domain_map().dom());
                    assert(drop1 =~= drop0.insert(addr.address@)) by {
                        assert forall|a: Seq<char>| drop1.contains(a) implies #[trigger] drop0.insert(addr.address@).contains(a) by {
                            let d = choose|d: Seq<char>|
                                #![trigger orig[d]]
                                orig.dom().contains(d) && !self.domain_map().dom().contains(d)
                                    && dark_address_text(orig[d].signing_public_key@) == a;
                            if d != d0 {
                                assert(!cur0.dom().contains(d));
                                assert(drop0.contains(a));
                            }
                        }
                        assert forall|a: Seq<char>| #[trigger] drop0.insert(addr.address@).contains(a) implies drop1.contains(a) by {
                            if a == addr.address@ {
                                assert(orig.dom().contains(d0) && !self.domain_map().dom().contains(d0)
                                    && dark_address_text(orig[d0].signing_public_key@) == a);
                            } else {
                                let d = choose|d: Seq<char>|
                                    #![trigger orig[d]]
                                    orig.dom().contains(d) && !cur0.dom().contains(d)
                                        && dark_address_text(orig[d].signing_public_key@) == a;
                                assert(!self.domain_map().dom().contains(d));
                            }
                        }
                    }
                    assert(self.reverse() =~= orig_rev.remove_keys(drop1));
                    assert forall|j: int| 0 <= j < i implies !record_expired(#[trigger] self.domains@[j].1, now) by {
                        assert(self.domains@[j] == s0[j]);
                    }
                }
            } else {
                i = i + 1;
            }
        }
        proof {
            let e = expired_domains(orig, now);
            assert(orig.dom().difference(self.domain_map().dom()) =~= e) by {
                assert forall|k: Seq<char>| #[trigger] self.domain_map().dom().contains(k) implies !record_expired(orig[k], now) by {
                    lemma_assoc_key(self.domains@, k);
                }
            }
            assert(self.domain_map() =~= orig.remove_keys(e)) by {
                assert forall|k: Seq<char>| #[trigger] self.domain_map().dom().contains(k) implies !record_expired(orig[k], now) by {
                    lemma_assoc_key(self.domains@, k);
                }
            }
        }
        Ok(count)
    }

    /// Removes the records expired at the current time; see
    /// `cleanup_expired_at`.
    pub fn cleanup_expired(&mut self) -> (r: Result<usize, DarkResolverError>)
        requires
            old(self).wf(),
        ensures
            final(self).wf(),
            final(self).book() == old(self).book(),
            exists|now: u64| #[trigger] cleaned_at(old(self).domain_map(), final(self).domain_map(), r, now),
    {
        let now = now_secs();
        let r = self.cleanup_expired_at(now);
        assert(cleaned_at(old(self).domain_map(), self.domain_map(), r, now));
        r
    }
}

/// Registration law: once `register_domain` has stored `record` under the
/// valid domain `d` (the records becoming `before.insert(d, record)`), a
/// lookup of `d` at any time before the record expires finds the domain,
/// unexpired, with exactly that record (see `lookup_domain_at`).
pub proof fn law_register_then_lookup(before: Map<Seq<char>, DarkDomainRecord>, d: Seq<char>, record: DarkDomainRecord, now: u64)
    requires
        valid_dark_domain(d),
        !record_expired(record, now),
    ensures
        ({
            let after = before.insert(d, record);
            &&& after.dom().contains(d)
            &&& !record_expired(after[d], now)
            &&& after[d] == record
        }),
{
}

/// Cleanup law: after a successful cleanup at `now` (the records becoming
/// `before` without its expired domains), no remaining record is expired at
/// `now`, and every record that had not expired is still there, unchanged.
pub proof fn law_cleanup_keeps_only_live_records(before: Map<Seq<char>, DarkDomainRecord>, now: u64)
    ensures
        ({
            let after = before.remove_keys(expired_domains(before, now));
            &&& forall|d: Seq<char>| #[trigger] after.dom().contains(d) ==> !record_expired(after[d], now)
            &&& forall|d: Seq<char>| #[trigger] before.dom().contains(d) && !record_expired(before[d], now)
                ==> after.dom().contains(d) && after[d] == before[d]
        }),
{
}

} // verus!
