//! DNS records managed through the Cloudflare API, and the validation that
//! every record passes before it is created or updated.

use vstd::prelude::*;

verus! {

/// Errors of DNS operations.
#[derive(Debug, Clone, PartialEq, Eq)]
pub enum DnsError {
    /// The API request failed
    ApiError(String),
    /// The record data is invalid
    ValidationError(String),
    /// The record does not exist
    NotFound(String),
}

/// Supported record types.
#[derive(Debug, Clone, Copy, PartialEq, Eq, Structural)]
pub enum RecordType {
    /// IPv4 address
    A,
    /// IPv6 address
    AAAA,
    /// Text
    TXT,
    /// Alias
    CNAME,
}

/// A DNS record.
#[derive(Debug, Clone)]
pub struct DnsRecord {
    /// Host name
    pub name: String,
    /// Record type
    pub record_type: RecordType,
    /// Value
    pub content: String,
    /// Time to live, in seconds
    pub ttl: u32,
    /// Whether traffic is proxied through Cloudflare
    pub proxied: bool,
}

/// Credentials of the Cloudflare API.
#[derive(Debug, Clone)]
pub struct CloudflareConfig {
    api_token: String,
    zone_id: String,
}

impl CloudflareConfig {
    /// Credentials for the given token and zone.
    pub fn new(api_token: String, zone_id: String) -> (r: CloudflareConfig)
        ensures
            r.token() == api_token,
            r.zone() == zone_id,
    {
        CloudflareConfig { api_token, zone_id }
    }

    /// The API token.
    pub closed spec fn token(&self) -> String {
        self.api_token
    }

    /// The zone id.
    pub closed spec fn zone(&self) -> String {
        self.zone_id
    }

    /// The API token.
    pub fn api_token(&self) -> (r: &String)
        ensures
            *r == self.token(),
    {
        &self.api_token
    }

    /// The zone id.
    pub fn zone_id(&self) -> (r: &String)
        ensures
            *r == self.zone(),
    {
        &self.zone_id
    }
}

/// An ASCII letter or digit.
pub open spec fn ascii_alnum(c: char) -> bool {
    ('a' <= c && c <= 'z') || ('A' <= c && c <= 'Z') || ('0' <= c && c <= '9')
}

/// An ASCII digit.
pub open spec fn ascii_digit(c: char) -> bool {
    '0' <= c && c <= '9'
}

/// Every character is an ASCII letter or digit, a dot or a hyphen.
pub open spec fn hostname_chars(s: Seq<char>) -> bool {
    forall|i: int| 0 <= i < s.len() ==> ascii_alnum(#[trigger] s[i]) || s[i] == '.' || s[i] == '-'
}

/// Value of a string of decimal digits.
pub open spec fn digits_value(d: Seq<char>) -> nat
    decreases d.len(),
{
    if d.len() == 0 {
        0
    } else {
        digits_value(d.drop_last()) * 10 + (d.last() as nat - '0' as nat) as nat
    }
}

/// The digits of a field: the text without a leading `+`.
pub open spec fn u8_digits(t: Seq<char>) -> Seq<char> {
    if t.len() > 0 && t[0] == '+' { t.drop_first() } else { t }
}

/// At least one decimal digit, only digits, value at most 255.
pub open spec fn small_decimal(d: Seq<char>) -> bool {
    &&& d.len() > 0
    &&& forall|i: int| 0 <= i < d.len() ==> ascii_digit(#[trigger] d[i])
    &&& digits_value(d) <= 255
}

/// Text that `u8::from_str` accepts: an optional `+`, then at least one
/// decimal digit, with a value of at most 255.
pub open spec fn u8_text(t: Seq<char>) -> bool {
    small_decimal(u8_digits(t))
}

/// A dotted IPv4 address: four fields separated by dots, each accepted by
/// `u8::from_str`.
pub open spec fn ipv4_text(s: Seq<char>) -> bool {
    exists|a: int, b: int, c: int|
        #![trigger s[a], s[b], s[c]]
        0 <= a < b < c < s.len() && s[a] == '.' && s[b] == '.' && s[c] == '.'
            && u8_text(s.subrange(0, a)) && u8_text(s.subrange(a + 1, b)) && u8_text(s.subrange(b + 1, c))
            && u8_text(s.subrange(c + 1, s.len() as int))
}

/// Length of the UTF-8 encoding of `s`, in bytes.
pub open spec fn utf8_len(s: Seq<char>) -> nat {
    vstd::utf8::encode_utf8(s).len()
}

/// The first rule that `record` breaks, as the message of its error, or
/// `None` when it breaks none: name of 1 to 255 bytes, made of ASCII letters,
/// digits, dots and hyphens; content fitting the type; TTL from 60 to 86400.
pub open spec fn record_violation(record: DnsRecord) -> Option<Seq<char>> {
    let name = record.name@;
    let content = record.content@;
    if name.len() == 0 || utf8_len(name) > 255 {
        Some("Invalid record name length"@)
    } else if !hostname_chars(name) {
        Some("Invalid characters in record name"@)
    } else if record.record_type == RecordType::A && !ipv4_text(content) {
        Some("Invalid IPv4 address"@)
    } else if record.record_type == RecordType::AAAA && (!content.contains(':') || utf8_len(content) > 39) {
        Some("Invalid IPv6 address"@)
    } else if record.record_type == RecordType::TXT && utf8_len(content) > 255 {
        Some("TXT record too long"@)
    } else if record.record_type == RecordType::CNAME && !hostname_chars(content) {
        Some("Invalid CNAME value"@)
    } else if record.ttl < 60 || record.ttl > 86400 {
        Some("TTL must be between 60 and 86400 seconds"@)
    } else {
        None
    }
}

fn is_ascii_alnum(c: char) -> (r: bool)
    ensures
        r == ascii_alnum(c),
{
    ('a' <= c && c <= 'z') || ('A' <= c && c <= 'Z') || ('0' <= c && c <= '9')
}

/// Whether every character of `s` is an ASCII letter or digit, a dot or a hyphen.
fn is_hostname(s: &str) -> (r: bool)
    ensures
        r == hostname_chars(s@),
{
    let n = s.unicode_len();
    let mut i: usize = 0;
    while i < n
        invariant
            n == s@.len(),
            0 <= i <= n,
            forall|j: int| 0 <= j < i ==> ascii_alnum(#[trigger] s@[j]) || s@[j] == '.' || s@[j] == '-',
        decreases n - i,
    {
        let c = s.get_char(i);
        if !(is_ascii_alnum(c) || c == '.' || c == '-') {
            return false;
        }
        i = i + 1;
    }
    true
}

proof fn lemma_digits_value_push(d: Seq<char>, c: char)
    ensures
        digits_value(d.push(c)) == digits_value(d) * 10 + (c as nat - '0' as nat) as nat,
{
    assert(d.push(c).drop_last() =~= d);
}

/// Whether `s[from..to]` is text that `u8::from_str` accepts.
fn parses_as_u8(s: &str, from: usize, to: usize) -> (r: bool)
    requires
        from <= to <= s@.len(),
    ensures
        r == u8_text(s@.subrange(from as int, to as int)),
{
    let ghost t = s@.subrange(from as int, to as int);
    let mut start = from;
    if from < to && s.get_char(from) == '+' {
        start = from + 1;
    }
    let ghost d = u8_digits(t);
    assert(d =~= s@.subrange(start as int, to as int));
    if start == to {
        return false;
    }
    let mut value: u32 = 0;
    let mut i = start;
    while i < to
        invariant
            start <= i <= to,
            to <= s@.len(),
            d == s@.subrange(start as int, to as int),
            d == u8_digits(s@.subrange(from as int, to as int)),
            forall|j: int| start <= j < i ==> ascii_digit(#[trigger] s@[j]),
            value == digits_value(s@.subrange(start as int, i as int)),
            value <= 255,
        decreases to - i,
    {
        let c = s.get_char(i);
        if !('0' <= c && c <= '9') {
            proof {
                assert(d[i - start] == c);
                assert(!ascii_digit(d[i - start]));
            }
            return false;
        }
        proof {
            lemma_digits_value_push(s@.subrange(start as int, i as int), c);
            assert(s@.subrange(start as int, i + 1) =~= s@.subrange(start as int, i as int).push(c));
        }
        let digit = (c as u32) - ('0' as u32);
        value = value * 10 + digit;
        i = i + 1;
        if value > 255 {
            proof {
                assert forall|k: int| 0 <= k < d.len() implies ascii_digit(#[trigger] d[k]) || k >= i - start by {
                    if k < i - start {
                        assert(d[k] == s@[start + k]);
                    }
                }
                lemma_digits_prefix_bound(d, (i - start) as nat);
                assert(d.take(i - start) =~= s@.subrange(start as int, i as int));
            }
            return false;
        }
    }
    proof {
        assert(s@.subrange(start as int, i as int) =~= d);
        assert forall|j: int| 0 <= j < d.len() implies ascii_digit(#[trigger] d[j]) by {
            assert(d[j] == s@[start + j]);
        }
    }
    true
}

/// The value of all digits is at least that of a prefix.
proof fn lemma_digits_prefix_bound(d: Seq<char>, n: nat)
    requires
        n <= d.len(),
        forall|i: int| 0 <= i < d.len() ==> ascii_digit(#[trigger] d[i]) || i >= n,
    ensures
        (forall|i: int| 0 <= i < d.len() ==> ascii_digit(#[trigger] d[i])) ==> digits_value(d) >= digits_value(d.take(n as int)),
    decreases d.len(),
{
    if (forall|i: int| 0 <= i < d.len() ==> ascii_digit(#[trigger] d[i])) {
        if d.len() == n {
            assert(d.take(n as int) =~= d);
        } else {
            lemma_digits_prefix_bound(d.drop_last(), n);
            assert(d.drop_last().take(n as int) =~= d.take(n as int));
            assert forall|i: int| 0 <= i < d.drop_last().len() implies ascii_digit(#[trigger] d.drop_last()[i]) by {
                assert(d.drop_last()[i] == d[i]);
            }
        }
    }
}

/// Whether `s` is a dotted IPv4 address; see `ipv4_text`.
fn is_ipv4(s: &str) -> (r: bool)
    ensures
        r == ipv4_text(s@),
{
    let n = s.unicode_len();
    let mut dots: Vec<usize> = Vec::new();
    let mut i: usize = 0;
    while i < n
        invariant
            n == s@.len(),
            0 <= i <= n,
            forall|j: int| 0 <= j < dots@.len() ==> (#[trigger] dots@[j]) < i && s@[dots@[j] as int] == '.',
            forall|j: int, k: int| 0 <= j < k < dots@.len() ==> (#[trigger] dots@[j]) < (#[trigger] dots@[k]),
            forall|p: int| 0 <= p < i && #[trigger] s@[p] == '.' ==> exists|j: int| 0 <= j < dots@.len() && dots@[j] == p,
        decreases n - i,
    {
        let ghost d0 = dots@;
        if s.get_char(i) == '.' {
            dots.push(i);
            proof {
                assert forall|p: int| 0 <= p < i + 1 && #[trigger] s@[p] == '.' implies exists|j: int|
                    0 <= j < dots@.len() && dots@[j] == p by {
                    if p == i {
                        assert(dots@[dots@.len() - 1] == p);
                    } else {
                        let j = choose|j: int| 0 <= j < d0.len() && d0[j] == p;
                        assert(dots@[j] == p);
                    }
                }
            }
        }
        i = i + 1;
    }
    if dots.len() != 3 {
        proof {
            if ipv4_text(s@) {
                let (a, b, c) = choose|a: int, b: int, c: int|
                    #![trigger s@[a], s@[b], s@[c]]
                    0 <= a < b < c < s@.len() && s@[a] == '.' && s@[b] == '.' && s@[c] == '.'
                        && u8_text(s@.subrange(0, a)) && u8_text(s@.subrange(a + 1, b)) && u8_text(s@.subrange(b + 1, c))
                        && u8_text(s@.subrange(c + 1, s@.len() as int));
                lemma_no_dot(s@, 0, a);
                lemma_no_dot(s@, a + 1, b);
                lemma_no_dot(s@, b + 1, c);
                lemma_no_dot(s@, c + 1, s@.len() as int);
                if dots@.len() < 3 {
                    lemma_three_in_list(dots@, a, b, c);
                } else {
                    let ja = choose|j: int| 0 <= j < dots@.len() && dots@[j] == a;
                    let jb = choose|j: int| 0 <= j < dots@.len() && dots@[j] == b;
                    let jc = choose|j: int| 0 <= j < dots@.len() && dots@[j] == c;
                    let x = if ja != 0 && jb != 0 && jc != 0 { 0int } else if ja != 1 && jb != 1 && jc != 1 { 1int } else if ja != 2 && jb != 2 && jc != 2 { 2int } else { 3int };
                    assert(0 <= x < dots@.len());
                    let p = dots@[x] as int;
                    assert(s@[p] == '.');
                    assert(p != a && p != b && p != c);
                }
            }
        }
        return false;
    }
    let a = dots[0];
    let b = dots[1];
    let c = dots[2];
    let ok = parses_as_u8(s, 0, a) && parses_as_u8(s, a + 1, b) && parses_as_u8(s, b + 1, c) && parses_as_u8(s, c + 1, n);
    proof {
        if ok {
            assert(s@[a as int] == '.' && s@[b as int] == '.' && s@[c as int] == '.');
        }
        if ipv4_text(s@) && !ok {
            let (a2, b2, c2) = choose|a2: int, b2: int, c2: int|
                #![trigger s@[a2], s@[b2], s@[c2]]
                0 <= a2 < b2 < c2 < s@.len() && s@[a2] == '.' && s@[b2] == '.' && s@[c2] == '.'
                    && u8_text(s@.subrange(0, a2)) && u8_text(s@.subrange(a2 + 1, b2)) && u8_text(s@.subrange(b2 + 1, c2))
                    && u8_text(s@.subrange(c2 + 1, s@.len() as int));
            lemma_no_dot(s@, 0, a2);
            lemma_no_dot(s@, a2 + 1, b2);
            lemma_no_dot(s@, b2 + 1, c2);
            lemma_no_dot(s@, c2 + 1, s@.len() as int);
            assert(s@[a as int] == '.');
            assert(s@[b as int] == '.');
            assert(s@[c as int] == '.');
            assert(a as int == a2 && b as int == b2 && c as int == c2);
        }
    }
    ok
}

/// A field that `u8::from_str` accepts holds no dot.
proof fn lemma_no_dot(s: Seq<char>, from: int, to: int)
    requires
        0 <= from <= to <= s.len(),
        u8_text(s.subrange(from, to)),
    ensures
        forall|p: int| from <= p < to ==> #[trigger] s[p] != '.',
{
    let t = s.subrange(from, to);
    let d = u8_digits(t);
    assert forall|p: int| from <= p < to implies #[trigger] s[p] != '.' by {
        assert(s[p] == t[p - from]);
        if t.len() > 0 && t[0] == '+' {
            if p - from > 0 {
                assert(t[p - from] == d[p - from - 1]);
                assert(ascii_digit(d[p - from - 1]));
            }
        } else {
            assert(t[p - from] == d[p - from]);
            assert(ascii_digit(d[p - from]));
        }
    }
}

/// Three distinct positions cannot all be in a list of fewer than three.
proof fn lemma_three_in_list(l: Seq<usize>, a: int, b: int, c: int)
    requires
        l.len() < 3,
        a < b < c,
    ensures
        !((exists|j: int| 0 <= j < l.len() && l[j] == a) && (exists|j: int| 0 <= j < l.len() && l[j] == b)
            && (exists|j: int| 0 <= j < l.len() && l[j] == c)),
{
    if (exists|j: int| 0 <= j < l.len() && l[j] == a) && (exists|j: int| 0 <= j < l.len() && l[j] == b)
        && (exists|j: int| 0 <= j < l.len() && l[j] == c) {
        let ja = choose|j: int| 0 <= j < l.len() && l[j] == a;
        let jb = choose|j: int| 0 <= j < l.len() && l[j] == b;
        let jc = choose|j: int| 0 <= j < l.len() && l[j] == c;
        assert(ja != jb && jb != jc && ja != jc);
    }
}

/// Whether `s` contains the character `c`.
fn contains_char(s: &str, c: char) -> (r: bool)
    ensures
        r == s@.contains(c),
{
    let n = s.unicode_len();
    let mut i: usize = 0;
    while i < n
        invariant
            n == s@.len(),
            0 <= i <= n,
            forall|j: int| 0 <= j < i ==> s@[j] != c,
        decreases n - i,
    {
        if s.get_char(i) == c {
            return true;
        }
        i = i + 1;
    }
    false
}

/// Text with a character takes at least one byte.
proof fn lemma_nonempty_encoding(s: Seq<char>)
    requires
        s.len() > 0,
    ensures
        utf8_len(s) > 0,
{
    assert(vstd::utf8::encode_utf8(s) == vstd::utf8::encode_scalar(s[0] as u32) + vstd::utf8::encode_utf8(s.drop_first()));
}

/// Manager of the DNS records of a zone.
pub struct DnsManager {
    /// API credentials
    pub config: CloudflareConfig,
}

impl DnsManager {
    /// A manager using the given credentials.
    pub fn new(config: CloudflareConfig) -> (r: DnsManager)
        ensures
            r.config.token() == config.token(),
            r.config.zone() == config.zone(),
    {
        DnsManager { config }
    }

    /// Checks a record before it is created or updated; see
    /// `record_violation` for the rules and their order.
    pub fn validate_record(&self, record: &DnsRecord) -> (r: Result<(), DnsError>)
        ensures
            record_violation(*record) is None <==> r is Ok,
            record_violation(*record) matches Some(m) ==> (r matches Err(DnsError::ValidationError(e)) && e@ == m),
    {
        proof {
            reveal_strlit("Invalid record name length");
            reveal_strlit("Invalid characters in record name");
            reveal_strlit("Invalid IPv4 address");
            reveal_strlit("Invalid IPv6 address");
            reveal_strlit("TXT record too long");
            reveal_strlit("Invalid CNAME value");
            reveal_strlit("TTL must be between 60 and 86400 seconds");
        }
        let name = record.name.as_str();
        let name_bytes = name.as_bytes().len();
        let name_chars = name.unicode_len();
        proof {
            if name_chars > 0 {
                assert(name_bytes > 0) by {
                    lemma_nonempty_encoding(name@);
                }
            }
        }
        if name_bytes == 0 || name_bytes > 255 {
            proof {
                if name_bytes == 0 {
                    assert(name_chars == 0) by {
                        if name_chars > 0 {
                            lemma_nonempty_encoding(name@);
                        }
                    }
                }
            }
            return Err(DnsError::ValidationError(String::from_str("Invalid record name length")));
        }
        if !is_hostname(name) {
            return Err(DnsError::ValidationError(String::from_str("Invalid characters in record name")));
        }
        let content = record.content.as_str();
        match record.record_type {
            RecordType::A => {
                if !is_ipv4(content) {
                    return Err(DnsError::ValidationError(String::from_str("Invalid IPv4 address")));
                }
            },
            RecordType::AAAA => {
                if !contains_char(content, ':') || content.as_bytes().len() > 39 {
                    return Err(DnsError::ValidationError(String::from_str("Invalid IPv6 address")));
                }
            },
            RecordType::TXT => {
                if content.as_bytes().len() > 255 {
                    return Err(DnsError::ValidationError(String::from_str("TXT record too long")));
                }
            },
            RecordType::CNAME => {
                if !is_hostname(content) {
                    return Err(DnsError::ValidationError(String::from_str("Invalid CNAME value")));
                }
            },
        }
        if record.ttl < 60 || record.ttl > 86400 {
            return Err(DnsError::ValidationError(String::from_str("TTL must be between 60 and 86400 seconds")));
        }
        Ok(())
    }
}

/// Base URL of the Cloudflare API.
pub open spec fn api_base() -> Seq<char> {
    "https://api.cloudflare.com/client/v4"@
}

/// URL of the DNS records of the zone `zone`.
pub open spec fn records_url_text(zone: Seq<char>) -> Seq<char> {
    api_base() + "/zones/"@ + zone + "/dns_records"@
}

/// URL of the DNS records of the configured zone.
pub fn records_url(config: &CloudflareConfig) -> (r: String)
    ensures
        r@ == records_url_text(config.zone()@),
{
    let mut url = String::from_str("https://api.cloudflare.com/client/v4");
    url.append("/zones/");
    url.append(config.zone_id().as_str());
    url.append("/dns_records");
    url
}

/// URL of the record `record_id` of the configured zone.
pub fn record_url(config: &CloudflareConfig, record_id: &str) -> (r: String)
    ensures
        r@ == records_url_text(config.zone()@) + "/"@ + record_id@,
{
    let mut url = records_url(config);
    url.append("/");
    url.append(record_id);
    url
}

/// Value of the `Authorization` header: `Bearer ` and the API token.
pub fn bearer(config: &CloudflareConfig) -> (r: String)
    ensures
        r@ == "Bearer "@ + config.token()@,
{
    let mut value = String::from_str("Bearer ");
    value.append(config.api_token().as_str());
    value
}

} // verus!
