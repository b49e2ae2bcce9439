use vstd::prelude::*;
use vstd::string::StringSliceAdditionalSpecFns;
use vstd::utf8::{
    encode_utf8,
    encode_utf8_valid_utf8,
    is_char_boundary,
    is_char_boundary_iff_not_is_continuation_byte,
};

verus! {

/// The byte that separates host and port in a socket string.
pub const COLON: u8 = 0x3a;

/// Why a socket string could not be read as `host:port`.
#[derive(Clone, Copy, Debug, PartialEq, Eq, Structural)]
pub enum ConfigurationError {
    /// The string does not split into exactly two `:`-separated fields.
    MalformedSocket,
    /// The second field is not an unsigned 16-bit number.
    InvalidPort,
    /// Two panels name the same host and port.
    SharedEndpoint,
}

/// A panel's destination: a host name or address and a UDP port.
#[derive(Debug)]
pub struct Endpoint {
    pub host: String,
    pub port: u16,
}

/// `b` has a colon at `i` and nowhere else.
pub open spec fn single_colon_at(b: Seq<u8>, i: int) -> bool {
    &&& 0 <= i < b.len()
    &&& b[i] == COLON
    &&& forall|j: int| 0 <= j < b.len() && j != i ==> b[j] != COLON
}

/// `b` splits into exactly two fields around a single colon.
pub open spec fn has_single_colon(b: Seq<u8>) -> bool {
    exists|i: int| single_colon_at(b, i)
}

pub open spec fn is_digit(c: u8) -> bool {
    0x30 <= c <= 0x39
}

pub open spec fn all_digits(d: Seq<u8>) -> bool {
    forall|i: int| 0 <= i < d.len() ==> is_digit(d[i])
}

/// The number written by the decimal digits `d`, most significant first.
pub open spec fn decimal_value(d: Seq<u8>) -> nat
    decreases d.len(),
{
    if d.len() == 0 {
        0
    } else {
        decimal_value(d.drop_last()) * 10 + (d.last() - 0x30) as nat
    }
}

/// The digits of a port field: an optional leading `+` is dropped.
pub open spec fn port_digits(s: Seq<u8>) -> Seq<u8> {
    if s.len() > 0 && s[0] == 0x2b {
        s.drop_first()
    } else {
        s
    }
}

/// The port that a field denotes, as an unsigned 16-bit number is read from
/// text: an optional `+`, then one or more decimal digits, at most 65535.
pub open spec fn port_of(s: Seq<u8>) -> Option<u16> {
    let d = port_digits(s);
    if d.len() > 0 && all_digits(d) && decimal_value(d) <= 65535 {
        Some(decimal_value(d) as u16)
    } else {
        None
    }
}

proof fn lemma_decimal_value_grows(d: Seq<u8>, k: int)
    requires
        0 <= k <= d.len(),
        all_digits(d),
    ensures
        decimal_value(d.subrange(0, k)) <= decimal_value(d),
    decreases d.len() - k,
{
    if k < d.len() {
        lemma_decimal_value_grows(d, k + 1);
        let p = d.subrange(0, k + 1);
        assert(p.drop_last() =~= d.subrange(0, k));
        assert(is_digit(d[k]));
    } else {
        assert(d.subrange(0, k) =~= d);
    }
}

/// Reads the port field that starts at `start` in `b`.
fn parse_port(b: &[u8], start: usize) -> (r: Option<u16>)
    requires
        start <= b@.len(),
    ensures
        r == port_of(b@.subrange(start as int, b@.len() as int)),
{
    let ghost field = b@.subrange(start as int, b@.len() as int);
    let mut i: usize = start;
    if i < b.len() && b[i] == 0x2b {
        i = i + 1;
    }
    let ghost d = port_digits(field);
    assert(d =~= b@.subrange(i as int, b@.len() as int));
    if i == b.len() {
        return None;
    }
    let first: usize = i;
    let mut value: u32 = 0;
    while i < b.len()
        invariant
            first <= i <= b@.len(),
            first < b@.len(),
            field == b@.subrange(start as int, b@.len() as int),
            d == port_digits(field),
            d =~= b@.subrange(first as int, b@.len() as int),
            all_digits(d.subrange(0, i - first)),
            value == decimal_value(d.subrange(0, i - first)),
            value <= 65535,
        decreases b@.len() - i,
    {
        let c = b[i];
        if c < 0x30 || c > 0x39 {
            assert(d[i - first] == b@[i as int]);
            assert(!all_digits(d));
            return None;
        }
        assert(d[i - first] == b@[i as int]);
        let ghost prev = d.subrange(0, i - first);
        let ghost next = d.subrange(0, i - first + 1);
        assert(next.drop_last() =~= prev);
        value = value * 10 + (c - 0x30) as u32;
        i = i + 1;
        if value > 65535 {
            proof {
                if all_digits(d) {
                    lemma_decimal_value_grows(d, i - first);
                }
                assert(port_of(field) is None);
            }
            return None;
        }
    }
    assert(d.subrange(0, i - first) =~= d);
    Some(value as u16)
}

/// Where the single colon of `b` stands.
pub open spec fn colon_index(b: Seq<u8>) -> int {
    choose|i: int| single_colon_at(b, i)
}

/// What a socket string, as bytes, denotes: its host bytes and its port,
/// or why it denotes none.
pub open spec fn socket_of(b: Seq<u8>) -> Result<(Seq<u8>, u16), ConfigurationError> {
    if !has_single_colon(b) {
        Err(ConfigurationError::MalformedSocket)
    } else {
        let i = colon_index(b);
        match port_of(b.subrange(i + 1, b.len() as int)) {
            Some(port) => Ok((b.subrange(0, i), port)),
            None => Err(ConfigurationError::InvalidPort),
        }
    }
}

/// Reads a socket string of the form `host:port` into an endpoint. Nothing
/// is opened here: binding and connecting are left to the caller.
pub fn parse_socket(s: &str) -> (r: Result<Endpoint, ConfigurationError>)
    ensures
        match r {
            Ok(e) => socket_of(s.spec_bytes()) == Ok::<_, ConfigurationError>(
                (encode_utf8(e.host@), e.port),
            ),
            Err(e) => socket_of(s.spec_bytes()) == Err::<(Seq<u8>, u16), _>(e),
        },
{
    let b = s.as_bytes();
    let ghost sb = s.spec_bytes();
    let mut colons: usize = 0;
    let mut at: usize = 0;
    let mut i: usize = 0;
    while i < b.len()
        invariant
            b@ == sb,
            i <= b@.len(),
            colons <= i,
            colons == 0 ==> forall|j: int| 0 <= j < i ==> b@[j] != COLON,
            colons == 1 ==> at < i && b@[at as int] == COLON && forall|j: int|
                0 <= j < i && j != at ==> b@[j] != COLON,
            colons >= 2 ==> at < i && b@[at as int] == COLON && exists|j: int|
                0 <= j < i && j != at && b@[j] == COLON,
        decreases b@.len() - i,
    {
        if b[i] == COLON {
            if colons == 0 {
                at = i;
            }
            colons = colons + 1;
        }
        i = i + 1;
    }
    if colons != 1 {
        proof {
            if colons >= 2 {
                let j = choose|j: int| 0 <= j < i && j != at && b@[j] == COLON;
                assert forall|k: int| !single_colon_at(sb, k) by {
                    if single_colon_at(sb, k) {
                        assert(k == at || k == j);
                    }
                }
            }
        }
        return Err(ConfigurationError::MalformedSocket);
    }
    assert(single_colon_at(sb, at as int));
    assert forall|k: int| single_colon_at(sb, k) implies k == at by {}
    let port = match parse_port(b, at + 1) {
        Some(p) => p,
        None => {
            return Err(ConfigurationError::InvalidPort);
        },
    };
    proof {
        encode_utf8_valid_utf8(s@);
        is_char_boundary_iff_not_is_continuation_byte(sb, at as int);
    }
    let (head, _rest) = s.split_at(at);
    let host = head.to_owned();
    Ok(Endpoint { host, port })
}

} // verus!
