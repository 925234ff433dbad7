//! The pairing ("sharing") key: how the server hands its address and the
//! pre-shared key to clients, out of band.
//!
//! The key is the standard base64 encoding of the text
//! `host:port||KEY`, where `KEY` is the standard base64 encoding of the
//! sixteen key bytes.

use vstd::prelude::*;
use vstd::string::StringSliceAdditionalSpecFns;
use vstd::utf8::{
    decode_utf8, decode_utf8_encode_utf8, encode_utf8, encode_utf8_decode_utf8, encode_utf8_valid_utf8,
    length_of_first_scalar, pop_first_scalar, valid_utf8, valid_utf8_concat,
};
use base64::Engine;
use crate::codec::{
    decimal, format_decimal, is_digit, law_decimal_roundtrip, lemma_valid_utf8_around_ascii,
    parse_unsigned, parse_unsigned_spec, string_from_utf8,
};
use crate::utils::{slice_from, slice_range};

verus! {

/// The error of the `base64` crate's decoding.
#[verifier::external_type_specification]
#[verifier::external_body]
pub struct ExDecodeError(base64::DecodeError);

/// The symbol of the standard base64 alphabet for the six-bit value `v`:
/// `A`-`Z`, `a`-`z`, `0`-`9`, `+`, `/`.
pub open spec fn base64_symbol(v: int) -> u8 {
    if v < 26 {
        (0x41 + v) as u8
    } else if v < 52 {
        (0x61 + (v - 26)) as u8
    } else if v < 62 {
        (0x30 + (v - 52)) as u8
    } else if v == 62 {
        0x2b
    } else {
        0x2f
    }
}

/// The standard base64 encoding (with `=` padding) of `data`: each group of
/// three bytes, read as 24 bits, becomes four symbols of six bits each; a last
/// group of one or two bytes is filled with zero bits and padded to four
/// symbols.
#[verifier::opaque]
pub open spec fn base64_encode(data: Seq<u8>) -> Seq<u8>
    decreases data.len(),
{
    if data.len() == 0 {
        Seq::empty()
    } else if data.len() == 1 {
        let a = data[0] as int;
        seq![base64_symbol(a / 4), base64_symbol((a % 4) * 16), 0x3du8, 0x3du8]
    } else if data.len() == 2 {
        let a = data[0] as int;
        let b = data[1] as int;
        seq![base64_symbol(a / 4), base64_symbol((a % 4) * 16 + b / 16), base64_symbol((b % 16) * 4), 0x3du8]
    } else {
        let a = data[0] as int;
        let b = data[1] as int;
        let c = data[2] as int;
        seq![
            base64_symbol(a / 4),
            base64_symbol((a % 4) * 16 + b / 16),
            base64_symbol((b % 16) * 4 + c / 64),
            base64_symbol(c % 64),
        ] + base64_encode(data.skip(3))
    }
}

/// The bytes that the standard base64 text `text` decodes to, or `None` when
/// it is not canonical standard base64.
pub uninterp spec fn base64_decode(text: Seq<u8>) -> Option<Seq<u8>>;

/// The symbols of standard base64: letters, digits, `+`, `/` and the `=` of padding.
pub open spec fn is_base64_symbol(b: u8) -> bool {
    (0x41 <= b <= 0x5a) || (0x61 <= b <= 0x7a) || (0x30 <= b <= 0x39) || b == 0x2b || b == 0x2f || b == 0x3d
}

/// Every symbol `base64_symbol` gives, and the `=` of padding, is a base64 symbol.
proof fn lemma_base64_symbol(v: int)
    requires
        0 <= v < 64,
    ensures
        is_base64_symbol(base64_symbol(v)),
        is_base64_symbol(0x3du8),
{
}

/// The standard base64 encoding has four symbols for every three bytes
/// begun, each of them a base64 symbol.
pub proof fn lemma_base64_encode_shape(data: Seq<u8>)
    ensures
        base64_encode(data).len() == 4 * ((data.len() + 2) / 3),
        forall|i: int| 0 <= i < base64_encode(data).len() ==> is_base64_symbol(#[trigger] base64_encode(data)[i]),
    decreases data.len(),
{
    reveal(base64_encode);
    let e = base64_encode(data);
    if data.len() == 0 {
    } else if data.len() <= 2 {
        let a = data[0] as int;
        lemma_base64_symbol(a / 4);
        if data.len() == 1 {
            lemma_base64_symbol((a % 4) * 16);
        } else {
            let b = data[1] as int;
            lemma_base64_symbol((a % 4) * 16 + b / 16);
            lemma_base64_symbol((b % 16) * 4);
        }
    } else {
        let a = data[0] as int;
        let b = data[1] as int;
        let c = data[2] as int;
        lemma_base64_symbol(a / 4);
        lemma_base64_symbol((a % 4) * 16 + b / 16);
        lemma_base64_symbol((b % 16) * 4 + c / 64);
        lemma_base64_symbol(c % 64);
        lemma_base64_encode_shape(data.skip(3));
        let head = seq![
            base64_symbol(a / 4),
            base64_symbol((a % 4) * 16 + b / 16),
            base64_symbol((b % 16) * 4 + c / 64),
            base64_symbol(c % 64),
        ];
        let tail = base64_encode(data.skip(3));
        assert(e == head + tail);
        assert forall|i: int| 0 <= i < e.len() implies is_base64_symbol(#[trigger] e[i]) by {
            if i >= 4 {
                assert(e[i] == tail[i - 4]);
            }
        }
    }
}

/// Calls `Engine::encode` of `base64::engine::general_purpose::STANDARD`.
///
/// Trusted: the text is the standard padded base64 encoding of `data`, and
/// decodes back to it (the crate documents the round trip). The call panics
/// when the encoded length overflows `usize`, which `requires` rules out.
#[verifier::external_body]
fn b64_encode(data: &[u8]) -> (text: Vec<u8>)
    requires
        data@.len() <= 3 * (usize::MAX / 4),
    ensures
        text@ == base64_encode(data@),
        base64_decode(text@) == Some(data@),
{
    base64::engine::general_purpose::STANDARD.encode(data).into_bytes()
}

/// Calls `Engine::decode` of `base64::engine::general_purpose::STANDARD`.
///
/// Trusted: the result is what `base64_decode` names.
#[verifier::external_body]
fn b64_decode(text: &[u8]) -> (r: Result<Vec<u8>, base64::DecodeError>)
    ensures
        r is Ok <==> base64_decode(text@) is Some,
        r matches Ok(data) ==> base64_decode(text@) == Some(data@),
{
    base64::engine::general_purpose::STANDARD.decode(text)
}

/// What a pairing key tells a client.
pub struct SharingKey {
    /// The server's host.
    pub host: String,
    /// The server's port.
    pub port: u16,
    /// The pre-shared key.
    pub key: [u8; 16],
}

/// Why a pairing key could not be read.
#[derive(Clone, Copy, Debug, PartialEq, Eq, Structural)]
pub enum SharingKeyError {
    /// The key is not base64.
    NotBase64,
    /// What the key decodes to is not UTF-8 text.
    NotUtf8,
    /// The text has no `||` between address and key.
    MissingKeySeparator,
    /// The address has no `:` between host and port.
    MissingPortSeparator,
    /// The pre-shared key is not base64.
    KeyNotBase64,
    /// The pre-shared key is not sixteen bytes long.
    BadKeyLength,
    /// The port is not a number from 0 to 65535.
    BadPort,
}

/// Whether `s` holds `||` at `i`.
pub open spec fn pipes_at(s: Seq<u8>, i: int) -> bool {
    s[i] == 0x7c && s[i + 1] == 0x7c
}

/// The first position, from `from` on, at which `s` holds `||`.
pub open spec fn find_pipes_from(s: Seq<u8>, from: int) -> Option<int>
    decreases s.len() - from,
{
    if from < 0 || from + 1 >= s.len() {
        None
    } else if pipes_at(s, from) {
        Some(from)
    } else {
        find_pipes_from(s, from + 1)
    }
}

/// The first position, from `from` on, at which `s` holds the byte `b`.
pub open spec fn find_byte_from(s: Seq<u8>, b: u8, from: int) -> Option<int>
    decreases s.len() - from,
{
    if from < 0 || from >= s.len() {
        None
    } else if s[from] == b {
        Some(from)
    } else {
        find_byte_from(s, b, from + 1)
    }
}

/// The text a pairing key encodes: `host:port||KEY`.
pub open spec fn sharing_text(host: Seq<u8>, port: u16, key: Seq<u8>) -> Seq<u8> {
    host + seq![0x3au8] + decimal(port as nat) + seq![0x7cu8, 0x7cu8] + base64_encode(key)
}

/// What a client reads from a pairing key with bytes `key_text`: the host's
/// characters, the port and the pre-shared key bytes.
pub open spec fn parse_sharing_spec(key_text: Seq<u8>) -> Result<(Seq<char>, u16, Seq<u8>), SharingKeyError> {
    match base64_decode(key_text) {
        None => Err(SharingKeyError::NotBase64),
        Some(text) => if !valid_utf8(text) {
            Err(SharingKeyError::NotUtf8)
        } else {
            match find_pipes_from(text, 0) {
                None => Err(SharingKeyError::MissingKeySeparator),
                Some(p) => {
                    let address = text.take(p);
                    match find_byte_from(address, 0x3a, 0) {
                        None => Err(SharingKeyError::MissingPortSeparator),
                        Some(c) => match base64_decode(text.skip(p + 2)) {
                            None => Err(SharingKeyError::KeyNotBase64),
                            Some(key) => if key.len() != 16 {
                                Err(SharingKeyError::BadKeyLength)
                            } else {
                                match parse_unsigned_spec(address.skip(c + 1), u16::MAX as nat) {
                                    None => Err(SharingKeyError::BadPort),
                                    Some(port) => Ok((decode_utf8(address.take(c)), port as u16, key)),
                                }
                            },
                        },
                    }
                },
            }
        },
    }
}

/// The view of a pairing key result.
pub open spec fn sharing_result_view(r: Result<SharingKey, SharingKeyError>) -> Result<(Seq<char>, u16, Seq<u8>), SharingKeyError> {
    match r {
        Ok(k) => Ok((k.host@, k.port, k.key@)),
        Err(e) => Err(e),
    }
}

/// Whether a host can be written into a pairing key and read back: it holds
/// no `:` and no `||`.
pub open spec fn host_fits(host: Seq<u8>) -> bool {
    &&& forall|i: int| 0 <= i < host.len() ==> host[i] != 0x3a
    &&& forall|i: int| 0 <= i < host.len() - 1 ==> !pipes_at(host, i)
}

fn find_pipes(s: &[u8]) -> (r: Option<usize>)
    ensures
        match r {
            Some(p) => find_pipes_from(s@, 0) == Some(p as int),
            None => find_pipes_from(s@, 0) is None,
        },
{
    let mut i: usize = 0;
    if s.len() < 2 {
        return None;
    }
    while i < s.len() - 1
        invariant
            s@.len() >= 2,
            find_pipes_from(s@, 0) == find_pipes_from(s@, i as int),
        decreases s@.len() - i,
    {
        if s[i] == 0x7c && s[i + 1] == 0x7c {
            return Some(i);
        }
        i = i + 1;
    }
    None
}

fn find_byte(s: &[u8], b: u8) -> (r: Option<usize>)
    ensures
        match r {
            Some(p) => find_byte_from(s@, b, 0) == Some(p as int),
            None => find_byte_from(s@, b, 0) is None,
        },
{
    let mut i: usize = 0;
    while i < s.len()
        invariant
            i <= s@.len(),
            find_byte_from(s@, b, 0) == find_byte_from(s@, b, i as int),
        decreases s@.len() - i,
    {
        if s[i] == b {
            return Some(i);
        }
        i = i + 1;
    }
    None
}

proof fn lemma_find_byte_in_range(s: Seq<u8>, b: u8, from: int)
    ensures
        find_byte_from(s, b, from) matches Some(i) ==> from <= i < s.len() && s[i] == b,
    decreases s.len() - from,
{
    if 0 <= from < s.len() && s[from] != b {
        lemma_find_byte_in_range(s, b, from + 1);
    }
}

proof fn lemma_find_pipes_in_range(s: Seq<u8>, from: int)
    ensures
        find_pipes_from(s, from) matches Some(i) ==> from <= i && i + 1 < s.len() && pipes_at(s, i),
    decreases s.len() - from,
{
    if 0 <= from && from + 1 < s.len() && !pipes_at(s, from) {
        lemma_find_pipes_in_range(s, from + 1);
    }
}

proof fn lemma_find_byte_first(s: Seq<u8>, b: u8, from: int, at: int)
    requires
        0 <= from <= at < s.len(),
        s[at] == b,
        forall|i: int| from <= i < at ==> s[i] != b,
    ensures
        find_byte_from(s, b, from) == Some(at),
    decreases at - from,
{
    if from < at {
        lemma_find_byte_first(s, b, from + 1, at);
    }
}

proof fn lemma_find_pipes_first(s: Seq<u8>, from: int, at: int)
    requires
        0 <= from <= at,
        at + 1 < s.len(),
        pipes_at(s, at),
        forall|i: int| from <= i < at ==> !pipes_at(s, i),
    ensures
        find_pipes_from(s, from) == Some(at),
    decreases at - from,
{
    if from < at {
        lemma_find_pipes_first(s, from + 1, at);
    }
}

/// Bytes below 0x80 are valid UTF-8.
proof fn lemma_ascii_valid_utf8(s: Seq<u8>)
    requires
        forall|i: int| 0 <= i < s.len() ==> s[i] < 0x80,
    ensures
        valid_utf8(s),
    decreases s.len(),
{
    if s.len() > 0 {
        assert(length_of_first_scalar(s) == 1);
        assert(pop_first_scalar(s) =~= s.skip(1));
        lemma_ascii_valid_utf8(s.skip(1));
    }
}

/// Reads a pairing key.
pub fn parse_sharing_key(key_text: &str) -> (r: Result<SharingKey, SharingKeyError>)
    ensures
        sharing_result_view(r) == parse_sharing_spec(key_text.spec_bytes()),
{
    let bytes = key_text.as_bytes();
    let text = match b64_decode(bytes) {
        Err(_) => {
            return Err(SharingKeyError::NotBase64);
        },
        Ok(text) => text,
    };
    match string_from_utf8(slice_from(text.as_slice(), 0)) {
        Err(_) => {
            assert(text@.skip(0) =~= text@);
            return Err(SharingKeyError::NotUtf8);
        },
        Ok(_) => {},
    }
    assert(text@.skip(0) =~= text@);
    let p = match find_pipes(text.as_slice()) {
        None => {
            return Err(SharingKeyError::MissingKeySeparator);
        },
        Some(p) => p,
    };
    proof {
        lemma_find_pipes_in_range(text@, 0);
    }
    let address = slice_range(text.as_slice(), 0, p);
    assert(address@ =~= text@.take(p as int));
    let c = match find_byte(address.as_slice(), 0x3a) {
        None => {
            return Err(SharingKeyError::MissingPortSeparator);
        },
        Some(c) => c,
    };
    proof {
        lemma_find_byte_in_range(address@, 0x3a, 0);
    }
    assert(p + 1 < text@.len());
    assert(text@.len() == text.len());
    let key_part = slice_from(text.as_slice(), p + 2);
    let key = match b64_decode(key_part.as_slice()) {
        Err(_) => {
            return Err(SharingKeyError::KeyNotBase64);
        },
        Ok(key) => key,
    };
    if key.len() != 16 {
        return Err(SharingKeyError::BadKeyLength);
    }
    let port_part = slice_from(address.as_slice(), c + 1);
    let port = match parse_unsigned(port_part.as_slice(), 65535) {
        None => {
            return Err(SharingKeyError::BadPort);
        },
        Some(port) => port as u16,
    };
    let host_part = slice_range(address.as_slice(), 0, c);
    proof {
        lemma_valid_utf8_around_ascii(text@, c as int);
        assert(host_part@ =~= text@.take(c as int));
        assert(address@.take(c as int) =~= host_part@);
    }
    let host = match string_from_utf8(host_part) {
        Ok(host) => host,
        Err(_) => {
            proof {
                assert(false);
            }
            return Err(SharingKeyError::NotUtf8);
        },
    };
    let key_array: [u8; 16] = [
        key[0], key[1], key[2], key[3], key[4], key[5], key[6], key[7],
        key[8], key[9], key[10], key[11], key[12], key[13], key[14], key[15],
    ];
    assert(key_array@ =~= key@);
    Ok(SharingKey { host, port, key: key_array })
}

proof fn lemma_decimal_short(n: nat)
    requires
        n < 100000,
    ensures
        decimal(n).len() <= 5,
{
    reveal_with_fuel(decimal, 6);
    if n >= 10 {
        if n / 10 >= 10 {
            if n / 10 / 10 >= 10 {
                if n / 10 / 10 / 10 >= 10 {
                    assert(n / 10 / 10 / 10 / 10 < 10);
                }
            }
        }
    }
}

/// Law (pairing key read): a pairing key is read back to exactly what its
/// text names. When the key decodes to `host:port||KEY`, the host holds no
/// `:` and no `||`, and `KEY` is standard base64 text that decodes to sixteen
/// bytes `k`, the client reads the host, the port and the bytes of `k`
/// themselves, in order.
pub proof fn law_sharing_key_read(key_text: Seq<u8>, host: Seq<char>, port: u16, key_b64: Seq<u8>, k: Seq<u8>)
    requires
        host_fits(encode_utf8(host)),
        base64_decode(key_text) == Some(encode_utf8(host) + seq![0x3au8] + decimal(port as nat)
            + seq![0x7cu8, 0x7cu8] + key_b64),
        forall|i: int| 0 <= i < key_b64.len() ==> is_base64_symbol(#[trigger] key_b64[i]),
        base64_decode(key_b64) == Some(k),
        k.len() == 16,
    ensures
        parse_sharing_spec(key_text) == Ok::<(Seq<char>, u16, Seq<u8>), SharingKeyError>((host, port, k)),
{
    let h = encode_utf8(host);
    let d = decimal(port as nat);
    let e = key_b64;
    let t = h + seq![0x3au8] + d + seq![0x7cu8, 0x7cu8] + e;
    let hl = h.len() as int;
    let p = hl + 1 + d.len();
    crate::codec::law_decimal_roundtrip(port as nat, u16::MAX as nat);
    crate::codec::lemma_decimal_digits(port as nat);
    // the text is UTF-8: the host's encoding, then ASCII
    encode_utf8_valid_utf8(host);
    let rest = t.skip(hl);
    assert(rest =~= seq![0x3au8] + d + seq![0x7cu8, 0x7cu8] + e);
    assert forall|i: int| 0 <= i < rest.len() implies rest[i] < 0x80 by {
        if 1 <= i < 1 + d.len() {
            assert(is_digit(d[i - 1]));
        } else if i >= 3 + d.len() {
            assert(is_base64_symbol(e[i - 3 - d.len()]));
        }
    }
    lemma_ascii_valid_utf8(rest);
    valid_utf8_concat(h, rest);
    assert(h + rest =~= t);
    // the first `||` follows the port
    assert forall|i: int| 0 <= i < p implies !pipes_at(t, i) by {
        if i < hl - 1 {
            assert(t[i] == h[i] && t[i + 1] == h[i + 1]);
            assert(!pipes_at(h, i));
        } else if i == hl - 1 {
            assert(t[i + 1] == 0x3a);
        } else if i == hl {
            assert(t[i] == 0x3a);
        } else {
            assert(t[i] == d[i - hl - 1]);
            assert(is_digit(d[i - hl - 1]));
        }
    }
    assert(t[p] == 0x7c && t[p + 1] == 0x7c);
    lemma_find_pipes_first(t, 0, p);
    // the first `:` follows the host
    let address = t.take(p);
    assert forall|i: int| 0 <= i < hl implies address[i] != 0x3a by {
        assert(address[i] == h[i]);
    }
    assert(address[hl] == 0x3a);
    lemma_find_byte_first(address, 0x3a, 0, hl);
    assert(t.skip(p + 2) =~= e);
    assert(address.skip(hl + 1) =~= d);
    assert(address.take(hl) =~= h);
    encode_utf8_decode_utf8(host);
}

/// Writes the pairing key for a server at `host`:`port` with pre-shared key
/// `key`. Read back, it gives the host, port and key again, whenever the host
/// holds no `:` and no `||`.
pub fn make_sharing_key(host: &str, port: u16, key: &[u8; 16]) -> (sharing: String)
    requires
        host.spec_bytes().len() + 32 <= 3 * (usize::MAX / 4),
    ensures
        encode_utf8(sharing@) == base64_encode(sharing_text(host.spec_bytes(), port, key@)),
        encode_utf8(sharing@) == base64_encode(host.spec_bytes() + seq![0x3au8] + decimal(port as nat)
            + seq![0x7cu8, 0x7cu8] + base64_encode(key@)),
        host_fits(host.spec_bytes()) ==> parse_sharing_spec(encode_utf8(sharing@)) == Ok::<(Seq<char>, u16, Seq<u8>), SharingKeyError>(
            (host@, port, key@),
        ),
{
    let host_bytes = host.as_bytes();
    let key_text = b64_encode(key.as_slice());
    proof {
        lemma_base64_encode_shape(key@);
    }
    let port_text = format_decimal(port as u128);
    proof {
        lemma_decimal_short(port as nat);
    }
    let mut text = slice_from(host_bytes, 0);
    text.push(0x3a);
    text.extend_from_slice(port_text.as_slice());
    text.push(0x7c);
    text.push(0x7c);
    text.extend_from_slice(key_text.as_slice());
    let ghost h = host.spec_bytes();
    let ghost d = decimal(port as nat);
    let ghost e = key_text@;
    proof {
        assert(h.skip(0) =~= h);
        assert(text@ =~= sharing_text(h, port, key@));
    }
    let encoded = b64_encode(text.as_slice());
    proof {
        lemma_base64_encode_shape(text@);
        lemma_ascii_valid_utf8(encoded@);
    }
    let sharing = match string_from_utf8(encoded) {
        Ok(sharing) => sharing,
        Err(_) => {
            proof {
                assert(false);
            }
            String::new()
        },
    };
    proof {
        decode_utf8_encode_utf8(encoded@);
        if host_fits(h) {
            law_sharing_key_read(encoded@, host@, port, e, key@);
        }
    }
    sharing
}

} // verus!
