//! The admin plane's request-forgery token: random bytes drawn once, shown
//! as lowercase hexadecimal, compared in time that does not depend on where
//! a guess first differs.

use vstd::prelude::*;

use crate::config::{parse_listen_ip, socket_address_ip, Config};
use crate::text::push_char;

verus! {

/// getrandom's error type.
#[verifier::external_type_specification]
#[verifier::external_body]
pub struct ExGetrandomError(getrandom::Error);

/// A loopback address, as `IpAddr::is_loopback` documents it: an IPv4
/// address in 127.0.0.0/8, or the IPv6 address `::1`.
pub open spec fn loopback_octets(o: Seq<u8>) -> bool {
    ||| (o.len() == 4 && o[0] == 127)
    ||| (o.len() == 16 && (forall|i: int| 0 <= i < 15 ==> o[i] == 0) && o[15] == 1)
}

/// The listen address parses as a socket address on a loopback interface.
pub open spec fn listens_on_loopback(listen: Seq<char>) -> bool {
    match socket_address_ip(listen) {
        Some(o) => loopback_octets(o),
        None => false,
    }
}

/// Admin writes are open exactly when the admin plane is writable and
/// listens on loopback: no authentication exists.
pub open spec fn writes_open(admin_read_only: bool, listen: Seq<char>) -> bool {
    !admin_read_only && listens_on_loopback(listen)
}

/// Whether the octets of an IP address are a loopback address.
pub fn is_loopback_octets(o: &Vec<u8>) -> (r: bool)
    ensures
        r == loopback_octets(o@),
{
    if o.len() == 4 {
        return o[0] == 127;
    }
    if o.len() != 16 {
        return false;
    }
    let mut i: usize = 0;
    while i < 15
        invariant
            o@.len() == 16,
            i <= 15,
            forall|j: int| 0 <= j < i ==> o@[j] == 0,
        decreases 15 - i,
    {
        if o[i] != 0 {
            return false;
        }
        i = i + 1;
    }
    o[15] == 1
}

/// Admin writes stay closed unless the admin plane is writable and its
/// listen address parses as a socket address on a loopback interface; no
/// authentication exists, so a non-local listener never accepts writes.
pub fn writes_enabled(config: &Config) -> (r: bool)
    ensures
        r == writes_open(config@.admin.read_only, config@.admin.listen),
{
    if config.admin.read_only {
        return false;
    }
    match parse_listen_ip(config.admin.listen.as_str()) {
        Some(octets) => is_loopback_octets(&octets),
        None => false,
    }
}

/// The token could not be drawn: the system gave no randomness.
#[derive(Debug, Clone, Copy, PartialEq, Eq, Structural)]
pub enum TokenError {
    Entropy,
}

/// The number of random bytes behind a token.
pub const TOKEN_BYTES: usize = 32;

/// The lowercase hexadecimal digit of `n`, for `n < 16`.
pub open spec fn hex_digit(n: int) -> char {
    if n == 0 {
        '0'
    } else if n == 1 {
        '1'
    } else if n == 2 {
        '2'
    } else if n == 3 {
        '3'
    } else if n == 4 {
        '4'
    } else if n == 5 {
        '5'
    } else if n == 6 {
        '6'
    } else if n == 7 {
        '7'
    } else if n == 8 {
        '8'
    } else if n == 9 {
        '9'
    } else if n == 10 {
        'a'
    } else if n == 11 {
        'b'
    } else if n == 12 {
        'c'
    } else if n == 13 {
        'd'
    } else if n == 14 {
        'e'
    } else {
        'f'
    }
}

/// Each byte as two lowercase hexadecimal digits, high half first.
pub open spec fn hex_text(bytes: Seq<u8>) -> Seq<char>
    decreases bytes.len(),
{
    if bytes.len() == 0 {
        Seq::empty()
    } else {
        let b = bytes.last();
        hex_text(bytes.drop_last()).push(hex_digit(b as int / 16)).push(hex_digit(b as int % 16))
    }
}

/// A lowercase hexadecimal digit.
pub open spec fn is_hex_char(c: char) -> bool {
    ('0' <= c && c <= '9') || ('a' <= c && c <= 'f')
}

pub proof fn lemma_hex_text(bytes: Seq<u8>)
    ensures
        hex_text(bytes).len() == 2 * bytes.len(),
        forall|i: int| 0 <= i < hex_text(bytes).len() ==> is_hex_char(#[trigger] hex_text(bytes)[i]),
    decreases bytes.len(),
{
    if bytes.len() > 0 {
        lemma_hex_text(bytes.drop_last());
    }
}

fn hex_digit_char(n: u8) -> (c: char)
    requires
        n < 16,
    ensures
        c == hex_digit(n as int),
{
    if n == 0 {
        '0'
    } else if n == 1 {
        '1'
    } else if n == 2 {
        '2'
    } else if n == 3 {
        '3'
    } else if n == 4 {
        '4'
    } else if n == 5 {
        '5'
    } else if n == 6 {
        '6'
    } else if n == 7 {
        '7'
    } else if n == 8 {
        '8'
    } else if n == 9 {
        '9'
    } else if n == 10 {
        'a'
    } else if n == 11 {
        'b'
    } else if n == 12 {
        'c'
    } else if n == 13 {
        'd'
    } else if n == 14 {
        'e'
    } else {
        'f'
    }
}

/// The bytes as lowercase hexadecimal text.
pub fn hex_encode(bytes: &Vec<u8>) -> (r: String)
    ensures
        r@ == hex_text(bytes@),
{
    let mut r = String::new();
    let mut i: usize = 0;
    proof {
        assert(bytes@.take(0) =~= Seq::<u8>::empty());
    }
    while i < bytes.len()
        invariant
            i <= bytes@.len(),
            r@ == hex_text(bytes@.take(i as int)),
        decreases bytes@.len() - i,
    {
        let b = bytes[i];
        push_char(&mut r, hex_digit_char(b / 16));
        push_char(&mut r, hex_digit_char(b % 16));
        proof {
            let t = bytes@.take(i + 1);
            assert(t.drop_last() =~= bytes@.take(i as int));
            assert(t.last() == b);
        }
        i = i + 1;
    }
    proof {
        assert(bytes@.take(bytes@.len() as int) =~= bytes@);
    }
    r
}

/// Whether two byte strings are equal, looking at every byte of them when
/// their lengths agree.
pub fn constant_time_eq(expected: &[u8], candidate: &[u8]) -> (r: bool)
    ensures
        r == (expected@ == candidate@),
{
    if expected.len() != candidate.len() {
        return false;
    }
    let mut difference: u8 = 0;
    let mut i: usize = 0;
    while i < expected.len()
        invariant
            i <= expected@.len(),
            expected@.len() == candidate@.len(),
            (difference == 0) <==> (forall|j: int| 0 <= j < i ==> expected@[j] == candidate@[j]),
        decreases expected@.len() - i,
    {
        let left = expected[i];
        let right = candidate[i];
        let next = difference | (left ^ right);
        assert((next == 0) <==> (difference == 0 && left == right)) by (bit_vector)
            requires
                next == difference | (left ^ right),
        ;
        difference = next;
        i = i + 1;
    }
    let r = difference == 0;
    proof {
        if r {
            assert(expected@ =~= candidate@);
        }
    }
    r
}

/// Fills `bytes` from the operating system's source of randomness
/// (`getrandom::fill`). Nothing is claimed of the bytes but their number.
#[verifier::external_body]
fn fill_random(bytes: &mut Vec<u8>) -> (r: Result<(), getrandom::Error>)
    ensures
        final(bytes)@.len() == old(bytes)@.len(),
{
    getrandom::fill(bytes.as_mut_slice())
}

/// A request-forgery token: the hexadecimal text of random bytes.
#[derive(Debug)]
pub struct CsrfToken {
    value: String,
}

impl CsrfToken {
    /// The token's text.
    pub closed spec fn text(&self) -> Seq<char> {
        self.value@
    }

    #[verifier::type_invariant]
    closed spec fn well_formed(&self) -> bool {
        exists|bytes: Seq<u8>| bytes.len() == TOKEN_BYTES && self.value@ == hex_text(bytes)
    }

    /// Draws a fresh token of `TOKEN_BYTES` random bytes.
    pub fn generate() -> (r: Result<CsrfToken, TokenError>)
        ensures
            match r {
                Ok(token) => token.text().len() == 2 * TOKEN_BYTES && (forall|i: int|
                    0 <= i < token.text().len() ==> is_hex_char(#[trigger] token.text()[i]))
                    && exists|bytes: Seq<u8>|
                    bytes.len() == TOKEN_BYTES && token.text() == hex_text(bytes),
                Err(e) => e == TokenError::Entropy,
            },
    {
        let mut bytes: Vec<u8> = Vec::new();
        let mut i: usize = 0;
        while i < TOKEN_BYTES
            invariant
                i <= TOKEN_BYTES,
                bytes@.len() == i,
            decreases TOKEN_BYTES - i,
        {
            bytes.push(0);
            i = i + 1;
        }
        match fill_random(&mut bytes) {
            Ok(()) => {},
            Err(_) => {
                return Err(TokenError::Entropy);
            },
        }
        let token = CsrfToken::from_bytes(&bytes);
        proof {
            lemma_hex_text(bytes@);
            assert(bytes@.len() == TOKEN_BYTES && token.text() == hex_text(bytes@));
        }
        Ok(token)
    }

    /// The token of `TOKEN_BYTES` bytes that the system's randomness gave:
    /// their lowercase hexadecimal text.
    pub fn from_bytes(bytes: &Vec<u8>) -> (r: CsrfToken)
        requires
            bytes@.len() == TOKEN_BYTES,
        ensures
            r.text() == hex_text(bytes@),
    {
        let value = hex_encode(bytes);
        proof {
            assert(bytes@.len() == TOKEN_BYTES && value@ == hex_text(bytes@));
        }
        CsrfToken { value }
    }

    /// The token's text, for a form's hidden field.
    pub fn expose(&self) -> (r: &str)
        ensures
            r@ == self.text(),
    {
        self.value.as_str()
    }

    /// Whether `candidate` is this token, compared byte by byte.
    pub fn verify(&self, candidate: &str) -> (r: bool)
        ensures
            r == (candidate@ == self.text()),
    {
        let expected = self.value.as_str();
        let r = constant_time_eq(expected.as_bytes(), candidate.as_bytes());
        proof {
            vstd::utf8::encode_utf8_decode_utf8(expected@);
            vstd::utf8::encode_utf8_decode_utf8(candidate@);
        }
        r
    }
}

impl Clone for CsrfToken {
    fn clone(&self) -> (r: Self)
        ensures
            r.text() == self.text(),
    {
        proof {
            use_type_invariant(self);
        }
        CsrfToken { value: self.value.clone() }
    }
}

} // verus!
