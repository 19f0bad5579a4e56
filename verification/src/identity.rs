//! A node's identity: its secret key, stored as hexadecimal text, and the
//! public key that names it on the network; and the choice, at start-up,
//! between joining through a bootstrap node and being one.

use vstd::prelude::*;
use vstd::string::StringSliceAdditionalSpecFns;

verus! {

/// Why a string is not hexadecimal, as the `hex` crate reports it.
#[derive(Debug, Clone, Copy, PartialEq, Eq, Structural)]
pub enum HexDecodeError {
    /// The character at `index` is not one of `0-9`, `a-f`, `A-F`.
    InvalidHexCharacter { c: char, index: usize },
    /// The text has an odd number of digits.
    OddLength,
    /// The text does not fit the requested size.
    InvalidStringLength,
}

/// The value of one hexadecimal digit (either case).
pub open spec fn hex_value(c: u8) -> Option<u8> {
    if 48 <= c <= 57 {
        Some((c - 48) as u8)
    } else if 65 <= c <= 70 {
        Some((c - 55) as u8)
    } else if 97 <= c <= 102 {
        Some((c - 87) as u8)
    } else {
        None
    }
}

/// The number of leading bytes of `s` that are hexadecimal digits.
pub open spec fn hex_prefix_len(s: Seq<u8>) -> nat
    decreases s.len(),
{
    if s.len() == 0 {
        0
    } else if hex_value(s[0]) is None {
        0
    } else {
        1 + hex_prefix_len(s.drop_first())
    }
}

/// What `hex::decode` gives for `text`: an odd length is refused first;
/// otherwise the first character that is no hexadecimal digit is reported
/// with its position; otherwise every two digits make one byte, the first
/// digit being the high half.
pub open spec fn hex_decoded(text: Seq<u8>) -> Result<Seq<u8>, HexDecodeError> {
    if text.len() % 2 != 0 {
        Err(HexDecodeError::OddLength)
    } else if hex_prefix_len(text) < text.len() {
        let i = hex_prefix_len(text);
        Err(HexDecodeError::InvalidHexCharacter { c: text[i as int] as char, index: i as usize })
    } else {
        Ok(Seq::new(
            text.len() / 2,
            |i: int| (hex_value(text[2 * i]).unwrap() * 16 + hex_value(text[2 * i + 1]).unwrap()) as u8,
        ))
    }
}

/// `hex::decode`: decodes hexadecimal text (digits of either case) into
/// bytes, exactly as `hex_decoded` says.
#[verifier::external_body]
fn hex_decode(text: &[u8]) -> (decoded: Result<Vec<u8>, HexDecodeError>)
    ensures
        match decoded {
            Ok(bytes) => hex_decoded(text@) == Ok::<Seq<u8>, HexDecodeError>(bytes@),
            Err(e) => hex_decoded(text@) == Err::<Seq<u8>, HexDecodeError>(e),
        },
{
    match hex::decode(text) {
        Ok(bytes) => Ok(bytes),
        Err(hex::FromHexError::InvalidHexCharacter { c, index }) => Err(
            HexDecodeError::InvalidHexCharacter { c, index },
        ),
        Err(hex::FromHexError::OddLength) => Err(HexDecodeError::OddLength),
        Err(hex::FromHexError::InvalidStringLength) => Err(HexDecodeError::InvalidStringLength),
    }
}

/// The ed25519 public key of a 32-byte secret key, as
/// `iroh_base::SecretKey::public` computes it.
pub uninterp spec fn ed25519_public_key(secret: Seq<u8>) -> Seq<u8>;

/// `iroh_base::SecretKey::from_bytes` then `public`: the public key that
/// belongs to `secret`, named by `ed25519_public_key`.
#[verifier::external_body]
fn public_key_of(secret: &[u8; 32]) -> (public: [u8; 32])
    ensures
        public@ == ed25519_public_key(secret@),
{
    *iroh_base::SecretKey::from_bytes(secret).public().as_bytes()
}

/// The public key that `iroh_base::PublicKey::from_str` reads from `text`,
/// or `None` where it refuses the text.
pub uninterp spec fn public_key_from_text(text: Seq<char>) -> Option<Seq<u8>>;

/// `iroh_base::PublicKey::from_str`: reads a public key written as 64
/// lowercase hexadecimal digits or in base32, and refuses text that is
/// neither or that is no valid ed25519 point. Which texts it accepts is left
/// to the name `public_key_from_text`.
#[verifier::external_body]
fn parse_public_key(text: &str) -> (key: Option<[u8; 32]>)
    ensures
        match key {
            Some(k) => public_key_from_text(text@) == Some(k@),
            None => public_key_from_text(text@) is None,
        },
{
    match <iroh_base::PublicKey as std::str::FromStr>::from_str(text) {
        Ok(k) => Some(*k.as_bytes()),
        Err(_) => None,
    }
}

/// Why a stored secret key cannot be used.
#[derive(Debug, Clone, Copy, PartialEq, Eq, Structural)]
pub enum SecretKeyError {
    /// The text is not hexadecimal.
    Hex(HexDecodeError),
    /// The text decodes to this many bytes instead of 32.
    WrongLength(usize),
}

/// The identity of this node: its secret key and the public key derived
/// from it, which is its node id.
#[derive(Debug, Clone, Copy, PartialEq, Eq)]
pub struct NodeIdentity {
    pub secret: [u8; 32],
    pub public: [u8; 32],
}

/// The text is a usable secret key: hexadecimal that decodes to 32 bytes.
pub open spec fn is_secret_key_text(text: Seq<u8>) -> bool {
    hex_decoded(text) matches Ok(bytes) && bytes.len() == 32
}

/// What is wrong with a stored secret key, if anything: the decoding error
/// when the text is not hexadecimal, or the decoded length when it is not 32.
pub fn secret_key_problem(text: &str) -> (problem: Option<SecretKeyError>)
    ensures
        match hex_decoded(text.spec_bytes()) {
            Err(e) => problem == Some(SecretKeyError::Hex(e)),
            Ok(bytes) => if bytes.len() == 32 {
                problem is None
            } else {
                problem == Some(SecretKeyError::WrongLength(bytes.len() as usize))
            },
        },
        problem is None <==> is_secret_key_text(text.spec_bytes()),
{
    match hex_decode(text.as_bytes()) {
        Err(e) => Some(SecretKeyError::Hex(e)),
        Ok(bytes) => if bytes.len() == 32 {
            None
        } else {
            Some(SecretKeyError::WrongLength(bytes.len()))
        },
    }
}

/// The 32-byte secret key written as hexadecimal text. Text that is not
/// hexadecimal, or that decodes to another length, is no secret key
/// (`secret_key_problem` tells which).
pub fn secret_key_from_hex(text: &str) -> (key: [u8; 32])
    requires
        is_secret_key_text(text.spec_bytes()),
    ensures
        hex_decoded(text.spec_bytes()) == Ok::<Seq<u8>, HexDecodeError>(key@),
{
    let mut key = [0u8; 32];
    let bytes = match hex_decode(text.as_bytes()) {
        Ok(bytes) => bytes,
        Err(_) => return key,  // excluded by the precondition
    };
    let mut i: usize = 0;
    while i < 32
        invariant
            i <= 32,
            bytes@.len() == 32,
            forall|j: int| 0 <= j < i ==> key@[j] == bytes@[j],
        decreases 32 - i,
    {
        key[i] = bytes[i];
        i = i + 1;
    }
    assert(key@ == bytes@);
    key
}

/// The node's identity from its stored secret key: the key itself and the
/// public key that belongs to it.
pub fn node_identity(secret_hex: &str) -> (identity: NodeIdentity)
    requires
        is_secret_key_text(secret_hex.spec_bytes()),
    ensures
        hex_decoded(secret_hex.spec_bytes()) == Ok::<Seq<u8>, HexDecodeError>(identity.secret@),
        identity.public@ == ed25519_public_key(identity.secret@),
{
    let secret = secret_key_from_hex(secret_hex);
    let public = public_key_of(&secret);
    NodeIdentity { secret, public }
}

/// How the node starts.
#[derive(Debug, Clone, Copy, PartialEq, Eq)]
pub enum Startup {
    /// Ping the bootstrap node with this public key, then listen.
    Join([u8; 32]),
    /// Act as a bootstrap node: only listen.
    Bootstrap,
}

/// Why the node cannot start.
#[derive(Debug, Clone, Copy, PartialEq, Eq, Structural)]
pub enum StartupError {
    /// The configured bootstrap address is no public key.
    InvalidBootstrapKey,
}

/// With a configured bootstrap address the node joins through that node,
/// whose address must read as a public key; without one it is itself a
/// bootstrap node.
pub fn plan_startup(bootstrap_addr: Option<&str>) -> (plan: Startup)
    requires
        bootstrap_addr matches Some(text) ==> public_key_from_text(text@) is Some,
    ensures
        match bootstrap_addr {
            None => plan == Startup::Bootstrap,
            Some(text) => plan matches Startup::Join(key)
                && public_key_from_text(text@) == Some(key@),
        },
{
    match bootstrap_addr {
        None => Startup::Bootstrap,
        Some(text) => match parse_public_key(text) {
            Some(key) => Startup::Join(key),
            None => Startup::Bootstrap,  // excluded by the precondition
        },
    }
}

/// `plan_startup` for any configuration: a bootstrap address that does not
/// read as a public key is refused before planning.
pub fn try_plan_startup(bootstrap_addr: Option<&str>) -> (plan: Result<Startup, StartupError>)
    ensures
        match bootstrap_addr {
            None => plan == Ok::<Startup, StartupError>(Startup::Bootstrap),
            Some(text) => match public_key_from_text(text@) {
                Some(k) => plan matches Ok(Startup::Join(key)) && key@ == k,
                None => plan == Err::<Startup, StartupError>(StartupError::InvalidBootstrapKey),
            },
        },
{
    if let Some(text) = bootstrap_addr {
        if parse_public_key(text).is_none() {
            return Err(StartupError::InvalidBootstrapKey);
        }
    }
    Ok(plan_startup(bootstrap_addr))
}

} // verus!
