use p2psocial::identity::{
    node_identity, plan_startup, secret_key_from_hex, secret_key_problem, try_plan_startup, HexDecodeError,
    SecretKeyError, Startup, StartupError,
};

const SECRET_HEX: &str = "9d61b19deffd5a60ba844af492ec2cc44449c5697b326919703bac031cae7f60";
const PUBLIC_HEX: &str = "d75a980182b10ab7d54bfed3c964073a0ee172f3daa62325af021a68f707511a";

fn bytes_of(hex_text: &str) -> [u8; 32] {
    let mut out = [0u8; 32];
    for i in 0..32 {
        out[i] = u8::from_str_radix(&hex_text[2 * i..2 * i + 2], 16).unwrap();
    }
    out
}

#[test]
fn secret_key_decodes_from_hex() {
    assert_eq!(secret_key_problem(SECRET_HEX), None);
    assert_eq!(secret_key_from_hex(SECRET_HEX), bytes_of(SECRET_HEX));
    assert_eq!(secret_key_problem(&SECRET_HEX.to_uppercase()), None);
    assert_eq!(secret_key_from_hex(&SECRET_HEX.to_uppercase()), bytes_of(SECRET_HEX));
}

#[test]
fn secret_key_errors() {
    assert_eq!(secret_key_problem("abc"), Some(SecretKeyError::Hex(HexDecodeError::OddLength)));
    assert_eq!(
        secret_key_problem("0g"),
        Some(SecretKeyError::Hex(HexDecodeError::InvalidHexCharacter { c: 'g', index: 1 }))
    );
    assert_eq!(
        secret_key_problem("zz"),
        Some(SecretKeyError::Hex(HexDecodeError::InvalidHexCharacter { c: 'z', index: 0 }))
    );
    assert_eq!(secret_key_problem("00"), Some(SecretKeyError::WrongLength(1)));
    assert_eq!(secret_key_problem(&SECRET_HEX[..62]), Some(SecretKeyError::WrongLength(31)));
    assert_eq!(secret_key_problem(""), Some(SecretKeyError::WrongLength(0)));
}

#[test]
fn node_identity_derives_the_public_key() {
    let id = node_identity(SECRET_HEX);
    assert_eq!(id.secret, bytes_of(SECRET_HEX));
    assert_eq!(id.public, bytes_of(PUBLIC_HEX));
    assert_ne!(id.public, id.secret);
}

#[test]
fn startup_plan() {
    assert_eq!(plan_startup(None), Startup::Bootstrap);
    assert_eq!(plan_startup(Some(PUBLIC_HEX)), Startup::Join(bytes_of(PUBLIC_HEX)));
    assert_eq!(try_plan_startup(None), Ok(Startup::Bootstrap));
    assert_eq!(try_plan_startup(Some(PUBLIC_HEX)), Ok(Startup::Join(bytes_of(PUBLIC_HEX))));
    assert_eq!(try_plan_startup(Some("not a key")), Err(StartupError::InvalidBootstrapKey));
    assert_eq!(try_plan_startup(Some(&PUBLIC_HEX[..62])), Err(StartupError::InvalidBootstrapKey));
}
