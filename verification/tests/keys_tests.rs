use kratos_core::keys::{generate_key, inspect_key, parse_format, parse_scheme, HexError, InspectedKey, KeyError, KeyFormat, KeyScheme};

const RFC8032_SECRET: &str = "9d61b19deffd5a60ba844af492ec2cc44449c5697b326919703bac031cae7f60";
const RFC8032_PUBLIC: &str = "d75a980182b10ab7d54bfed3c964073a0ee172f3daa62325af021a68f707511a";

#[test]
fn keys_parse_scheme_and_format() {
    assert_eq!(parse_scheme("ed25519"), Ok(KeyScheme::Ed25519));
    assert_eq!(parse_scheme("sr25519"), Ok(KeyScheme::Sr25519));
    assert_eq!(parse_scheme("rsa"), Err(KeyError::UnknownScheme("rsa".to_string())));
    assert_eq!(parse_format("json"), Ok(KeyFormat::Json));
    assert_eq!(parse_format("hex"), Ok(KeyFormat::Hex));
    assert_eq!(parse_format("xml"), Err(KeyError::UnknownFormat("xml".to_string())));
}

#[test]
fn keys_inspect_ed25519_secret_gives_rfc8032_public_key() {
    match inspect_key(RFC8032_SECRET, "ed25519").unwrap() {
        InspectedKey::Ed25519Secret { public_hex, .. } => assert_eq!(public_hex, RFC8032_PUBLIC),
        other => panic!("unexpected {:?}", other),
    }
    // The 0x prefix is accepted.
    let prefixed = format!("0x{}", RFC8032_SECRET);
    match inspect_key(&prefixed, "ed25519").unwrap() {
        InspectedKey::Ed25519Secret { public_hex, .. } => assert_eq!(public_hex, RFC8032_PUBLIC),
        other => panic!("unexpected {:?}", other),
    }
}

#[test]
fn keys_inspect_ed25519_keypair_splits_halves() {
    let pair = format!("{}{}", RFC8032_SECRET, RFC8032_PUBLIC.to_uppercase());
    match inspect_key(&pair, "ed25519").unwrap() {
        InspectedKey::Ed25519Keypair { secret_hex, public_hex } => {
            assert_eq!(secret_hex, RFC8032_SECRET);
            assert_eq!(public_hex, RFC8032_PUBLIC);
        }
        other => panic!("unexpected {:?}", other),
    }
}

#[test]
fn keys_inspect_errors() {
    assert_eq!(inspect_key("abcd", "ed25519"), Err(KeyError::InvalidEd25519Length(2)));
    assert_eq!(inspect_key("abcd", "sr25519"), Err(KeyError::InvalidSr25519Length(2)));
    assert_eq!(inspect_key("abc", "ed25519"), Err(KeyError::InvalidHex(HexError::OddLength)));
    assert_eq!(
        inspect_key("0x0z", "ed25519"),
        Err(KeyError::InvalidHex(HexError::InvalidHexCharacter { c: 'z', index: 1 }))
    );
    assert_eq!(inspect_key("zz", "rsa"), Err(KeyError::UnknownScheme("rsa".to_string())));
}

#[test]
fn keys_generated_ed25519_key_inspects_to_its_public_key() {
    let key = generate_key("ed25519", "hex").unwrap();
    assert_eq!(key.scheme, KeyScheme::Ed25519);
    assert_eq!(key.format, KeyFormat::Hex);
    assert_eq!(key.secret_hex.len(), 64);
    assert_eq!(key.public_hex.len(), 64);
    match inspect_key(&key.secret_hex, "ed25519").unwrap() {
        InspectedKey::Ed25519Secret { public, .. } => assert_eq!(public, key.public),
        other => panic!("unexpected {:?}", other),
    }
}

#[test]
fn keys_generated_sr25519_seed_inspects_to_its_public_key() {
    let key = generate_key("sr25519", "json").unwrap();
    assert_eq!(key.scheme, KeyScheme::Sr25519);
    match inspect_key(&key.secret_hex, "sr25519").unwrap() {
        InspectedKey::Sr25519Seed { public, public_hex } => {
            assert_eq!(public, key.public);
            assert_eq!(public_hex, key.public_hex);
        }
        other => panic!("unexpected {:?}", other),
    }
}

#[test]
fn keys_generate_errors() {
    assert!(matches!(generate_key("rsa", "json"), Err(KeyError::UnknownScheme(_))));
    assert!(matches!(generate_key("ed25519", "xml"), Err(KeyError::UnknownFormat(_))));
}
