use ampersona::audit::{append_audit, create_checkpoint};
use ampersona::canonical::{canonicalize, canonicalize_fields};
use ampersona::json::{obj_set, JsonValue};
use ampersona::sign::{
    decode_hex, ed25519_public, sign_checkpoint, sign_persona, verify_checkpoint_signature,
    verify_persona, SignError,
};

fn doc() -> JsonValue {
    let mut fields = Vec::new();
    obj_set(&mut fields, "name", JsonValue::string("atlas"));
    obj_set(&mut fields, "role", JsonValue::string("builder"));
    JsonValue::Obj(fields)
}

fn secret() -> Vec<u8> {
    let mut k = Vec::new();
    let mut i = 0u8;
    while k.len() < 32 {
        k.push(7u8.wrapping_add(i));
        i = i.wrapping_add(1);
    }
    k
}

#[test]
fn keys_sorted() {
    let mut fields = Vec::new();
    obj_set(&mut fields, "b", JsonValue::Int(1));
    obj_set(&mut fields, "a", JsonValue::Int(2));
    let v = JsonValue::Obj(fields);
    let canonical = String::from_utf8(canonicalize(&v)).unwrap();
    assert_eq!(canonical, r#"{"a":2,"b":1}"#);
}

#[test]
fn no_whitespace() {
    let mut fields = Vec::new();
    obj_set(
        &mut fields,
        "key",
        JsonValue::Arr(vec![JsonValue::Int(1), JsonValue::Int(2), JsonValue::Int(3)]),
    );
    let v = JsonValue::Obj(fields);
    let canonical = String::from_utf8(canonicalize(&v)).unwrap();
    assert_eq!(canonical, r#"{"key":[1,2,3]}"#);
}

#[test]
fn string_escaping() {
    let mut fields = Vec::new();
    obj_set(&mut fields, "text", JsonValue::string("hello\nworld"));
    let v = JsonValue::Obj(fields);
    let canonical = String::from_utf8(canonicalize(&v)).unwrap();
    assert_eq!(canonical, r#"{"text":"hello\nworld"}"#);
}

#[test]
fn number_forms_are_canonical() {
    let mut fields = Vec::new();
    obj_set(&mut fields, "neg", JsonValue::Int(-42));
    obj_set(
        &mut fields,
        "rate",
        JsonValue::Dec {
            neg: false,
            mant: 95,
            scale: 2,
        },
    );
    obj_set(
        &mut fields,
        "tiny",
        JsonValue::Dec {
            neg: true,
            mant: 5,
            scale: 3,
        },
    );
    let v = JsonValue::Obj(fields);
    let canonical = String::from_utf8(canonicalize(&v)).unwrap();
    assert_eq!(canonical, r#"{"neg":-42,"rate":0.95,"tiny":-0.005}"#);
}

#[test]
fn canonical_fields_picks_subset() {
    let d = doc();
    let names = vec!["name".to_string()];
    let canonical = String::from_utf8(canonicalize_fields(&d, &names)).unwrap();
    assert_eq!(canonical, r#"{"name":"atlas"}"#);
}

#[test]
fn sign_then_verify_round_trip() {
    let mut d = doc();
    let sk = secret();
    sign_persona(&mut d, &sk, "k1", "cli", 1000).unwrap();
    let pk = ed25519_public(&sk);
    assert_eq!(verify_persona(&d, &pk).unwrap(), true);
}

#[test]
fn verify_fails_on_changed_field() {
    let mut d = doc();
    let sk = secret();
    sign_persona(&mut d, &sk, "k1", "cli", 1000).unwrap();
    // flip a signed field after signing
    match &mut d {
        JsonValue::Obj(fields) => {
            obj_set(fields, "role", JsonValue::string("saboteur"));
        }
        _ => panic!("expected object"),
    }
    let pk = ed25519_public(&sk);
    assert_eq!(verify_persona(&d, &pk).unwrap(), false);
}

#[test]
fn verify_fails_with_wrong_key() {
    let mut d = doc();
    let sk = secret();
    sign_persona(&mut d, &sk, "k1", "cli", 1000).unwrap();
    let mut other = secret();
    other[0] = other[0].wrapping_add(1);
    let pk = ed25519_public(&other);
    assert_eq!(verify_persona(&d, &pk).unwrap(), false);
}

#[test]
fn missing_signature_is_distinct_error() {
    let d = doc();
    let pk = ed25519_public(&secret());
    assert!(matches!(
        verify_persona(&d, &pk),
        Err(SignError::MissingSignature)
    ));
}

#[test]
fn checkpoint_signature_round_trip() {
    let mut log: Vec<JsonValue> = Vec::new();
    let mut fields = Vec::new();
    obj_set(&mut fields, "event", JsonValue::string("a"));
    append_audit(&mut log, JsonValue::Obj(fields), 1);
    let mut cp = create_checkpoint(&log, 10).unwrap();

    let sk = secret();
    let pk = ed25519_public(&sk);
    // unsigned: the missing signature is its own error, not a false verdict
    assert!(matches!(
        verify_checkpoint_signature(&cp, &pk),
        Err(SignError::MissingSignature)
    ));
    sign_checkpoint(&mut cp, &sk, "k1").unwrap();
    assert_eq!(verify_checkpoint_signature(&cp, &pk).unwrap(), true);

    // tampering with the anchored count breaks the signature
    cp.entries = 5;
    assert_eq!(verify_checkpoint_signature(&cp, &pk).unwrap(), false);
}

#[test]
fn hex_decoding_is_exact() {
    assert_eq!(decode_hex("00ff10").unwrap(), vec![0x00, 0xff, 0x10]);
    assert_eq!(decode_hex("ABcd").unwrap(), vec![0xab, 0xcd]);
    assert!(decode_hex("abc").is_none());
    assert!(decode_hex("zz").is_none());
    assert_eq!(decode_hex("").unwrap(), Vec::<u8>::new());
}

#[test]
fn tagged_digest_of_empty_input_is_the_known_vector() {
    let empty: Vec<u8> = Vec::new();
    let tag = String::from_utf8(ampersona::hash::tagged_sha256(&empty)).unwrap();
    assert_eq!(
        tag,
        "sha256:e3b0c44298fc1c149afbf4c8996fb92427ae41e4649b934ca495991b7852b855"
    );
}

#[test]
fn base64_encoding_matches_standard_alphabet() {
    let data = b"hello".to_vec();
    let enc = ampersona::sign::base64_encode(&data);
    assert_eq!(enc, "aGVsbG8=");
    assert_eq!(ampersona::sign::base64_decode(&enc).unwrap(), data);
    assert!(ampersona::sign::base64_decode("not base64!!").is_none());
}

fn set_block_field(doc: &mut JsonValue, key: &str, value: JsonValue) {
    match doc {
        JsonValue::Obj(fields) => {
            for f in fields.iter_mut() {
                if f.key == "signature" {
                    match &mut f.value {
                        JsonValue::Obj(block) => obj_set(block, key, value),
                        _ => panic!("signature block is not an object"),
                    }
                    return;
                }
            }
            panic!("no signature block");
        }
        _ => panic!("document is not an object"),
    }
}

#[test]
fn unknown_canonicalization_fails_closed() {
    let mut d = doc();
    let sk = secret();
    sign_persona(&mut d, &sk, "k1", "cli", 1000).unwrap();
    set_block_field(&mut d, "canonicalization", JsonValue::string("XCS-0000"));
    let pk = ed25519_public(&sk);
    assert!(matches!(
        verify_persona(&d, &pk),
        Err(SignError::UnsupportedCanonicalization)
    ));
}

#[test]
fn empty_signed_fields_is_an_error() {
    let mut d = doc();
    let sk = secret();
    sign_persona(&mut d, &sk, "k1", "cli", 1000).unwrap();
    set_block_field(&mut d, "signed_fields", JsonValue::Arr(Vec::new()));
    let pk = ed25519_public(&sk);
    assert!(matches!(
        verify_persona(&d, &pk),
        Err(SignError::EmptySignedFields)
    ));
}

#[test]
fn malformed_signature_value_is_an_error() {
    let mut d = doc();
    let sk = secret();
    sign_persona(&mut d, &sk, "k1", "cli", 1000).unwrap();
    set_block_field(&mut d, "value", JsonValue::string("not base64!!"));
    let pk = ed25519_public(&sk);
    assert!(matches!(
        verify_persona(&d, &pk),
        Err(SignError::MalformedSignature)
    ));
    let mut d2 = doc();
    sign_persona(&mut d2, &sk, "k1", "cli", 1000).unwrap();
    set_block_field(&mut d2, "value", JsonValue::Int(3));
    assert!(matches!(
        verify_persona(&d2, &pk),
        Err(SignError::MalformedSignature)
    ));
}

#[test]
fn wrong_length_signature_value_is_an_error() {
    // valid canonical base64, but not 64 decoded bytes
    let mut d = doc();
    let sk = secret();
    sign_persona(&mut d, &sk, "k1", "cli", 1000).unwrap();
    let short = ampersona::sign::base64_encode(&b"short".to_vec());
    set_block_field(&mut d, "value", JsonValue::Str(short));
    let pk = ed25519_public(&sk);
    assert!(matches!(
        verify_persona(&d, &pk),
        Err(SignError::MalformedSignature)
    ));
}

#[test]
fn wrong_length_checkpoint_signature_is_an_error() {
    let mut log: Vec<JsonValue> = Vec::new();
    let mut fields = Vec::new();
    obj_set(&mut fields, "event", JsonValue::string("a"));
    append_audit(&mut log, JsonValue::Obj(fields), 1);
    let mut cp = create_checkpoint(&log, 10).unwrap();
    let sk = secret();
    let pk = ed25519_public(&sk);
    sign_checkpoint(&mut cp, &sk, "k1").unwrap();
    // well-formed hex of the wrong size
    if let Some(sig) = &mut cp.signature {
        sig.value = "00ff10".to_string();
    }
    assert!(matches!(
        verify_checkpoint_signature(&cp, &pk),
        Err(SignError::MalformedSignature)
    ));
}
