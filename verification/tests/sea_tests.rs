use base64::Engine as _;
use gun::chain::Chain;
use gun::gun_core::GunCore;
use gun::json::{to_json_string, Json};
use gun::sea::{
    decrypt, encrypt, certificate_from_json, certify, check_permission_at, create_user, derive_secret, finish_user, find_user_by_alias,
    generate_salt, hash_password, matches_policy, open_user_record, pair, recall_from_json, sign, strip_sea, verify,
    verify_password, work, work_string, Certificants, CertifyOptions, KeyPair, Policy, RadixPolicy, SeaError,
    WorkOptions,
};
use gun::strmap::StrMap;
use sha2::Digest as _;

fn sea_text(s: &str) -> Json {
    Json::String(s.to_string())
}

fn sea_object(pairs: Vec<(&str, Json)>) -> Json {
    let mut m = StrMap::new();
    for (k, v) in pairs {
        m.insert(k.to_string(), v);
    }
    Json::Object(m)
}

fn sea_from_value(v: &serde_json::Value) -> Json {
    match v {
        serde_json::Value::Null => Json::Null,
        serde_json::Value::Bool(b) => Json::Bool(*b),
        serde_json::Value::Number(n) => Json::Number(n.to_string()),
        serde_json::Value::String(s) => Json::String(s.clone()),
        serde_json::Value::Array(a) => Json::Array(a.iter().map(sea_from_value).collect()),
        serde_json::Value::Object(o) => {
            let mut m = StrMap::new();
            for (k, x) in o {
                m.insert(k.clone(), sea_from_value(x));
            }
            Json::Object(m)
        }
    }
}

fn sea_copy_pair(kp: &KeyPair) -> KeyPair {
    KeyPair {
        pub_key: kp.pub_key.clone(),
        priv_key: kp.priv_key.clone(),
        epub_key: kp.epub_key.clone(),
        epriv_key: kp.epriv_key.clone(),
    }
}

#[test]
fn pairs_have_all_keys_and_differ() {
    let a = pair().unwrap();
    let b = pair().unwrap();
    assert!(a.pub_key.contains('.'));
    assert_eq!(a.pub_key.split('.').count(), 2);
    assert!(!a.priv_key.is_empty());
    assert!(a.epub_key.as_ref().unwrap().contains('.'));
    assert!(a.epriv_key.is_some());
    assert_ne!(a.pub_key, b.pub_key);
    assert_ne!(a.priv_key, b.priv_key);
    let x = base64::engine::general_purpose::STANDARD_NO_PAD.decode(a.pub_key.split('.').next().unwrap()).unwrap();
    assert_eq!(x.len(), 32);
}

#[test]
fn signed_data_verifies_and_gives_the_text_back() {
    let kp = pair().unwrap();
    let data = sea_object(vec![("hello", sea_text("world")), ("n", Json::Number("5".to_string()))]);
    let signed = sign(&data, &kp).unwrap();
    assert_eq!(signed.get("m").and_then(|m| m.as_str()), Some(to_json_string(&data).as_str()));
    assert_eq!(verify(&signed, &kp.pub_key).ok(), Some(to_json_string(&data)));
}

#[test]
fn verification_fails_for_another_key_or_changed_data() {
    let kp = pair().unwrap();
    let other = pair().unwrap();
    let signed = sign(&sea_text("msg"), &kp).unwrap();
    assert!(matches!(verify(&signed, &other.pub_key), Err(SeaError::VerificationFailed)));
    let sig = signed.get("s").unwrap().as_str().unwrap().to_string();
    let tampered = sea_object(vec![("m", sea_text("\"other\"")), ("s", sea_text(&sig))]);
    assert!(matches!(verify(&tampered, &kp.pub_key), Err(SeaError::VerificationFailed)));
    assert!(matches!(verify(&signed, "no-dot"), Err(SeaError::InvalidKey)));
    assert!(matches!(verify(&sea_object(vec![]), &kp.pub_key), Err(SeaError::VerificationFailed)));
}

#[test]
fn signing_with_a_bad_key_is_refused() {
    let kp = KeyPair { pub_key: "a.b".to_string(), priv_key: "!!".to_string(), epub_key: None, epriv_key: None };
    assert!(matches!(sign(&Json::Null, &kp), Err(SeaError::InvalidKey)));
}

#[test]
fn password_hash_is_pbkdf2_in_base64() {
    let salt = [7u8; 16];
    let mut key = [0u8; 32];
    pbkdf2::pbkdf2_hmac::<sha2::Sha256>(b"secret", &salt, 100_000, &mut key);
    let expected = base64::engine::general_purpose::STANDARD_NO_PAD.encode(key);
    assert_eq!(hash_password("secret", &salt), expected);
    assert!(verify_password("secret", &salt, &expected));
    assert!(!verify_password("wrong", &salt, &expected));
}

#[test]
fn salts_are_random_and_sixteen_bytes() {
    let a = generate_salt();
    let b = generate_salt();
    assert_eq!(a.len(), 16);
    assert_ne!(a, b);
}

#[test]
fn work_in_sha_mode_is_the_digest() {
    let mut opt = WorkOptions::default();
    opt.name = Some("SHA-256".to_string());
    opt.encode = Some("hex".to_string());
    let out = work(b"abc", None, opt).unwrap();
    assert_eq!(out, hex::encode(sha2::Sha256::digest(b"abc")));
}

#[test]
fn work_with_a_salt_is_pbkdf2() {
    let mut opt = WorkOptions::default();
    opt.iterations = Some(10);
    opt.length = Some(256);
    let out = work_string("pw", Some(vec![1, 2, 3]), opt).unwrap();
    let mut key = [0u8; 32];
    pbkdf2::pbkdf2_hmac::<sha2::Sha256>(b"pw", &[1, 2, 3], 10, &mut key);
    assert_eq!(out, base64::engine::general_purpose::STANDARD_NO_PAD.encode(key));
}

#[test]
fn secrets_agree_between_two_parties() {
    let alice = pair().unwrap();
    let bob = pair().unwrap();
    let carol = pair().unwrap();
    let ab = derive_secret(bob.epub_key.as_ref().unwrap(), alice.epriv_key.as_ref().unwrap(), alice.epub_key.as_ref().unwrap()).unwrap();
    let ba = derive_secret(alice.epub_key.as_ref().unwrap(), bob.epriv_key.as_ref().unwrap(), bob.epub_key.as_ref().unwrap()).unwrap();
    let ac = derive_secret(carol.epub_key.as_ref().unwrap(), alice.epriv_key.as_ref().unwrap(), alice.epub_key.as_ref().unwrap()).unwrap();
    assert_eq!(ab, ba);
    assert_ne!(ab, ac);
}

#[test]
fn policies_match_paths() {
    assert!(matches_policy("inbox", &Policy::String("inbox".to_string())));
    assert!(matches_policy("inbox/1", &Policy::String("inbox".to_string())));
    assert!(!matches_policy("inboxes", &Policy::String("inbox".to_string())));
    let mut patterns = StrMap::new();
    patterns.insert("*".to_string(), "inbox".to_string());
    let radix = Policy::Radix(RadixPolicy { patterns });
    assert!(matches_policy("inbox/messages", &radix));
    assert!(!matches_policy("other", &radix));
    let mut exact = StrMap::new();
    exact.insert("=".to_string(), "a/b".to_string());
    let exact = Policy::Radix(RadixPolicy { patterns: exact });
    assert!(matches_policy("a/b", &exact));
    assert!(!matches_policy("a/bc", &exact));
    let arr = Policy::Array(vec![Policy::String("a".to_string()), Policy::String("b".to_string())]);
    assert!(matches_policy("b/c", &arr));
    assert!(!matches_policy("c", &arr));
}

#[test]
fn certificates_are_issued_and_read_back() {
    let authority = pair().unwrap();
    let opt = CertifyOptions { expiry: Some(2_000), block: None, raw: false };
    let cert = certify(&Certificants::Wildcard, &Policy::String("inbox".to_string()), &authority, &opt).unwrap();
    assert!(cert.starts_with("SEA{"));
    let text = strip_sea(&cert);
    assert!(text.starts_with('{'));
    let signed: serde_json::Value = serde_json::from_str(&text).unwrap();
    let message = verify(&sea_from_value(&signed), &authority.pub_key).unwrap();
    let parsed: serde_json::Value = serde_json::from_str(&message).unwrap();
    let c = certificate_from_json(&sea_from_value(&parsed)).unwrap();
    assert!(matches!(c.certificants, Certificants::Wildcard));
    assert_eq!(c.expiry, Some(2_000));
    assert!(check_permission_at(&c, "inbox/1", "write", 1_000));
    assert!(!check_permission_at(&c, "inbox/1", "write", 3_000));
    assert!(!check_permission_at(&c, "outbox", "write", 1_000));
}

#[test]
fn certificants_must_be_named() {
    let no_c = sea_object(vec![("w", sea_text("inbox"))]);
    assert!(matches!(certificate_from_json(&no_c), Err(SeaError::Crypto(_))));
    let listed = sea_object(vec![("c", Json::Array(vec![sea_text("k1"), Json::Null, sea_text("k2")]))]);
    match certificate_from_json(&listed).unwrap().certificants {
        Certificants::List(v) => assert_eq!(v, vec!["k1".to_string(), "k2".to_string()]),
        _ => panic!("expected a list"),
    }
}

#[test]
fn a_created_user_opens_with_its_password() {
    let mut core = GunCore::new();
    let root = Chain::new(&mut core);
    let (auth, updates) = create_user(&root, &mut core, Some("alice".to_string()), "pw123").unwrap();
    assert_eq!(auth.alias, Some("alice".to_string()));
    assert!(!updates.is_empty());
    let user_soul = format!("~{}", auth.pair.pub_key);
    let alias_node = core.graph.get(&format!("{}@alice", user_soul)).unwrap();
    let link = alias_node.data.get(&user_soul).unwrap();
    assert_eq!(link.get("#").and_then(|t| t.as_str()), Some(user_soul.as_str()));
    let soul = find_user_by_alias(&core.graph, "alice").unwrap();
    let node = core.graph.get(&soul).unwrap();
    assert_eq!(node.data.get("pub").and_then(|p| p.as_str()), Some(auth.pair.pub_key.as_str()));
    let mut rec = StrMap::new();
    for i in 0..node.data.len() {
        let e = node.data.entry_at(i);
        rec.insert(e.0.clone(), e.1.copy());
    }
    let rec = Json::Object(rec);
    assert!(matches!(open_user_record(&rec, "wrong"), Err(SeaError::Crypto(_))));
    let opened = open_user_record(&rec, "pw123").unwrap();
    assert_eq!(opened.pub_key, auth.pair.pub_key);
    let priv_json = sea_from_value(&serde_json::from_str(&opened.priv_text).unwrap());
    let epriv_json = sea_from_value(&serde_json::from_str(opened.epriv_text.as_ref().unwrap()).unwrap());
    let user = finish_user(opened, &priv_json, Some(&epriv_json), "alice").unwrap();
    assert_eq!(user.pair.priv_key, auth.pair.priv_key);
    assert_eq!(user.pair.epriv_key, auth.pair.epriv_key);
    assert_eq!(user.alias, Some("alice".to_string()));
    let _ = sea_copy_pair(&user.pair);
}

#[test]
fn sessions_expire_after_twelve_hours() {
    let data = sea_object(vec![
        ("pub", sea_text("p")),
        ("priv", sea_text("s")),
        ("exp", Json::Number("1000".to_string())),
        ("alias", sea_text("bob")),
    ]);
    let fresh = recall_from_json(&data, 1_000 + 43_200_000).unwrap().unwrap();
    assert_eq!(fresh.pair.pub_key, "p");
    assert_eq!(fresh.alias, Some("bob".to_string()));
    assert!(recall_from_json(&data, 1_001 + 43_200_000).unwrap().is_none());
    let broken = sea_object(vec![("priv", sea_text("s"))]);
    assert!(matches!(recall_from_json(&broken, 0), Err(SeaError::Crypto(_))));
}

#[test]
fn a_key_that_is_not_a_point_is_a_crypto_error() {
    let kp = pair().unwrap();
    let signed = sign(&sea_text("msg"), &kp).unwrap();
    assert!(matches!(verify(&signed, "AAAA.AAAA"), Err(SeaError::Crypto(_))));
}

#[test]
fn encrypted_data_decrypts_for_the_same_pair() {
    let kp = pair().unwrap();
    let data = sea_object(vec![("secret", sea_text("hello"))]);
    let enc = encrypt(&data, &kp, None).unwrap();
    let iv = match &enc {
        Json::Object(m) => m.get("iv").and_then(|v| v.as_str()).unwrap().to_string(),
        _ => panic!("expected an object"),
    };
    assert_eq!(base64::engine::general_purpose::STANDARD_NO_PAD.decode(iv).unwrap().len(), 15);
    assert_eq!(decrypt(&enc, &kp, None).unwrap(), "{\"secret\":\"hello\"}");
    let other = pair().unwrap();
    assert!(matches!(decrypt(&enc, &other, None), Err(SeaError::Decryption(_))));
}

#[test]
fn encrypted_data_decrypts_for_the_other_party() {
    let alice = pair().unwrap();
    let bob = pair().unwrap();
    let data = sea_text("for bob");
    let enc = encrypt(&data, &alice, Some(bob.epub_key.as_ref().unwrap())).unwrap();
    let text = decrypt(&enc, &bob, Some(alice.epub_key.as_ref().unwrap())).unwrap();
    assert_eq!(text, "\"for bob\"");
}

#[test]
fn encryption_errors() {
    let mut kp = pair().unwrap();
    let data = sea_text("x");
    let no_epriv = KeyPair { epriv_key: None, ..sea_copy_pair(&kp) };
    assert!(matches!(encrypt(&data, &no_epriv, None), Err(SeaError::Encryption(m)) if m == "Missing epriv key"));
    assert!(matches!(encrypt(&data, &kp, Some("bad")), Err(SeaError::InvalidKey)));
    let short_iv = sea_object(vec![("ct", sea_text("AAAA")), ("iv", sea_text("AAAA")), ("s", sea_text("AAAA"))]);
    assert!(matches!(decrypt(&short_iv, &kp, None), Err(SeaError::Decryption(m)) if m == "Invalid IV length"));
    let missing = sea_object(vec![("iv", sea_text("AAAA"))]);
    assert!(matches!(decrypt(&missing, &kp, None), Err(SeaError::Decryption(m)) if m == "Missing ciphertext"));
    kp.priv_key = "AAAA".to_string();
    assert!(matches!(sign(&data, &kp), Err(SeaError::InvalidKey)));
}

#[test]
fn a_list_of_certificants_reads_back_as_that_list() {
    let authority = pair().unwrap();
    let list = Certificants::List(vec!["k1".to_string(), "k2".to_string()]);
    let cert = certify(&list, &Policy::String("inbox".to_string()), &authority, &CertifyOptions::default()).unwrap();
    let signed: serde_json::Value = serde_json::from_str(&strip_sea(&cert)).unwrap();
    let message = verify(&sea_from_value(&signed), &authority.pub_key).unwrap();
    let parsed: serde_json::Value = serde_json::from_str(&message).unwrap();
    assert_eq!(parsed["c"], serde_json::Value::Array(vec![serde_json::Value::String("k1".to_string()), serde_json::Value::String("k2".to_string())]));
    match certificate_from_json(&sea_from_value(&parsed)).unwrap().certificants {
        Certificants::List(v) => assert_eq!(v, vec!["k1".to_string(), "k2".to_string()]),
        _ => panic!("expected a list"),
    }
}

#[test]
fn a_list_policy_is_written_as_the_list_of_its_texts() {
    let authority = pair().unwrap();
    let policy = Policy::Array(vec![Policy::String("a".to_string()), Policy::String("b".to_string())]);
    let opt = CertifyOptions { expiry: None, block: None, raw: true };
    let cert = certify(&Certificants::Wildcard, &policy, &authority, &opt).unwrap();
    let signed: serde_json::Value = serde_json::from_str(&cert).unwrap();
    let message = verify(&sea_from_value(&signed), &authority.pub_key).unwrap();
    assert_eq!(message, "{\"c\":\"*\",\"w\":\"[\\\"a\\\",\\\"b\\\"]\"}");
}

#[test]
fn a_user_created_under_the_root_is_stored_under_its_public_key() {
    let mut core = GunCore::new();
    let root = Chain::new(&mut core);
    let (auth, _) = create_user(&root, &mut core, None, "pw").unwrap();
    let soul = format!("~{}", auth.pair.pub_key);
    let node = core.graph.get(&soul).unwrap();
    assert_eq!(node.data.get("pub").and_then(|p| p.as_str()), Some(auth.pair.pub_key.as_str()));
    let user_chain = root.get(&mut core, &soul);
    assert_eq!(user_chain.soul, Some(soul.clone()));
    match user_chain.once_lookup(&core.graph) {
        gun::read::OnceStep::NodeData(d) => {
            assert_eq!(d.get("pub").and_then(|p| p.as_str()), Some(auth.pair.pub_key.as_str()));
        }
        _ => panic!("expected the user's node"),
    }
}
