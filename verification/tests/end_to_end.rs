use identity_agent::registry::{
    get_current_kel, incept_aid, rotate_aid, sign_payload, IdentifierRegistry,
};
use identity_agent::verification::verify_signature;

#[test]
fn alice_incepts_rotates_signs_and_verifies() {
    let mut registry = IdentifierRegistry::new();

    let incepted = incept_aid(&mut registry, "alice".to_string(), String::new()).unwrap();
    println!("aid {} icp {}", incepted.aid, incepted.kel);
    let log = get_current_kel(&registry, "alice".to_string()).unwrap();
    let entries: Vec<String> = serde_json::from_str(&log).unwrap();
    assert_eq!(entries.len(), 1);
    assert_eq!(entries[0], incepted.kel);

    let rotated = rotate_aid(&mut registry, "alice".to_string()).unwrap();
    println!("rot {}", rotated.kel);
    assert_eq!(rotated.aid, incepted.aid);
    let log = get_current_kel(&registry, "alice".to_string()).unwrap();
    println!("{}", log);
    let entries: Vec<String> = serde_json::from_str(&log).unwrap();
    assert_eq!(entries.len(), 2);
    assert_eq!(entries[1], rotated.kel);
    let record: serde_json::Value = serde_json::from_str(&entries[1]).unwrap();
    assert_eq!(record["sn"].as_u64(), Some(1));
    assert_eq!(record["type"].as_str(), Some("rot"));
    assert_eq!(record["aid"].as_str(), Some(incepted.aid.as_str()));

    let signed = sign_payload(&registry, "alice".to_string(), b"hello".to_vec()).unwrap();
    assert_eq!(signed.public_key, rotated.new_public_key);
    assert_eq!(
        verify_signature(b"hello".to_vec(), signed.signature.clone(), signed.public_key.clone()),
        Ok(true)
    );

    let mut raw = base64::decode(&signed.signature).unwrap();
    raw[0] ^= 0x01;
    let tampered = base64::encode(&raw);
    assert_eq!(
        verify_signature(b"hello".to_vec(), tampered, signed.public_key.clone()),
        Ok(false)
    );
}
