use identity_agent::error::AgentError;
use identity_agent::event::{Event, EventKind};
use identity_agent::keys::KeyMaterial;
use identity_agent::registry::{
    get_current_kel, incept_aid, incept_with_keys, rotate_aid, rotate_with_keys, sign_payload,
    IdentifierRegistry,
};
use keri_core::signer::CryptoBox;

fn material(current: u8, next: u8) -> KeyMaterial {
    KeyMaterial::assemble(CryptoBox::new().unwrap(), vec![current; 32], vec![next; 32]).unwrap()
}

fn log_of(registry: &IdentifierRegistry, name: &str) -> Vec<String> {
    serde_json::from_str(&get_current_kel(registry, name.to_string()).unwrap()).unwrap()
}

#[test]
fn new_registry_knows_no_name() {
    let registry = IdentifierRegistry::new();
    assert!(!registry.contains(&"alice".to_string()));
    assert_eq!(get_current_kel(&registry, "alice".to_string()), Err(AgentError::NotFound));
}

#[test]
fn missing_name_is_not_found_and_nothing_changes() {
    let mut registry = IdentifierRegistry::new();
    incept_aid(&mut registry, "alice".to_string(), String::new()).unwrap();
    let before = get_current_kel(&registry, "alice".to_string()).unwrap();

    assert_eq!(rotate_aid(&mut registry, "missing".to_string()), Err(AgentError::NotFound));
    assert_eq!(
        rotate_with_keys(&mut registry, "missing".to_string(), material(1, 2)),
        Err(AgentError::NotFound)
    );
    assert_eq!(
        sign_payload(&registry, "missing".to_string(), b"data".to_vec()),
        Err(AgentError::NotFound)
    );
    assert_eq!(get_current_kel(&registry, "missing".to_string()), Err(AgentError::NotFound));

    assert!(!registry.contains(&"missing".to_string()));
    assert!(registry.contains(&"alice".to_string()));
    assert_eq!(get_current_kel(&registry, "alice".to_string()).unwrap(), before);
}

#[test]
fn inception_is_a_function_of_the_key_material() {
    let mut first = IdentifierRegistry::new();
    let mut second = IdentifierRegistry::new();
    let one = incept_with_keys(&mut first, "alice".to_string(), material(7, 9)).unwrap();
    let two = incept_with_keys(&mut second, "bob".to_string(), material(7, 9)).unwrap();
    assert_eq!(one, two);

    let other_next = incept_with_keys(&mut second, "carol".to_string(), material(7, 10)).unwrap();
    assert_ne!(other_next.aid, one.aid);
    let other_current = incept_with_keys(&mut second, "dave".to_string(), material(8, 9)).unwrap();
    assert_ne!(other_current.aid, one.aid);
}

#[test]
fn inception_result_holds_prefix_key_and_event() {
    let mut registry = IdentifierRegistry::new();
    let result = incept_with_keys(&mut registry, "alice".to_string(), material(7, 9)).unwrap();
    assert_eq!(result.public_key, base64::encode(vec![7u8; 32]));
    let event: serde_json::Value = serde_json::from_str(&result.kel).unwrap();
    assert_eq!(event["t"].as_str(), Some("icp"));
    assert_eq!(event["i"].as_str(), Some(result.aid.as_str()));
    assert_eq!(event["d"].as_str(), Some(result.aid.as_str()));
    assert_eq!(event["s"].as_str(), Some("0"));
    assert_eq!(event["kt"].as_str(), Some("1"));
    assert_eq!(event["nt"].as_str(), Some("1"));
    assert_eq!(event["k"].as_array().unwrap().len(), 1);
    assert_eq!(event["n"].as_array().unwrap().len(), 1);
    assert_eq!(log_of(&registry, "alice"), vec![result.kel.clone()]);
}

#[test]
fn sequence_numbers_follow_the_log() {
    let mut registry = IdentifierRegistry::new();
    let incepted = incept_aid(&mut registry, "alice".to_string(), String::new()).unwrap();
    for round in 1..=12u64 {
        let rotated = rotate_aid(&mut registry, "alice".to_string()).unwrap();
        assert_eq!(rotated.aid, incepted.aid);
        let log = log_of(&registry, "alice");
        assert_eq!(log.len() as u64, round + 1);
        assert_eq!(log[round as usize], rotated.kel);
    }
    let log = log_of(&registry, "alice");
    assert_eq!(log[0], incepted.kel);
    for (place, text) in log.iter().enumerate().skip(1) {
        let record: serde_json::Value = serde_json::from_str(text).unwrap();
        assert_eq!(record["sn"].as_u64(), Some(place as u64));
        assert_eq!(record["type"].as_str(), Some("rot"));
        assert_eq!(record["aid"].as_str(), Some(incepted.aid.as_str()));
    }
}

#[test]
fn rotation_record_is_exact() {
    let mut registry = IdentifierRegistry::new();
    let incepted = incept_with_keys(&mut registry, "alice".to_string(), material(1, 2)).unwrap();
    let rotated = rotate_with_keys(&mut registry, "alice".to_string(), material(2, 4)).unwrap();
    assert_eq!(
        rotated.kel,
        format!(
            "{{\"aid\":\"{}\",\"new_public_key\":\"{}\",\"sn\":1,\"type\":\"rot\"}}",
            incepted.aid,
            base64::encode(vec![2u8; 32])
        )
    );
    assert_eq!(rotated.new_public_key, base64::encode(vec![2u8; 32]));
    assert_eq!(rotated.aid, incepted.aid);
}

#[test]
fn rotation_reveals_the_new_current_key_only() {
    let mut registry = IdentifierRegistry::new();
    incept_with_keys(&mut registry, "alice".to_string(), material(1, 2)).unwrap();
    rotate_with_keys(&mut registry, "alice".to_string(), material(2, 4)).unwrap();
    let log = log_of(&registry, "alice");
    let next_text = base64::encode(vec![4u8; 32]);
    assert!(log[1].contains(&base64::encode(vec![2u8; 32])));
    assert!(!log[1].contains(&next_text));
    assert!(!log[0].contains(&next_text));
}

#[test]
fn signing_uses_the_key_of_the_last_event() {
    let mut registry = IdentifierRegistry::new();
    let incepted = incept_aid(&mut registry, "alice".to_string(), String::new()).unwrap();
    let signed = sign_payload(&registry, "alice".to_string(), b"one".to_vec()).unwrap();
    assert_eq!(signed.public_key, incepted.public_key);
    assert_eq!(base64::decode(&signed.signature).unwrap().len(), 64);

    let rotated = rotate_aid(&mut registry, "alice".to_string()).unwrap();
    assert_ne!(rotated.new_public_key, incepted.public_key);
    let signed = sign_payload(&registry, "alice".to_string(), b"one".to_vec()).unwrap();
    assert_eq!(signed.public_key, rotated.new_public_key);
}

#[test]
fn inception_under_a_used_name_starts_over() {
    let mut registry = IdentifierRegistry::new();
    let first = incept_aid(&mut registry, "alice".to_string(), String::new()).unwrap();
    rotate_aid(&mut registry, "alice".to_string()).unwrap();
    let second = incept_aid(&mut registry, "alice".to_string(), String::new()).unwrap();
    assert_ne!(first.aid, second.aid);
    assert_eq!(log_of(&registry, "alice"), vec![second.kel.clone()]);
}

#[test]
fn names_do_not_touch_each_other() {
    let mut registry = IdentifierRegistry::new();
    let alice = incept_aid(&mut registry, "alice".to_string(), String::new()).unwrap();
    let bob = incept_aid(&mut registry, "bob".to_string(), String::new()).unwrap();
    assert_ne!(alice.aid, bob.aid);
    rotate_aid(&mut registry, "bob".to_string()).unwrap();
    assert_eq!(log_of(&registry, "alice"), vec![alice.kel.clone()]);
    assert_eq!(log_of(&registry, "bob").len(), 2);
    assert_eq!(log_of(&registry, "bob")[0], bob.kel);
}

#[test]
fn derivation_code_has_no_effect() {
    let mut registry = IdentifierRegistry::new();
    let result = incept_aid(&mut registry, "alice".to_string(), "anything".to_string()).unwrap();
    assert!(result.aid.starts_with('E'));
    assert_eq!(result.aid.len(), 44);
}

#[test]
fn exported_log_is_a_pretty_array() {
    let mut registry = IdentifierRegistry::new();
    incept_with_keys(&mut registry, "alice".to_string(), material(1, 2)).unwrap();
    let rotated = rotate_with_keys(&mut registry, "alice".to_string(), material(2, 4)).unwrap();
    let text = get_current_kel(&registry, "alice".to_string()).unwrap();
    assert!(text.starts_with("[\n  \""));
    assert!(text.ends_with("\"\n]"));
    assert_eq!(text, serde_json::to_string_pretty(&log_of(&registry, "alice")).unwrap());
    assert_eq!(log_of(&registry, "alice")[1], rotated.kel);
}

#[test]
fn every_event_stands_at_its_sequence_number() {
    let mut registry = IdentifierRegistry::new();
    let incepted = incept_with_keys(&mut registry, "alice".to_string(), material(1, 2)).unwrap();
    for round in 0..5u8 {
        rotate_with_keys(&mut registry, "alice".to_string(), material(2 + round, 3 + round)).unwrap();
    }
    let events = registry.events(&"alice".to_string()).unwrap();
    assert_eq!(events.len(), 6);
    for (place, event) in events.iter().enumerate() {
        assert_eq!(event.sequence(), place as u64);
        assert_eq!(*event.prefix(), incepted.aid);
        assert_eq!(event.kind(), if place == 0 { EventKind::Inception } else { EventKind::Rotation });
    }
    assert!(registry.events(&"bob".to_string()).is_none());
}

#[test]
fn inception_commits_to_the_next_key_without_showing_it() {
    let mut registry = IdentifierRegistry::new();
    incept_with_keys(&mut registry, "alice".to_string(), material(1, 2)).unwrap();
    let events = registry.events(&"alice".to_string()).unwrap();
    match &events[0] {
        Event::Inception { keys, signing_threshold, commitment, .. } => {
            assert_eq!(*keys, vec![vec![1u8; 32]]);
            assert_eq!(*signing_threshold, 1);
            assert_eq!(commitment.threshold, 1);
            assert_eq!(commitment.digests.len(), 1);
            assert!(commitment.binds(&vec![2u8; 32]));
            assert!(!commitment.binds(&vec![1u8; 32]));
        }
        Event::Rotation { .. } => panic!("a log starts with the inception"),
    }
}

#[test]
fn rotation_shows_the_key_that_was_next() {
    let mut registry = IdentifierRegistry::new();
    let incepted = incept_aid(&mut registry, "alice".to_string(), String::new()).unwrap();
    let mut current = incepted.public_key.clone();
    for _ in 0..4 {
        let events = registry.events(&"alice".to_string()).unwrap();
        assert_eq!(events.len(), log_of(&registry, "alice").len());
        let rotated = rotate_aid(&mut registry, "alice".to_string()).unwrap();
        assert_ne!(rotated.new_public_key, current);
        let signed = sign_payload(&registry, "alice".to_string(), b"after".to_vec()).unwrap();
        assert_eq!(signed.public_key, rotated.new_public_key);
        current = rotated.new_public_key;
    }
}

#[test]
fn first_rotation_shows_the_key_that_the_inception_committed_to() {
    let mut registry = IdentifierRegistry::new();
    incept_aid(&mut registry, "alice".to_string(), String::new()).unwrap();
    let rotated = rotate_aid(&mut registry, "alice".to_string()).unwrap();
    let shown = base64::decode(&rotated.new_public_key).unwrap();
    let events = registry.events(&"alice".to_string()).unwrap();
    match &events[0] {
        Event::Inception { commitment, keys, .. } => {
            assert!(commitment.binds(&shown));
            assert!(!keys.contains(&shown));
        }
        Event::Rotation { .. } => panic!("a log starts with the inception"),
    }
    assert!(events[1].shows(&shown));
    assert!(!events[0].shows(&shown));
}

#[test]
fn rotation_to_a_key_that_is_not_the_next_key_is_refused() {
    let mut registry = IdentifierRegistry::new();
    incept_with_keys(&mut registry, "alice".to_string(), material(1, 2)).unwrap();
    let before = get_current_kel(&registry, "alice".to_string()).unwrap();
    for (current, next) in [(3u8, 4u8), (1, 2), (1, 5), (0, 2)] {
        assert_eq!(
            rotate_with_keys(&mut registry, "alice".to_string(), material(current, next)),
            Err(AgentError::CommitmentMismatch)
        );
        assert_eq!(get_current_kel(&registry, "alice".to_string()).unwrap(), before);
    }
    assert!(rotate_with_keys(&mut registry, "alice".to_string(), material(2, 9)).is_ok());
    assert_eq!(log_of(&registry, "alice").len(), 2);
}

#[test]
fn rotation_to_a_key_that_an_event_has_shown_is_refused() {
    let mut registry = IdentifierRegistry::new();
    incept_with_keys(&mut registry, "same".to_string(), material(1, 1)).unwrap();
    assert_eq!(
        rotate_with_keys(&mut registry, "same".to_string(), material(1, 2)),
        Err(AgentError::CommitmentMismatch)
    );
    assert_eq!(log_of(&registry, "same").len(), 1);

    incept_with_keys(&mut registry, "alice".to_string(), material(1, 2)).unwrap();
    rotate_with_keys(&mut registry, "alice".to_string(), material(2, 1)).unwrap();
    let before = get_current_kel(&registry, "alice".to_string()).unwrap();
    assert_eq!(
        rotate_with_keys(&mut registry, "alice".to_string(), material(1, 3)),
        Err(AgentError::CommitmentMismatch)
    );
    assert_eq!(get_current_kel(&registry, "alice".to_string()).unwrap(), before);
    assert_eq!(log_of(&registry, "alice").len(), 2);
}

#[test]
fn no_key_is_shown_by_two_events() {
    let mut registry = IdentifierRegistry::new();
    incept_aid(&mut registry, "alice".to_string(), String::new()).unwrap();
    for _ in 0..6 {
        rotate_aid(&mut registry, "alice".to_string()).unwrap();
    }
    let events = registry.events(&"alice".to_string()).unwrap();
    let mut shown: Vec<Vec<u8>> = Vec::new();
    for event in events.iter() {
        let keys = match event {
            Event::Inception { keys, .. } => keys,
            Event::Rotation { keys, .. } => keys,
        };
        assert_eq!(keys.len(), 1);
        assert!(!shown.contains(&keys[0]));
        shown.push(keys[0].clone());
    }
    assert_eq!(shown.len(), 7);
}
