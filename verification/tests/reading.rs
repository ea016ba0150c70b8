use identity_agent::commitment::{commit, Commitment};
use identity_agent::error::AgentError;
use identity_agent::event::{build_inception, build_rotation, deserialize, serialize, Event};
use identity_agent::registry::{get_current_kel, incept_aid, rotate_aid, IdentifierRegistry};

fn inception(keys: usize, digests: usize, signing: u16, next: u16) -> Event {
    let keys: Vec<Vec<u8>> = (0..keys).map(|i| vec![i as u8 + 1; 32]).collect();
    let digests: Vec<Vec<u8>> = (0..digests).map(|i| vec![i as u8 + 101; 32]).collect();
    build_inception(keys, Commitment { threshold: next, digests }, signing).unwrap()
}

#[test]
fn inception_events_round_trip() {
    for (keys, digests, signing, next) in [
        (1usize, 1usize, 1u16, 1u16),
        (3, 3, 2, 2),
        (2, 1, 10, 255),
        (1, 4, 0, 65535),
        (0, 0, 1, 1),
        (12, 0, 4096, 17),
    ] {
        let event = inception(keys, digests, signing, next);
        let text = serialize(&event).unwrap();
        assert_eq!(deserialize(&text), Ok(event));
    }
}

#[test]
fn committed_inception_round_trips() {
    let event =
        build_inception(vec![vec![7u8; 32]], commit(1, &vec![vec![9u8; 32]]).unwrap(), 1).unwrap();
    let text = serialize(&event).unwrap();
    assert_eq!(deserialize(&text), Ok(event));
}

#[test]
fn rotation_events_round_trip() {
    let event = build_rotation("EBfxc4RiVY6saIFmUfEtETs1FcqmktZW88UkbnOg0Qen".to_string(), vec![vec![3u8; 32]], 4);
    let text = serialize(&event).unwrap();
    assert_eq!(deserialize(&text), Ok(event));
}

#[test]
fn every_entry_of_a_log_reads_back_to_its_event() {
    let mut registry = IdentifierRegistry::new();
    incept_aid(&mut registry, "alice".to_string(), String::new()).unwrap();
    for _ in 0..3 {
        rotate_aid(&mut registry, "alice".to_string()).unwrap();
    }
    let log: Vec<String> =
        serde_json::from_str(&get_current_kel(&registry, "alice".to_string()).unwrap()).unwrap();
    let events = registry.events(&"alice".to_string()).unwrap();
    assert_eq!(log.len(), events.len());
    for (text, event) in log.iter().zip(events.iter()) {
        assert_eq!(deserialize(text).as_ref(), Ok(event));
        assert_eq!(serialize(event).as_ref(), Ok(text));
    }
}

#[test]
fn changed_inception_text_is_refused() {
    let text = serialize(&inception(2, 2, 1, 1)).unwrap();
    assert!(deserialize(&text).is_ok());
    for place in 0..text.len() {
        let mut bytes = text.clone().into_bytes();
        bytes[place] = if bytes[place] == b'A' { b'B' } else { b'A' };
        let changed = String::from_utf8(bytes).unwrap();
        assert_eq!(deserialize(&changed), Err(AgentError::Serialization), "at {}", place);
    }
}

#[test]
fn shortened_and_lengthened_texts_are_refused() {
    let text = serialize(&inception(1, 1, 1, 1)).unwrap();
    for end in 0..text.len() {
        assert_eq!(deserialize(&text[..end]), Err(AgentError::Serialization));
    }
    assert_eq!(deserialize(&format!("{} ", text)), Err(AgentError::Serialization));
    assert_eq!(deserialize(&format!("{}{}", text, text)), Err(AgentError::Serialization));
}

#[test]
fn texts_of_other_shapes_are_refused() {
    for text in [
        "",
        "{}",
        "[]",
        "caf\u{e9}",
        "{\"v\":\"",
        "{\"v\":\"x\",\"t\":\"icp\",\"d\":\"\",\"i\":\"\",\"s\":\"0\",\"kt\":\"1\",\"k\":[\"1\"],\"nt\":\"1\",\"n\":[],\"bt\":\"0\",\"b\":[],\"c\":[],\"a\":[]}",
        "{\"v\":\"x\",\"t\":\"icp\",\"d\":\"\",\"i\":\"\",\"s\":\"0\",\"kt\":\"1\",\"k\":[],\"nt\":\"1\",\"n\":[\"0\"],\"bt\":\"0\",\"b\":[],\"c\":[],\"a\":[]}",
        "{\"v\":\"x\",\"t\":\"icp\",\"d\":\"\",\"i\":\"\",\"s\":\"0\",\"kt\":\"\",\"k\":[],\"nt\":\"1\",\"n\":[],\"bt\":\"0\",\"b\":[],\"c\":[],\"a\":[]}",
        "{\"v\":\"x\",\"t\":\"icp\",\"d\":\"\",\"i\":\"\",\"s\":\"0\",\"kt\":\"ffffffffffffffffff\",\"k\":[],\"nt\":\"1\",\"n\":[],\"bt\":\"0\",\"b\":[],\"c\":[],\"a\":[]}",
        "{\"v\":\"x\",\"t\":\"icp\",\"d\":\"\",\"i\":\"\",\"s\":\"0\",\"kt\":\"10000\",\"k\":[],\"nt\":\"1\",\"n\":[],\"bt\":\"0\",\"b\":[],\"c\":[],\"a\":[]}",
        "{\"v\":\"x\",\"t\":\"icp\",\"d\":\"\",\"i\":\"\",\"s\":\"0\",\"kt\":\"1\",\"k\":[\"D!!!!!!!!!!!!!!!!!!!!!!!!!!!!!!!!!!!!!!!!!!!\"],\"nt\":\"1\",\"n\":[],\"bt\":\"0\",\"b\":[],\"c\":[],\"a\":[]}",
        "{\"v\":\"x\",\"t\":\"icp\",\"d\":\"\",\"i\":\"\",\"s\":\"0\",\"kt\":\"1\",\"k\":[\"DAAAAAAAAAAAAAAAAAAAAAAAAAAAAAAAAAAAAAAAAAAA\",],\"nt\":\"1\",\"n\":[],\"bt\":\"0\",\"b\":[],\"c\":[],\"a\":[]}",
    ] {
        assert_eq!(deserialize(text), Err(AgentError::Serialization), "{}", text);
    }
}

#[test]
fn text_with_witnesses_is_refused() {
    let text = serialize(&inception(1, 1, 1, 1)).unwrap();
    let with_witness = text.replace(
        "\"b\":[]",
        "\"b\":[\"BAAAAAAAAAAAAAAAAAAAAAAAAAAAAAAAAAAAAAAAAAAA\"]",
    );
    assert_ne!(with_witness, text);
    assert_eq!(deserialize(&with_witness), Err(AgentError::Serialization));
}
