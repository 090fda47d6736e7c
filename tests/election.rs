use election::error::ElectionError;
use election::instruction::{CastVote, ElectionInstruction, RegisterVoter};
use election::processor::Processor;
use election::state::{same_key, Election};

fn key(b: u8) -> [u8; 32] {
    [b; 32]
}

fn create_bytes(name: &str, candidates: &[&str]) -> Vec<u8> {
    let mut v = vec![0u8, name.len() as u8];
    v.extend_from_slice(name.as_bytes());
    v.push(candidates.len() as u8);
    for c in candidates {
        v.push(c.len() as u8);
        v.extend_from_slice(c.as_bytes());
    }
    v
}

fn register_bytes(k: [u8; 32]) -> Vec<u8> {
    let mut v = vec![1u8];
    v.extend_from_slice(&k);
    v
}

fn cast_bytes(k: [u8; 32], index: u8) -> Vec<u8> {
    let mut v = vec![2u8];
    v.extend_from_slice(&k);
    v.push(index);
    v
}

fn stored(data: &Vec<u8>) -> Election {
    Election::unpack(data.as_slice()).unwrap()
}

fn sample() -> Election {
    Election {
        name: "Council".to_string(),
        candidates: vec!["Ann".to_string(), "Ben".to_string(), "Cy".to_string()],
        votes: vec![4, 0, 9],
        voters: vec![key(1), key(2)],
    }
}

#[test]
fn round_trip_record() {
    let e = sample();
    let bytes = e.pack().unwrap();
    assert_eq!(Election::unpack(&bytes), Ok(e.clone()));
    let mut longer = bytes.clone();
    longer.extend_from_slice(&[7, 7, 7]);
    assert_eq!(Election::unpack(&longer), Ok(e));
}

#[test]
fn record_layout_is_length_prefixed() {
    let e = Election {
        name: "ab".to_string(),
        candidates: vec!["x".to_string()],
        votes: vec![5],
        voters: vec![],
    };
    let bytes = e.pack().unwrap();
    let expected: Vec<u8> = vec![
        2, 0, 0, 0, b'a', b'b', 1, 0, 0, 0, 1, 0, 0, 0, b'x', 1, 0, 0, 0, 5, 0, 0, 0, 0, 0, 0, 0, 0, 0,
        0, 0,
    ];
    assert_eq!(bytes, expected);
}

#[test]
fn empty_buffer_holds_empty_record() {
    let data = vec![0u8; 64];
    assert_eq!(stored(&data), Election::new());
}

#[test]
fn malformed_records_are_rejected() {
    assert_eq!(Election::unpack(&[]), Err(ElectionError::MalformedRecord));
    assert_eq!(Election::unpack(&[9, 0, 0, 0, b'a']), Err(ElectionError::MalformedRecord));
    // name that is not valid UTF-8
    assert_eq!(
        Election::unpack(&[1, 0, 0, 0, 0xff, 0, 0, 0, 0, 0, 0, 0, 0, 0, 0, 0, 0]),
        Err(ElectionError::MalformedRecord)
    );
    // one candidate but no counters
    let bad = Election { name: String::new(), candidates: vec!["a".to_string()], votes: vec![], voters: vec![] };
    assert_eq!(Election::unpack(&bad.pack().unwrap()), Err(ElectionError::MalformedRecord));
    // the same voter twice
    let dup = Election { name: String::new(), candidates: vec![], votes: vec![], voters: vec![key(3), key(3)] };
    assert_eq!(Election::unpack(&dup.pack().unwrap()), Err(ElectionError::MalformedRecord));
}

#[test]
fn process_reports_malformed_record() {
    let mut data = vec![0xffu8; 40];
    let before = data.clone();
    assert_eq!(Processor::process(&mut data, &create_bytes("A", &["x"])), Err(ElectionError::MalformedRecord));
    assert_eq!(data, before);
}

#[test]
fn create_resets_any_prior_record() {
    let mut data = vec![0u8; 512];
    let prior = sample().pack().unwrap();
    data[..prior.len()].copy_from_slice(&prior);
    assert_eq!(Processor::process(&mut data, &create_bytes("Board", &["P", "Q", "R", "S"])), Ok(()));
    let e = stored(&data);
    assert_eq!(e.name, "Board");
    assert_eq!(e.candidates, vec!["P", "Q", "R", "S"]);
    assert_eq!(e.votes, vec![0, 0, 0, 0]);
    assert!(e.voters.is_empty());
    assert_eq!(data.len(), 512);
}

#[test]
fn create_with_no_candidates() {
    let mut data = vec![0u8; 64];
    assert_eq!(Processor::process(&mut data, &create_bytes("", &[])), Ok(()));
    let e = stored(&data);
    assert!(e.candidates.is_empty());
    assert!(e.votes.is_empty());
}

#[test]
fn register_twice_fails_and_keeps_voters() {
    let mut data = vec![0u8; 256];
    Processor::process(&mut data, &create_bytes("E", &["a"])).unwrap();
    assert_eq!(Processor::process(&mut data, &register_bytes(key(5))), Ok(()));
    let after_first = data.clone();
    assert_eq!(
        Processor::process(&mut data, &register_bytes(key(5))),
        Err(ElectionError::VoterAlreadyRegistered)
    );
    assert_eq!(data, after_first);
    assert_eq!(stored(&data).voters, vec![key(5)]);
}

#[test]
fn unregistered_vote_fails_and_keeps_votes() {
    let mut data = vec![0u8; 256];
    Processor::process(&mut data, &create_bytes("E", &["a", "b"])).unwrap();
    let before = data.clone();
    assert_eq!(Processor::process(&mut data, &cast_bytes(key(8), 1)), Err(ElectionError::VoterNotRegistered));
    assert_eq!(data, before);
    assert_eq!(stored(&data).votes, vec![0, 0]);
}

#[test]
fn unregistered_check_comes_before_index_check() {
    let mut data = vec![0u8; 256];
    Processor::process(&mut data, &create_bytes("E", &["a"])).unwrap();
    assert_eq!(Processor::process(&mut data, &cast_bytes(key(8), 200)), Err(ElectionError::VoterNotRegistered));
}

#[test]
fn candidate_index_boundary() {
    let mut data = vec![0u8; 256];
    Processor::process(&mut data, &create_bytes("E", &["a", "b"])).unwrap();
    Processor::process(&mut data, &register_bytes(key(1))).unwrap();
    assert_eq!(Processor::process(&mut data, &cast_bytes(key(1), 2)), Err(ElectionError::InvalidCandidateIndex));
    assert_eq!(Processor::process(&mut data, &cast_bytes(key(1), 255)), Err(ElectionError::InvalidCandidateIndex));
    assert_eq!(Processor::process(&mut data, &cast_bytes(key(1), 1)), Ok(()));
    assert_eq!(stored(&data).votes, vec![0, 1]);
}

#[test]
fn votes_count_successful_casts() {
    let mut data = vec![0u8; 512];
    Processor::process(&mut data, &create_bytes("E", &["a", "b", "c"])).unwrap();
    Processor::process(&mut data, &register_bytes(key(1))).unwrap();
    Processor::process(&mut data, &register_bytes(key(2))).unwrap();
    let ballots: [([u8; 32], u8); 7] =
        [(key(1), 0), (key(2), 2), (key(3), 0), (key(1), 2), (key(2), 5), (key(2), 2), (key(1), 0)];
    let mut expected = [0u64; 3];
    for (k, i) in ballots {
        if Processor::process(&mut data, &cast_bytes(k, i)).is_ok() {
            expected[i as usize] += 1;
        }
    }
    assert_eq!(expected, [2, 0, 3]);
    assert_eq!(stored(&data).votes, expected.to_vec());
}

#[test]
fn full_counter_is_not_wrapped() {
    let e = Election { name: "E".to_string(), candidates: vec!["a".to_string()], votes: vec![u64::MAX], voters: vec![key(1)] };
    let mut data = e.pack().unwrap();
    let before = data.clone();
    assert_eq!(Processor::process(&mut data, &cast_bytes(key(1), 0)), Err(ElectionError::TallyOverflow));
    assert_eq!(data, before);
}

#[test]
fn growing_past_capacity_fails() {
    let mut data = vec![0u8; 16];
    assert_eq!(Processor::process(&mut data, &register_bytes(key(4))), Err(ElectionError::CapacityExceeded));
    assert_eq!(data, vec![0u8; 16]);
    let mut exact = vec![0u8; 48];
    assert_eq!(Processor::process(&mut exact, &register_bytes(key(4))), Ok(()));
    assert_eq!(stored(&exact).voters, vec![key(4)]);
}

#[test]
fn store_overwrites_front_only() {
    let mut data = vec![9u8; 5];
    assert_eq!(Processor::store(&mut data, &vec![1, 2]), Ok(()));
    assert_eq!(data, vec![1, 2, 9, 9, 9]);
    assert_eq!(Processor::store(&mut data, &vec![0; 6]), Err(ElectionError::CapacityExceeded));
    assert_eq!(data, vec![1, 2, 9, 9, 9]);
}

#[test]
fn decode_create_election() {
    let i = ElectionInstruction::unpack(&create_bytes("Mayor", &["Alice", "Bob"])).unwrap();
    assert_eq!(
        i,
        ElectionInstruction::CreateElection {
            name: "Mayor".to_string(),
            candidates: vec!["Alice".to_string(), "Bob".to_string()]
        }
    );
}

#[test]
fn decode_ignores_bytes_after_last_candidate() {
    let mut b = create_bytes("N", &["x"]);
    b.extend_from_slice(&[1, 2, 3]);
    assert_eq!(
        ElectionInstruction::unpack(&b),
        Ok(ElectionInstruction::CreateElection { name: "N".to_string(), candidates: vec!["x".to_string()] })
    );
}

#[test]
fn decode_register_and_cast() {
    assert_eq!(
        ElectionInstruction::unpack(&register_bytes(key(7))),
        Ok(ElectionInstruction::RegisterVoter { voter_pubkey: key(7) })
    );
    assert_eq!(
        ElectionInstruction::unpack(&cast_bytes(key(7), 3)),
        Ok(ElectionInstruction::CastVote { voter_pubkey: key(7), candidate_index: 3 })
    );
    assert_eq!(RegisterVoter::unpack(&[4u8; 32]), Some(RegisterVoter { voter_pubkey: key(4) }));
    assert_eq!(RegisterVoter::unpack(&[4u8; 31]), None);
    let mut cv = vec![6u8; 32];
    cv.push(1);
    assert_eq!(CastVote::unpack(&cv), Some(CastVote { voter_pubkey: key(6), candidate_index: 1 }));
    assert_eq!(CastVote::unpack(&[6u8; 32]), None);
}

#[test]
fn decoder_rejects_malformed_input() {
    let bad = ElectionError::InvalidInstructionData;
    assert_eq!(ElectionInstruction::unpack(&[]), Err(bad));
    assert_eq!(ElectionInstruction::unpack(&[3]), Err(bad));
    assert_eq!(ElectionInstruction::unpack(&[0xff, 1, 2]), Err(bad));
    // name length past the end
    assert_eq!(ElectionInstruction::unpack(&[0, 5, b'a', b'b']), Err(bad));
    // name length byte missing
    assert_eq!(ElectionInstruction::unpack(&[0]), Err(bad));
    // candidate count byte missing
    assert_eq!(ElectionInstruction::unpack(&[0, 1, b'a']), Err(bad));
    // more candidates than bytes left
    assert_eq!(ElectionInstruction::unpack(&[0, 1, b'a', 3, 1, b'x']), Err(bad));
    // candidate length past the end
    assert_eq!(ElectionInstruction::unpack(&[0, 1, b'a', 1, 4, b'x']), Err(bad));
    // text that is not UTF-8
    assert_eq!(ElectionInstruction::unpack(&[0, 1, 0xff, 0]), Err(bad));
    assert_eq!(ElectionInstruction::unpack(&[0, 0, 1, 1, 0xc3]), Err(bad));
    // payload lengths of registration and vote
    assert_eq!(ElectionInstruction::unpack(&[1; 32]), Err(bad));
    assert_eq!(ElectionInstruction::unpack(&[1; 34]), Err(bad));
    assert_eq!(ElectionInstruction::unpack(&[2; 33]), Err(bad));
    assert_eq!(ElectionInstruction::unpack(&[2; 35]), Err(bad));
}

#[test]
fn process_rejects_bad_instruction_before_reading_record() {
    let mut data = vec![0xffu8; 8];
    assert_eq!(Processor::process(&mut data, &[7]), Err(ElectionError::InvalidInstructionData));
}

#[test]
fn mayor_election_scenario() {
    let mut data = vec![0u8; 1024];
    assert_eq!(Processor::process(&mut data, &create_bytes("Mayor", &["Alice", "Bob"])), Ok(()));
    let e = stored(&data);
    assert_eq!(e.votes, vec![0, 0]);
    assert!(e.voters.is_empty());
    let v1 = key(0x11);
    let v2 = key(0x22);
    assert_eq!(Processor::process(&mut data, &register_bytes(v1)), Ok(()));
    assert_eq!(stored(&data).voters, vec![v1]);
    assert_eq!(Processor::process(&mut data, &cast_bytes(v1, 0)), Ok(()));
    assert_eq!(stored(&data).votes, vec![1, 0]);
    assert_eq!(Processor::process(&mut data, &cast_bytes(v1, 0)), Ok(()));
    assert_eq!(stored(&data).votes, vec![2, 0]);
    assert_eq!(Processor::process(&mut data, &cast_bytes(v2, 0)), Err(ElectionError::VoterNotRegistered));
    assert_eq!(stored(&data).votes, vec![2, 0]);
}

#[test]
fn apply_on_record_directly() {
    let mut e = Election::new();
    let create = ElectionInstruction::CreateElection { name: "X".to_string(), candidates: vec!["a".to_string()] };
    assert_eq!(Processor::apply(&mut e, create), Ok(()));
    assert_eq!(Processor::register_voter(&mut e, key(2)), Ok(()));
    assert_eq!(Processor::cast_vote(&mut e, key(2), 0), Ok(()));
    assert_eq!(e.votes, vec![1]);
    let mut f = sample();
    Processor::create_election(&mut f, "Y".to_string(), vec!["p".to_string(), "q".to_string()]);
    assert_eq!(f.votes, vec![0, 0]);
    assert!(f.voters.is_empty());
}

#[test]
fn keys_compare_by_every_byte() {
    let a = key(1);
    let mut b = key(1);
    assert!(same_key(&a, &b));
    b[31] = 2;
    assert!(!same_key(&a, &b));
}

#[test]
fn error_codes_are_distinct() {
    let all = [
        ElectionError::InvalidInstruction,
        ElectionError::VoterAlreadyRegistered,
        ElectionError::VoterNotRegistered,
        ElectionError::InvalidCandidateIndex,
        ElectionError::InvalidInstructionData,
        ElectionError::MalformedRecord,
        ElectionError::CapacityExceeded,
        ElectionError::TallyOverflow,
    ];
    for (i, e) in all.iter().enumerate() {
        assert_eq!(e.code(), i as u32);
    }
}

#[test]
fn non_ascii_and_empty_labels_read_back() {
    let mut data = vec![0u8; 256];
    assert_eq!(Processor::process(&mut data, &create_bytes("Bürgermeister", &["", "Zoë", "李"])), Ok(()));
    let e = stored(&data);
    assert_eq!(e.name, "Bürgermeister");
    assert_eq!(e.candidates, vec!["", "Zoë", "李"]);
    assert_eq!(e.votes, vec![0, 0, 0]);
    let packed = e.pack().unwrap();
    assert_eq!(&data[..packed.len()], &packed[..]);
    assert_eq!(Election::unpack(&packed), Ok(e));
}

#[test]
fn equal_inputs_give_equal_buffers() {
    let mut a = vec![0u8; 200];
    let mut b = a.clone();
    for ix in [create_bytes("E", &["a", "b"]), register_bytes(key(3)), cast_bytes(key(3), 1), cast_bytes(key(4), 0)] {
        assert_eq!(Processor::process(&mut a, &ix), Processor::process(&mut b, &ix));
        assert_eq!(a, b);
    }
}
