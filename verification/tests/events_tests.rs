use compiler_tester::encode::{encode_events, SourceEvent};
use compiler_tester::events::{merge_events, chunk_return_data, Event, RawRecord};
use compiler_tester::words::word_zero;

fn word_of(bytes: &[u8]) -> Vec<u8> {
    assert!(bytes.len() <= 32);
    let mut w = vec![0u8; 32 - bytes.len()];
    w.extend_from_slice(bytes);
    w
}

fn key_word(extra_topics: u32, data_len: u32) -> Vec<u8> {
    let mut w = vec![0u8; 32];
    w[24..28].copy_from_slice(&data_len.to_be_bytes());
    w[28..32].copy_from_slice(&extra_topics.to_be_bytes());
    w
}

fn address_word(addr: &[u8; 20]) -> Vec<u8> {
    let mut w = vec![0u8; 12];
    w.extend_from_slice(addr);
    w
}

fn first(shard_id: u8, tx_number: u32, key: Vec<u8>, value: Vec<u8>) -> RawRecord {
    RawRecord { shard_id, is_first: true, tx_number, key, value }
}

fn cont(shard_id: u8, tx_number: u32, key: Vec<u8>, value: Vec<u8>) -> RawRecord {
    RawRecord { shard_id, is_first: false, tx_number, key, value }
}

fn assert_event(e: &Event, address: &[u8; 20], topics: &[Vec<u8>], values: &[Vec<u8>]) {
    assert_eq!(e.address.as_ref().expect("address"), &addr_vec(address));
    assert_eq!(e.topics, topics.to_vec());
    assert_eq!(e.values, values.to_vec());
}

fn addr_vec(a: &[u8; 20]) -> Vec<u8> {
    a.to_vec()
}

fn user_addr(last: u8) -> [u8; 20] {
    let mut a = [0u8; 20];
    a[0] = 0xaa;
    a[19] = last;
    a
}

#[test]
fn single_event_one_topic_no_data() {
    // one declared topic: the address itself; no payload
    let a = user_addr(7);
    let records = vec![first(0, 1, key_word(1, 0), address_word(&a))];
    let events = merge_events(&records);
    assert_eq!(events.len(), 1);
    assert_event(&events[0], &a, &[], &[]);
}

#[test]
fn single_event_topics_and_payload() {
    let a = user_addr(9);
    let t1 = word_of(&[1, 2, 3]);
    let t2 = word_of(&[4, 5]);
    let mut payload = vec![0u8; 40];
    payload[0] = 0x11;
    payload[39] = 0x22;
    // 3 topics in all (address + 2), 40 payload bytes
    let records = vec![
        first(0, 1, key_word(3, 40), address_word(&a)),
        cont(0, 1, t1.clone(), t2.clone()),
        cont(0, 1, payload[0..32].to_vec(), word_of(&payload[32..40])),
    ];
    // the final payload chunk is carried left-aligned in its record
    let mut records = records;
    let mut last_field = payload[32..40].to_vec();
    last_field.resize(32, 0);
    records[2].value = last_field;
    let events = merge_events(&records);
    assert_eq!(events.len(), 1);
    let mut w2 = payload[32..40].to_vec();
    w2.resize(32, 0);
    assert_event(&events[0], &a, &[t1, t2], &[payload[0..32].to_vec(), w2]);
}

#[test]
fn zero_topics_zero_length_record_yields_no_event() {
    // a complete but topicless event has no address topic: dropped
    let records = vec![first(0, 1, key_word(0, 0), word_zero())];
    let events = merge_events(&records);
    assert_eq!(events.len(), 0);
}

#[test]
fn zero_topics_nonzero_length_yields_no_event() {
    // payload-only event: complete, but no address topic to read
    let records = vec![first(0, 1, key_word(0, 16), word_of(&[9u8; 16]))];
    let events = merge_events(&records);
    assert_eq!(events.len(), 0);
}

#[test]
fn incomplete_trailing_event_is_dropped() {
    let a = user_addr(3);
    // two extra topics declared but only the address arrives
    let records = vec![first(0, 1, key_word(3, 0), address_word(&a))];
    let events = merge_events(&records);
    assert_eq!(events.len(), 0);
}

#[test]
fn mismatched_continuation_abandons_event() {
    let a = user_addr(4);
    let records = vec![
        first(0, 1, key_word(2, 0), address_word(&a)),
        // wrong transaction number: dropped, event abandoned
        cont(0, 2, word_of(&[1]), word_of(&[2])),
        // with no event in progress this record is ignored too
        cont(0, 1, word_of(&[3]), word_of(&[4])),
    ];
    let events = merge_events(&records);
    assert_eq!(events.len(), 0);
}

#[test]
fn system_address_events_are_filtered_out() {
    // an address whose bytes beyond the low two are all zero is reserved
    let mut sys = [0u8; 20];
    sys[18] = 0x80;
    sys[19] = 0x02;
    let user = user_addr(5);
    let records = vec![
        first(0, 1, key_word(1, 0), address_word(&sys)),
        first(0, 1, key_word(1, 0), address_word(&user)),
    ];
    let events = merge_events(&records);
    assert_eq!(events.len(), 1);
    assert_event(&events[0], &user, &[], &[]);
}

#[test]
fn two_events_kept_in_emission_order() {
    let a1 = user_addr(1);
    let a2 = user_addr(2);
    let records = vec![
        first(0, 1, key_word(1, 0), address_word(&a1)),
        first(0, 1, key_word(2, 0), address_word(&a2)),
        cont(0, 1, word_of(&[0x55]), word_zero()),
    ];
    let events = merge_events(&records);
    assert_eq!(events.len(), 2);
    assert_event(&events[0], &a1, &[], &[]);
    assert_event(&events[1], &a2, &[word_of(&[0x55])], &[]);
}

#[test]
fn reconstruction_is_idempotent() {
    let a = user_addr(8);
    let records = vec![
        first(0, 1, key_word(2, 5), address_word(&a)),
        cont(0, 1, word_of(&[1, 2]), word_of(&[3, 4, 5, 6, 7])),
    ];
    let once = merge_events(&records);
    let twice = merge_events(&records);
    assert_eq!(once.len(), twice.len());
    for (x, y) in once.iter().zip(twice.iter()) {
        assert_eq!(x.address, y.address);
        assert_eq!(x.topics, y.topics);
        assert_eq!(x.values, y.values);
    }
}

#[test]
fn chunk_return_data_empty() {
    let r = chunk_return_data(&Vec::new());
    assert!(r.is_empty());
}

#[test]
fn chunk_return_data_exact_word() {
    let bytes: Vec<u8> = (0u8..32).collect();
    let r = chunk_return_data(&bytes);
    assert_eq!(r, vec![bytes]);
}

#[test]
fn chunk_return_data_pads_partial_remainder() {
    let mut bytes: Vec<u8> = (0u8..32).collect();
    bytes.extend_from_slice(&[0xde, 0xad]);
    let r = chunk_return_data(&bytes);
    let mut second = vec![0xde, 0xad];
    second.resize(32, 0);
    assert_eq!(r, vec![bytes[0..32].to_vec(), second]);
}

#[test]
fn encode_then_reconstruct_round_trips() {
    let a1 = user_addr(0x31);
    let a2 = user_addr(0x32);
    let mut sys = [0u8; 20];
    sys[19] = 0x06;
    let mut payload: Vec<u8> = (0u8..77).collect();
    payload[0] = 0xfe;
    let sources = vec![
        SourceEvent { address: a1.to_vec(), topics: vec![word_of(&[1]), word_of(&[2])], data: payload.clone() },
        // a reserved system address: must be absent from the output
        SourceEvent { address: sys.to_vec(), topics: vec![], data: vec![] },
        SourceEvent { address: a2.to_vec(), topics: vec![], data: vec![0xab; 3] },
    ];
    let records = encode_events(0, 7, &sources);
    let events = merge_events(&records);
    assert_eq!(events.len(), 2);
    assert_event(
        &events[0],
        &a1,
        &[word_of(&[1]), word_of(&[2])],
        &chunk_return_data(&payload),
    );
    let mut short = vec![0xab; 3];
    short.resize(32, 0);
    assert_event(&events[1], &a2, &[], &[short]);
}
