//! The wire protocol of the event log, written down as an encoder: how a
//! known set of (address, topics, payload) events becomes a raw record
//! stream, and the proof that reconstruction recovers exactly that set,
//! in emission order, with reserved system addresses filtered out.

use vstd::prelude::*;

use crate::events::EventView;
use crate::events::RawRecord;
use crate::events::chunk_return_data;
use crate::events::record_view;
use crate::events::record_views;
use crate::events::record_wf;
use crate::events::Pending;
use crate::events::RawEvent;
use crate::events::RecordView;
use crate::events::chunk_words;
use crate::events::consume_field;
use crate::events::finish_raw_event;
use crate::events::finish_raw_events;
use crate::events::flush;
use crate::events::keeps_raw_event;
use crate::events::merge_events_spec;
use crate::events::pending_complete;
use crate::events::raw_of;
use crate::events::reconstruct;
use crate::events::run;
use crate::events::start_pending;
use crate::events::step;
use crate::words::Address;
use crate::words::Word;
use crate::words::address_into_u256;
use crate::words::address_to_word;
use crate::words::copy_bytes;
use crate::words::is_word;
use crate::words::views_of;
use crate::words::word_zero;
use crate::words::zero_vec;
use crate::words::be_u32_at;
use crate::words::is_address;
use crate::words::is_reserved_system_address;
use crate::words::word_low_address;
use crate::words::zero_bytes;

verus! {

/// One event to encode: the emitting address, the topics beyond the
/// implicit address topic, and the payload bytes.
#[verifier::ext_equal]
pub ghost struct SourceView {
    pub address: Seq<u8>,
    pub topics: Seq<Seq<u8>>,
    pub data: Seq<u8>,
}

/// An encodable event: a 20-byte address, and topic and payload counts
/// that fit the key's two 32-bit header fields.
pub open spec fn source_view_wf(e: SourceView) -> bool {
    &&& is_address(e.address)
    &&& e.topics.len() + 1 <= 0xFFFF_FFFF
    &&& e.data.len() <= 0xFFFF_FFFF
}

/// The key of a first record: bytes 24 .. 28 hold the payload byte
/// length and bytes 28 .. 32 the declared topic count, both big-endian.
pub open spec fn key_bytes_of(topic_count: u32, data_len: u32) -> Seq<u8> {
    zero_bytes(24).push((data_len >> 24) as u8).push((data_len >> 16) as u8).push(
        (data_len >> 8) as u8,
    ).push(data_len as u8).push((topic_count >> 24) as u8).push((topic_count >> 16) as u8).push(
        (topic_count >> 8) as u8,
    ).push(topic_count as u8)
}

/// The key's two header fields read back as written.
pub proof fn lemma_key_bytes_unpack(topic_count: u32, data_len: u32)
    ensures
        be_u32_at(key_bytes_of(topic_count, data_len), 28) == topic_count,
        be_u32_at(key_bytes_of(topic_count, data_len), 24) == data_len,
        key_bytes_of(topic_count, data_len).len() == 32,
{
    let key = key_bytes_of(topic_count, data_len);
    assert(key[28] == (topic_count >> 24) as u8);
    assert(key[29] == (topic_count >> 16) as u8);
    assert(key[30] == (topic_count >> 8) as u8);
    assert(key[31] == topic_count as u8);
    assert(key[24] == (data_len >> 24) as u8);
    assert(key[25] == (data_len >> 16) as u8);
    assert(key[26] == (data_len >> 8) as u8);
    assert(key[27] == data_len as u8);
    assert(((topic_count >> 24) as u8 as u32) * 0x1000000 + ((topic_count >> 16) as u8 as u32)
        * 0x10000 + ((topic_count >> 8) as u8 as u32) * 0x100 + (topic_count as u8 as u32)
        == topic_count) by (bit_vector);
    assert(((data_len >> 24) as u8 as u32) * 0x1000000 + ((data_len >> 16) as u8 as u32) * 0x10000
        + ((data_len >> 8) as u8 as u32) * 0x100 + (data_len as u8 as u32) == data_len)
        by (bit_vector);
}

/// The first record of an event: its key declares the topic count (the
/// implicit address topic included) and the payload length; its value is
/// the address topic.
pub open spec fn first_record_view(shard_id: u8, tx_number: u32, e: SourceView) -> RecordView {
    RecordView {
        shard_id,
        is_first: true,
        tx_number,
        key: key_bytes_of((e.topics.len() + 1) as u32, e.data.len() as u32),
        value: address_to_word(e.address),
    }
}

/// The continuation records that carry a field list, two fields per
/// record, an odd trailing field padded with a zero word.
pub open spec fn pack_pairs(shard_id: u8, tx_number: u32, fields: Seq<Seq<u8>>) -> Seq<RecordView>
    decreases fields.len(),
{
    if fields.len() == 0 {
        Seq::empty()
    } else if fields.len() == 1 {
        seq![
            RecordView {
                shard_id,
                is_first: false,
                tx_number,
                key: fields[0],
                value: zero_bytes(32),
            },
        ]
    } else {
        seq![
            RecordView { shard_id, is_first: false, tx_number, key: fields[0], value: fields[1] },
        ] + pack_pairs(shard_id, tx_number, fields.skip(2))
    }
}

/// The whole encoding of one event: the first record, then the extra
/// topics and the payload chunks packed pairwise.
pub open spec fn encode_event_views(shard_id: u8, tx_number: u32, e: SourceView) -> Seq<
    RecordView,
> {
    seq![first_record_view(shard_id, tx_number, e)] + pack_pairs(
        shard_id,
        tx_number,
        e.topics + chunk_words(e.data),
    )
}

/// The encoding of an event list, in order.
pub open spec fn encode_events_views(shard_id: u8, tx_number: u32, events: Seq<SourceView>) -> Seq<
    RecordView,
>
    decreases events.len(),
{
    if events.len() == 0 {
        Seq::empty()
    } else {
        encode_event_views(shard_id, tx_number, events[0]) + encode_events_views(
            shard_id,
            tx_number,
            events.drop_first(),
        )
    }
}

/// The raw event an encoded source event reconstructs to.
pub open spec fn source_raw(e: SourceView) -> RawEvent {
    RawEvent { topics: seq![address_to_word(e.address)] + e.topics, data: e.data }
}

/// The raw events of an encoded list, in order.
pub open spec fn source_raws(events: Seq<SourceView>) -> Seq<RawEvent> {
    events.map_values(|e: SourceView| source_raw(e))
}

/// What reconstruction of an encoded list must yield after address
/// extraction: each event under its address with its payload chunked,
/// events at reserved system addresses absent.
pub open spec fn expected_views(events: Seq<SourceView>) -> Seq<EventView>
    decreases events.len(),
{
    if events.len() == 0 {
        Seq::empty()
    } else {
        let rest = expected_views(events.drop_first());
        if !is_reserved_system_address(events[0].address) {
            seq![
                EventView {
                    address: events[0].address,
                    topics: events[0].topics,
                    values: chunk_words(events[0].data),
                },
            ] + rest
        } else {
            rest
        }
    }
}

/// One event to encode, as values.
pub struct SourceEvent {
    /// The emitting address.
    pub address: Address,
    /// The topics beyond the implicit address topic.
    pub topics: Vec<Word>,
    /// The payload bytes.
    pub data: Vec<u8>,
}

/// The view of one source event.
pub open spec fn source_view(e: SourceEvent) -> SourceView {
    SourceView { address: e.address@, topics: views_of(e.topics@), data: e.data@ }
}

/// The views of a source event list.
pub open spec fn source_views(s: Seq<SourceEvent>) -> Seq<SourceView> {
    s.map_values(|e: SourceEvent| source_view(e))
}

/// An encodable source event whose topics are 256-bit words.
pub open spec fn source_event_wf(e: SourceEvent) -> bool {
    &&& source_view_wf(source_view(e))
    &&& forall|i: int| 0 <= i < e.topics@.len() ==> is_word(#[trigger] e.topics@[i]@)
}

/// Encodes a known event list into the raw record stream the VM would
/// emit for it: per event one first record declaring the topic count and
/// payload length and carrying the address topic, then the remaining
/// topics and the payload chunks packed two fields per record.
pub fn encode_events(shard_id: u8, tx_number: u32, events: &Vec<SourceEvent>) -> (r: Vec<
    RawRecord,
>)
    requires
        forall|i: int| 0 <= i < events@.len() ==> source_event_wf(#[trigger] events@[i]),
    ensures
        record_views(r@) == encode_events_views(shard_id, tx_number, source_views(events@)),
        forall|i: int| 0 <= i < r@.len() ==> record_wf(#[trigger] r@[i]),
{
    let ghost svs = source_views(events@);
    let mut r: Vec<RawRecord> = Vec::new();
    let mut i: usize = 0;
    proof {
        assert(svs.skip(0) =~= svs);
        assert(record_views(r@) =~= Seq::<RecordView>::empty());
        assert(record_views(r@) + encode_events_views(shard_id, tx_number, svs.skip(0))
            =~= encode_events_views(shard_id, tx_number, svs));
    }
    while i < events.len()
        invariant
            i <= events@.len(),
            svs == source_views(events@),
            forall|k: int| 0 <= k < events@.len() ==> source_event_wf(#[trigger] events@[k]),
            forall|k: int| 0 <= k < r@.len() ==> record_wf(#[trigger] r@[k]),
            encode_events_views(shard_id, tx_number, svs) == record_views(r@)
                + encode_events_views(shard_id, tx_number, svs.skip(i as int)),
        decreases events.len() - i,
    {
        let ghost tail = svs.skip(i as int);
        let ghost sv = svs[i as int];
        proof {
            assert(tail[0] == sv);
            assert(tail.drop_first() =~= svs.skip(i as int + 1));
            assert(encode_events_views(shard_id, tx_number, tail) == encode_event_views(
                shard_id,
                tx_number,
                sv,
            ) + encode_events_views(shard_id, tx_number, svs.skip(i as int + 1)));
        }
        let ghost r0 = record_views(r@);
        let topic_count: u32 = (events[i].topics.len() + 1) as u32;
        let data_len: u32 = events[i].data.len() as u32;
        let mut key = zero_vec(24);
        key.push(#[verifier::truncate] ((data_len >> 24) as u8));
        key.push(#[verifier::truncate] ((data_len >> 16) as u8));
        key.push(#[verifier::truncate] ((data_len >> 8) as u8));
        key.push(#[verifier::truncate] (data_len as u8));
        key.push(#[verifier::truncate] ((topic_count >> 24) as u8));
        key.push(#[verifier::truncate] ((topic_count >> 16) as u8));
        key.push(#[verifier::truncate] ((topic_count >> 8) as u8));
        key.push(#[verifier::truncate] (topic_count as u8));
        assert(key@ =~= key_bytes_of(topic_count, data_len));
        let value = address_into_u256(&events[i].address);
        let rec = RawRecord { shard_id, is_first: true, tx_number, key, value };
        proof {
            assert(record_views(r@.push(rec)) =~= record_views(r@).push(record_view(rec)));
            assert(record_view(rec) =~= first_record_view(shard_id, tx_number, sv));
        }
        r.push(rec);
        let mut fields: Vec<Word> = Vec::new();
        let mut t: usize = 0;
        while t < events[i].topics.len()
            invariant
                i < events@.len(),
                t <= events@[i as int].topics@.len(),
                forall|k: int| 0 <= k < events@.len() ==> source_event_wf(#[trigger] events@[k]),
                views_of(fields@) =~= views_of(events@[i as int].topics@).take(t as int),
                forall|k: int| 0 <= k < fields@.len() ==> is_word(#[trigger] fields@[k]@),
            decreases events@[i as int].topics@.len() - t,
        {
            let w = copy_bytes(&events[i].topics[t]);
            proof {
                assert(views_of(fields@.push(w)) =~= views_of(fields@).push(w@));
            }
            fields.push(w);
            assert(views_of(fields@) =~= views_of(events@[i as int].topics@).take(t as int + 1));
            t = t + 1;
        }
        assert(views_of(fields@) =~= views_of(events@[i as int].topics@));
        let mut chunks = chunk_return_data(&events[i].data);
        let ghost fields0 = fields@;
        let ghost chunks0 = chunks@;
        fields.append(&mut chunks);
        let ghost fv = sv.topics + chunk_words(sv.data);
        proof {
            assert(views_of(fields@) =~= views_of(fields0) + views_of(chunks0));
            assert(views_of(fields@) =~= fv);
        }
        let ghost packed = pack_pairs(shard_id, tx_number, fv);
        let ghost r1 = record_views(r@);
        let mut j: usize = 0;
        proof {
            assert(fv.skip(0) =~= fv);
            assert(packed.skip(0) =~= packed);
            assert(packed.take(0) =~= Seq::<RecordView>::empty());
            assert(record_views(r@) =~= r1 + packed.take(0));
        }
        while j + 1 < fields.len()
            invariant
                j <= fields@.len(),
                j % 2 == 0,
                j / 2 <= packed.len(),
                views_of(fields@) == fv,
                forall|k: int| 0 <= k < fields@.len() ==> is_word(#[trigger] fields@[k]@),
                forall|k: int| 0 <= k < r@.len() ==> record_wf(#[trigger] r@[k]),
                record_views(r@) =~= r1 + packed.take(((j / 2)) as int),
                packed == pack_pairs(shard_id, tx_number, fv),
                pack_pairs(shard_id, tx_number, fv.skip(j as int)) =~= packed.skip(
                    ((j / 2)) as int,
                ),
            decreases fields.len() - j,
        {
            let ghost ftail = fv.skip(j as int);
            proof {
                assert(ftail[0] == fv[j as int]);
                assert(ftail[1] == fv[j as int + 1]);
                assert(ftail.skip(2) =~= fv.skip(j as int + 2));
            }
            let key = copy_bytes(&fields[j]);
            let value = copy_bytes(&fields[j + 1]);
            let rec = RawRecord { shard_id, is_first: false, tx_number, key, value };
            proof {
                assert(record_views(r@.push(rec)) =~= record_views(r@).push(record_view(rec)));
                assert(pack_pairs(shard_id, tx_number, ftail) == seq![record_view(rec)]
                    + pack_pairs(shard_id, tx_number, ftail.skip(2)));
                assert(packed.skip((j / 2) as int)[0] == record_view(rec));
                assert(packed.skip((j / 2) as int).skip(1) =~= packed.skip((j / 2) as int + 1));
                assert(packed.take((j / 2) as int).push(record_view(rec)) =~= packed.take(
                    (j / 2) as int + 1,
                ));
            }
            r.push(rec);
            proof {
                assert(pack_pairs(shard_id, tx_number, ftail).skip(1) =~= pack_pairs(
                    shard_id,
                    tx_number,
                    ftail.skip(2),
                ));
            }
            j = j + 2;
        }
        if j < fields.len() {
            let ghost ftail = fv.skip(j as int);
            proof {
                assert(ftail.len() == 1);
                assert(ftail[0] == fv[j as int]);
            }
            let key = copy_bytes(&fields[j]);
            let value = word_zero();
            let rec = RawRecord { shard_id, is_first: false, tx_number, key, value };
            proof {
                assert(record_views(r@.push(rec)) =~= record_views(r@).push(record_view(rec)));
                assert(pack_pairs(shard_id, tx_number, ftail) =~= seq![record_view(rec)]);
                assert(packed.skip((j / 2) as int) =~= seq![record_view(rec)]);
                assert(packed.skip((j / 2) as int).len() == 1);
                assert(packed.len() == j / 2 + 1);
                assert(packed.skip((j / 2) as int)[0] == packed[(j / 2) as int]);
                assert(packed[(j / 2) as int] == record_view(rec));
                assert(packed.take((j / 2) as int).push(record_view(rec)) =~= packed);
            }
            r.push(rec);
            assert(record_views(r@) =~= r1 + packed);
        } else {
            proof {
                assert(fv.skip(j as int) =~= Seq::<Seq<u8>>::empty());
                assert(packed.skip((j / 2) as int) =~= Seq::<RecordView>::empty());
                assert(packed.take((j / 2) as int) =~= packed);
                assert(record_views(r@) =~= r1 + packed);
            }
        }
        proof {
            assert(r1 =~= r0.push(first_record_view(shard_id, tx_number, sv)));
            assert(record_views(r@) =~= r0 + encode_event_views(shard_id, tx_number, sv));
            assert((r0 + encode_event_views(shard_id, tx_number, sv)) + encode_events_views(
                shard_id,
                tx_number,
                svs.skip(i as int + 1),
            ) =~= r0 + (encode_event_views(shard_id, tx_number, sv) + encode_events_views(
                shard_id,
                tx_number,
                svs.skip(i as int + 1),
            )));
        }
        i = i + 1;
    }
    proof {
        assert(svs.skip(i as int) =~= Seq::<SourceView>::empty());
        assert(record_views(r@) =~= record_views(r@) + encode_events_views(
            shard_id,
            tx_number,
            svs.skip(i as int),
        ));
    }
    r
}

/// The fold distributes over concatenation of record streams.
proof fn lemma_run_concat(
    a: Seq<RecordView>,
    b: Seq<RecordView>,
    cur: Option<Pending>,
    done: Seq<RawEvent>,
)
    ensures
        run(a + b, cur, done) == run(b, run(a, cur, done).0, run(a, cur, done).1),
    decreases a.len(),
{
    if a.len() == 0 {
        assert(a + b =~= b);
    } else {
        assert((a + b)[0] == a[0]);
        assert((a + b).drop_first() =~= a.drop_first() + b);
        let next = step(cur, done, a[0]);
        lemma_run_concat(a.drop_first(), b, next.0, next.1);
    }
}

/// Feeding exactly the outstanding topics and payload chunks, packed
/// pairwise, completes the in-progress event and emits it.
proof fn lemma_run_fields(
    shard_id: u8,
    tx_number: u32,
    p: Pending,
    topics: Seq<Seq<u8>>,
    d: Seq<u8>,
    done: Seq<RawEvent>,
)
    requires
        p.shard_id == shard_id,
        p.tx_number == tx_number,
        topics.len() == p.rem_topics,
        d.len() == p.rem_len,
        !pending_complete(p),
    ensures
        run(pack_pairs(shard_id, tx_number, topics + chunk_words(d)), Some(p), done) == (
        None::<Pending>,
        done.push(RawEvent { topics: p.topics + topics, data: p.data + d }),
        ),
    decreases topics.len() + d.len(),
{
    let fields = topics + chunk_words(d);
    assert(fields.len() >= 1);
    let f0 = fields[0];
    let records = pack_pairs(shard_id, tx_number, fields);
    let f1 = if fields.len() == 1 {
        zero_bytes(32)
    } else {
        fields[1]
    };
    assert(records[0] == RecordView {
        shard_id,
        is_first: false,
        tx_number,
        key: f0,
        value: f1,
    });
    let q1 = consume_field(p, f0);
    let q2 = consume_field(q1, f1);
    assert(run(records, Some(p), done) == run(
        records.drop_first(),
        step(Some(p), done, records[0]).0,
        step(Some(p), done, records[0]).1,
    ));
    if topics.len() >= 2 {
        assert(f0 == topics[0]);
        assert(f1 == topics[1]);
        assert(q2.topics =~= p.topics + topics.take(2));
        if topics.len() == 2 && d.len() == 0 {
            assert(pending_complete(q2));
            assert(fields.skip(2) =~= Seq::<Seq<u8>>::empty());
            assert(records.drop_first() =~= pack_pairs(shard_id, tx_number, fields.skip(2)));
            assert(q2.topics =~= p.topics + topics);
            assert(q2.data =~= p.data + d);
        } else {
            assert(!pending_complete(q2));
            assert(fields.skip(2) =~= topics.skip(2) + chunk_words(d));
            assert(records.drop_first() =~= pack_pairs(shard_id, tx_number, fields.skip(2)));
            lemma_run_fields(shard_id, tx_number, q2, topics.skip(2), d, done);
            assert(q2.topics + topics.skip(2) =~= p.topics + topics);
            assert(q2.data + d =~= p.data + d);
        }
    } else if topics.len() == 1 {
        assert(f0 == topics[0]);
        assert(q1.topics =~= p.topics + topics);
        if d.len() == 0 {
            assert(fields.len() == 1);
            assert(pending_complete(q1));
            assert(q2 == q1);
            assert(records.drop_first() =~= Seq::<RecordView>::empty());
            assert(q2.data =~= p.data + d);
        } else {
            assert(chunk_words(d).len() >= 1);
            assert(fields.len() >= 2);
            assert(f1 == chunk_words(d)[0]);
            if d.len() >= 32 {
                assert(f1 == d.take(32));
                assert(f1.take(32) =~= d.take(32));
                assert(q2.data =~= p.data + d.take(32));
                if d.len() == 32 {
                    assert(pending_complete(q2));
                    assert(chunk_words(d.skip(32)) =~= Seq::<Seq<u8>>::empty());
                    assert(fields.skip(2) =~= Seq::<Seq<u8>>::empty());
                    assert(records.drop_first() =~= pack_pairs(
                        shard_id,
                        tx_number,
                        fields.skip(2),
                    ));
                    assert(q2.data =~= p.data + d);
                    assert(q2.topics =~= p.topics + topics);
                } else {
                    assert(!pending_complete(q2));
                    assert(fields.skip(2) =~= Seq::<Seq<u8>>::empty() + chunk_words(d.skip(32)));
                    assert(records.drop_first() =~= pack_pairs(
                        shard_id,
                        tx_number,
                        fields.skip(2),
                    ));
                    lemma_run_fields(
                        shard_id,
                        tx_number,
                        q2,
                        Seq::empty(),
                        d.skip(32),
                        done,
                    );
                    assert(q2.topics + Seq::<Seq<u8>>::empty() =~= p.topics + topics);
                    assert(q2.data + d.skip(32) =~= p.data + d);
                }
            } else {
                assert(f1 == d + zero_bytes((32 - d.len()) as nat));
                assert(f1.take(d.len() as int) =~= d);
                assert(q2.data =~= p.data + d);
                assert(pending_complete(q2));
                assert(fields =~= seq![topics[0], f1]);
                assert(fields.skip(2) =~= Seq::<Seq<u8>>::empty());
                assert(records.drop_first() =~= pack_pairs(shard_id, tx_number, fields.skip(2)));
                assert(records.drop_first() =~= Seq::<RecordView>::empty());
                assert(q2.topics =~= p.topics + topics);
            }
        }
    } else {
        assert(d.len() > 0);
        assert(topics =~= Seq::<Seq<u8>>::empty());
        assert(fields =~= chunk_words(d));
        assert(f0 == chunk_words(d)[0]);
        if d.len() <= 32 {
            if d.len() == 32 {
                assert(d.skip(32) =~= Seq::<u8>::empty());
                assert(chunk_words(d.skip(32)) =~= Seq::<Seq<u8>>::empty());
                assert(chunk_words(d) =~= seq![d.take(32)]);
                assert(f0 == d.take(32));
                assert(f0.take(32) =~= d);
            } else {
                assert(f0 == d + zero_bytes((32 - d.len()) as nat));
                assert(f0.take(d.len() as int) =~= d);
            }
            assert(q1.data =~= p.data + d);
            assert(pending_complete(q1));
            assert(q2 == q1);
            assert(fields.len() == 1);
            assert(records.drop_first() =~= Seq::<RecordView>::empty());
            assert(q2.topics =~= p.topics + topics);
        } else {
            assert(f0 == d.take(32));
            assert(f0.take(32) =~= d.take(32));
            assert(q1.data =~= p.data + d.take(32));
            assert(!pending_complete(q1));
            assert(chunk_words(d) =~= seq![d.take(32)] + chunk_words(d.skip(32)));
            assert(fields.len() >= 2);
            assert(f1 == chunk_words(d.skip(32))[0]);
            let d2 = d.skip(32);
            if d2.len() >= 32 {
                assert(f1 == d2.take(32));
                assert(f1.take(32) =~= d2.take(32));
                assert(q2.data =~= p.data + d.take(32) + d2.take(32));
                if d2.len() == 32 {
                    assert(pending_complete(q2));
                    assert(d2.skip(32) =~= Seq::<u8>::empty());
                    assert(chunk_words(d2.skip(32)) =~= Seq::<Seq<u8>>::empty());
                    assert(chunk_words(d2) =~= seq![d2.take(32)]);
                    assert(fields =~= seq![d.take(32), d2.take(32)]);
                    assert(fields.skip(2) =~= Seq::<Seq<u8>>::empty());
                    assert(records.drop_first() =~= pack_pairs(
                        shard_id,
                        tx_number,
                        fields.skip(2),
                    ));
                    assert(q2.data =~= p.data + d);
                    assert(q2.topics =~= p.topics + topics);
                } else {
                    assert(!pending_complete(q2));
                    assert(d2.skip(32) =~= d.skip(64));
                    assert(fields.skip(2) =~= Seq::<Seq<u8>>::empty() + chunk_words(d.skip(64)));
                    assert(records.drop_first() =~= pack_pairs(
                        shard_id,
                        tx_number,
                        fields.skip(2),
                    ));
                    lemma_run_fields(
                        shard_id,
                        tx_number,
                        q2,
                        Seq::empty(),
                        d.skip(64),
                        done,
                    );
                    assert(q2.topics + Seq::<Seq<u8>>::empty() =~= p.topics + topics);
                    assert(q2.data + d.skip(64) =~= p.data + d);
                }
            } else {
                assert(f1 == d2 + zero_bytes((32 - d2.len()) as nat));
                assert(f1.take(d2.len() as int) =~= d2);
                assert(q2.data =~= p.data + d.take(32) + d2);
                assert(q2.data =~= p.data + d);
                assert(pending_complete(q2));
                assert(chunk_words(d2) =~= seq![f1]);
                assert(fields =~= seq![d.take(32), f1]);
                assert(fields.skip(2) =~= Seq::<Seq<u8>>::empty());
                assert(records.drop_first() =~= pack_pairs(shard_id, tx_number, fields.skip(2)));
                assert(records.drop_first() =~= Seq::<RecordView>::empty());
                assert(q2.topics =~= p.topics + topics);
            }
        }
    }
}

/// Running one encoded event from any state flushes what was pending and
/// leaves exactly that event's raw form emitted (or complete and ready
/// to flush).
proof fn lemma_run_encoded_event(
    shard_id: u8,
    tx_number: u32,
    e: SourceView,
    cur: Option<Pending>,
    done: Seq<RawEvent>,
)
    requires
        source_view_wf(e),
    ensures
        ({
            let end = run(encode_event_views(shard_id, tx_number, e), cur, done);
            flush(end.0, end.1) == flush(cur, done).push(source_raw(e))
        }),
{
    let enc = encode_event_views(shard_id, tx_number, e);
    let first = first_record_view(shard_id, tx_number, e);
    let fields = e.topics + chunk_words(e.data);
    assert(enc[0] == first);
    assert(enc.drop_first() =~= pack_pairs(shard_id, tx_number, fields));
    lemma_key_bytes_unpack((e.topics.len() + 1) as u32, e.data.len() as u32);
    let p1 = start_pending(shard_id, tx_number, first.key, first.value);
    assert(be_u32_at(first.key, 28) == e.topics.len() + 1);
    assert(be_u32_at(first.key, 24) == e.data.len());
    assert(p1.topics =~= seq![address_to_word(e.address)]);
    assert(p1.rem_topics == e.topics.len());
    assert(p1.rem_len == e.data.len());
    assert(step(cur, done, first) == (Some(p1), flush(cur, done)));
    assert(run(enc, cur, done) == run(enc.drop_first(), Some(p1), flush(cur, done)));
    if e.topics.len() == 0 && e.data.len() == 0 {
        assert(pending_complete(p1));
        assert(chunk_words(e.data) =~= Seq::<Seq<u8>>::empty());
        assert(fields =~= Seq::<Seq<u8>>::empty());
        assert(enc.drop_first() =~= Seq::<RecordView>::empty());
        assert(run(enc, cur, done) == (Some(p1), flush(cur, done)));
        assert(raw_of(p1) =~= source_raw(e));
    } else {
        assert(!pending_complete(p1));
        lemma_run_fields(shard_id, tx_number, p1, e.topics, e.data, flush(cur, done));
        assert(p1.topics + e.topics =~= seq![address_to_word(e.address)] + e.topics);
        assert(p1.data + e.data =~= e.data);
        assert(RawEvent { topics: p1.topics + e.topics, data: p1.data + e.data } =~= source_raw(
            e,
        ));
    }
}

/// Running a whole encoded event list appends exactly the events' raw
/// forms, in order, to whatever a prior state flushes to.
proof fn lemma_run_encoded_events(
    shard_id: u8,
    tx_number: u32,
    events: Seq<SourceView>,
    cur: Option<Pending>,
    done: Seq<RawEvent>,
)
    requires
        forall|i: int| 0 <= i < events.len() ==> source_view_wf(#[trigger] events[i]),
    ensures
        ({
            let end = run(encode_events_views(shard_id, tx_number, events), cur, done);
            flush(end.0, end.1) == flush(cur, done) + source_raws(events)
        }),
    decreases events.len(),
{
    if events.len() == 0 {
        assert(encode_events_views(shard_id, tx_number, events) =~= Seq::<RecordView>::empty());
        assert(source_raws(events) =~= Seq::<RawEvent>::empty());
        assert(flush(cur, done) + source_raws(events) =~= flush(cur, done));
    } else {
        let e0 = events[0];
        let rest = events.drop_first();
        let enc0 = encode_event_views(shard_id, tx_number, e0);
        let enc_rest = encode_events_views(shard_id, tx_number, rest);
        lemma_run_concat(enc0, enc_rest, cur, done);
        let mid = run(enc0, cur, done);
        lemma_run_encoded_event(shard_id, tx_number, e0, cur, done);
        assert(forall|i: int| 0 <= i < rest.len() ==> source_view_wf(#[trigger] rest[i]));
        lemma_run_encoded_events(shard_id, tx_number, rest, mid.0, mid.1);
        assert(source_raws(events) =~= seq![source_raw(e0)] + source_raws(rest));
        assert(flush(cur, done).push(source_raw(e0)) + source_raws(rest) =~= flush(cur, done) + (
        seq![source_raw(e0)] + source_raws(rest)));
    }
}

/// Post-processing the raw forms of encoded events keeps each event at
/// a non-reserved address, with its topics and its payload chunked.
proof fn lemma_finish_source_raws(events: Seq<SourceView>)
    requires
        forall|i: int| 0 <= i < events.len() ==> source_view_wf(#[trigger] events[i]),
    ensures
        finish_raw_events(source_raws(events)) == expected_views(events),
    decreases events.len(),
{
    if events.len() == 0 {
        assert(source_raws(events) =~= Seq::<RawEvent>::empty());
    } else {
        let e0 = events[0];
        let rest = events.drop_first();
        let raws = source_raws(events);
        assert(raws[0] == source_raw(e0));
        assert(raws.drop_first() =~= source_raws(rest));
        assert(forall|i: int| 0 <= i < rest.len() ==> source_view_wf(#[trigger] rest[i]));
        lemma_finish_source_raws(rest);
        assert(source_raw(e0).topics[0] == address_to_word(e0.address));
        assert(word_low_address(address_to_word(e0.address)) =~= e0.address);
        assert(keeps_raw_event(source_raw(e0)) == !is_reserved_system_address(e0.address));
        if keeps_raw_event(source_raw(e0)) {
            assert(source_raw(e0).topics.drop_first() =~= e0.topics);
            assert(finish_raw_event(source_raw(e0)) =~= EventView {
                address: e0.address,
                topics: e0.topics,
                values: chunk_words(e0.data),
            });
        }
    }
}

/// Round trip: a synthetic raw-record stream built from a known set of
/// (address, topics, payload) events, encoded per the wire protocol,
/// reconstructs to exactly that set, in original emission order, except
/// events with a reserved system address, which are absent.
pub proof fn lemma_encode_roundtrip(shard_id: u8, tx_number: u32, events: Seq<SourceView>)
    requires
        forall|i: int| 0 <= i < events.len() ==> source_view_wf(#[trigger] events[i]),
    ensures
        merge_events_spec(encode_events_views(shard_id, tx_number, events)) == expected_views(
            events,
        ),
{
    lemma_run_encoded_events(shard_id, tx_number, events, None, Seq::empty());
    let end = run(encode_events_views(shard_id, tx_number, events), None, Seq::empty());
    assert(reconstruct(encode_events_views(shard_id, tx_number, events)) == flush(end.0, end.1));
    assert(flush(None, Seq::<RawEvent>::empty()) + source_raws(events) =~= source_raws(events));
    lemma_finish_source_raws(events);
}

} // verus!
