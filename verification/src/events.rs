//! Event reconstruction: the VM emits a flat stream of low-level log
//! records; one logical event spans one or more consecutive records that
//! share a shard id and a transaction number. A single sequential fold
//! rebuilds the events, then each complete event's first topic is read as
//! its emitting address, events from reserved system addresses are
//! filtered out, and the payload is chunked into 32-byte words.

use vstd::prelude::*;

use crate::words::Address;
use crate::words::Word;
use crate::words::be_u32_at;
use crate::words::copy_bytes;
use crate::words::is_address;
use crate::words::is_reserved_system_address;
use crate::words::is_word;
use crate::words::views_of;
use crate::words::key_data_length;
use crate::words::key_topic_count;
use crate::words::word_low_address;
use crate::words::zero_bytes;

verus! {

/// One raw log record as the VM emits it.
pub struct RawRecord {
    /// The shard the record belongs to.
    pub shard_id: u8,
    /// Whether the record opens a new logical event.
    pub is_first: bool,
    /// The transaction sequence number.
    pub tx_number: u32,
    /// The record's 256-bit key. In a first record its low 32 bits hold
    /// the number of additional topics and bits 32 .. 64 the total payload
    /// byte length; in a continuation record it is a data field.
    pub key: Word,
    /// The record's 256-bit value.
    pub value: Word,
}

/// Both scalar fields of a record are well-formed words.
pub open spec fn record_wf(r: RawRecord) -> bool {
    is_word(r.key@) && is_word(r.value@)
}

/// The spec-level content of one raw record.
#[verifier::ext_equal]
pub ghost struct RecordView {
    pub shard_id: u8,
    pub is_first: bool,
    pub tx_number: u32,
    pub key: Seq<u8>,
    pub value: Seq<u8>,
}

/// The view of one raw record.
pub open spec fn record_view(r: RawRecord) -> RecordView {
    RecordView {
        shard_id: r.shard_id,
        is_first: r.is_first,
        tx_number: r.tx_number,
        key: r.key@,
        value: r.value@,
    }
}

/// The views of a record stream.
pub open spec fn record_views(s: Seq<RawRecord>) -> Seq<RecordView> {
    s.map_values(|r: RawRecord| record_view(r))
}

/// One structured event.
pub struct Event {
    /// The emitting address; absent only for malformed events, which are
    /// never part of a reconstruction's output.
    pub address: Option<Address>,
    /// The topics beyond the implicit address topic.
    pub topics: Vec<Word>,
    /// The payload, chunked into 32-byte words with the final partial
    /// chunk zero-padded.
    pub values: Vec<Word>,
}

/// A logical event still being reconstructed.
#[verifier::ext_equal]
pub ghost struct Pending {
    pub shard_id: u8,
    pub tx_number: u32,
    pub topics: Seq<Seq<u8>>,
    pub data: Seq<u8>,
    pub rem_topics: nat,
    pub rem_len: nat,
}

/// A completed logical event, before address extraction.
#[verifier::ext_equal]
pub ghost struct RawEvent {
    pub topics: Seq<Seq<u8>>,
    pub data: Seq<u8>,
}

/// A pending event is complete when no topics and no payload bytes are
/// outstanding.
pub open spec fn pending_complete(p: Pending) -> bool {
    p.rem_topics == 0 && p.rem_len == 0
}

/// The raw event a pending event has accumulated.
pub open spec fn raw_of(p: Pending) -> RawEvent {
    RawEvent { topics: p.topics, data: p.data }
}

/// Feeds one 256-bit field of a continuation record into a pending event:
/// an outstanding topic consumes the whole field; otherwise outstanding
/// payload consumes up to 32 bytes, truncated to the remaining length;
/// a complete event ignores the field.
pub open spec fn consume_field(p: Pending, field: Seq<u8>) -> Pending {
    if p.rem_topics > 0 {
        Pending {
            shard_id: p.shard_id,
            tx_number: p.tx_number,
            topics: p.topics.push(field),
            data: p.data,
            rem_topics: (p.rem_topics - 1) as nat,
            rem_len: p.rem_len,
        }
    } else if p.rem_len > 0 {
        let take = if p.rem_len >= 32 {
            32nat
        } else {
            p.rem_len
        };
        Pending {
            shard_id: p.shard_id,
            tx_number: p.tx_number,
            topics: p.topics,
            data: p.data + field.take(take as int),
            rem_topics: p.rem_topics,
            rem_len: (p.rem_len - take) as nat,
        }
    } else {
        p
    }
}

/// The pending event a first record opens. The record's key declares the
/// number of additional topics and the payload byte length; its value is
/// either the first topic (some topics declared) or the first payload
/// bytes (no topics but payload declared), truncated to the declared
/// length.
pub open spec fn start_pending(shard_id: u8, tx_number: u32, key: Seq<u8>, value: Seq<u8>) -> Pending {
    let topic_count = be_u32_at(key, 28);
    let data_len = be_u32_at(key, 24);
    if topic_count == 0 && data_len == 0 {
        Pending {
            shard_id: shard_id,
            tx_number: tx_number,
            topics: Seq::empty(),
            data: Seq::empty(),
            rem_topics: 0,
            rem_len: 0,
        }
    } else if topic_count == 0 {
        let take = if data_len >= 32 {
            32nat
        } else {
            data_len
        };
        Pending {
            shard_id: shard_id,
            tx_number: tx_number,
            topics: Seq::empty(),
            data: value.take(take as int),
            rem_topics: 0,
            rem_len: (data_len - take) as nat,
        }
    } else {
        Pending {
            shard_id: shard_id,
            tx_number: tx_number,
            topics: seq![value],
            data: Seq::empty(),
            rem_topics: (topic_count - 1) as nat,
            rem_len: data_len,
        }
    }
}

/// Emits a pending event only if it is complete; an incomplete one is
/// dropped, never fabricated.
pub open spec fn flush(cur: Option<Pending>, done: Seq<RawEvent>) -> Seq<RawEvent> {
    match cur {
        Some(p) => if pending_complete(p) {
            done.push(raw_of(p))
        } else {
            done
        },
        None => done,
    }
}

/// One step of the reconstruction fold: the in-progress event (if any)
/// and the events completed so far, advanced by one record.
pub open spec fn step(cur: Option<Pending>, done: Seq<RawEvent>, r: RecordView) -> (
    Option<Pending>,
    Seq<RawEvent>,
) {
    if r.is_first {
        (Some(start_pending(r.shard_id, r.tx_number, r.key, r.value)), flush(cur, done))
    } else {
        match cur {
            None => (None, done),
            Some(p) => {
                if p.shard_id != r.shard_id || p.tx_number != r.tx_number {
                    (None, done)
                } else {
                    let p2 = consume_field(consume_field(p, r.key), r.value);
                    if pending_complete(p2) {
                        (None, done.push(raw_of(p2)))
                    } else {
                        (Some(p2), done)
                    }
                }
            },
        }
    }
}

/// The reconstruction fold over a whole record stream, from a given
/// state.
pub open spec fn run(records: Seq<RecordView>, cur: Option<Pending>, done: Seq<RawEvent>) -> (
    Option<Pending>,
    Seq<RawEvent>,
)
    decreases records.len(),
{
    if records.len() == 0 {
        (cur, done)
    } else {
        let next = step(cur, done, records[0]);
        run(records.drop_first(), next.0, next.1)
    }
}

/// The complete logical events a record stream reconstructs to, in
/// first-completion order: the fold over the stream, with a trailing
/// complete event flushed and a trailing incomplete one dropped.
pub open spec fn reconstruct(records: Seq<RecordView>) -> Seq<RawEvent> {
    let end = run(records, None, Seq::empty());
    flush(end.0, end.1)
}

/// The payload chunked into 32-byte words, the final partial chunk
/// zero-padded.
pub open spec fn chunk_words(b: Seq<u8>) -> Seq<Seq<u8>>
    decreases b.len(),
{
    if b.len() == 0 {
        Seq::empty()
    } else if b.len() >= 32 {
        seq![b.take(32)] + chunk_words(b.skip(32))
    } else {
        seq![b + zero_bytes((32 - b.len()) as nat)]
    }
}

/// A raw event reaches the final output only if it has a first topic to
/// read the emitting address from, and that address is not a reserved
/// system-contract address.
pub open spec fn keeps_raw_event(e: RawEvent) -> bool {
    e.topics.len() > 0 && !is_reserved_system_address(word_low_address(e.topics[0]))
}

/// The structured view of a complete raw event: the first topic's low 20
/// bytes are the emitting address, the remaining topics are the topic
/// list, and the payload is chunked into words.
#[verifier::ext_equal]
pub ghost struct EventView {
    pub address: Seq<u8>,
    pub topics: Seq<Seq<u8>>,
    pub values: Seq<Seq<u8>>,
}

/// Extracts the structured view of one kept raw event.
pub open spec fn finish_raw_event(e: RawEvent) -> EventView {
    EventView {
        address: word_low_address(e.topics[0]),
        topics: e.topics.drop_first(),
        values: chunk_words(e.data),
    }
}

/// Post-processing of the reconstructed raw events: dropped or kept one
/// by one, in order.
pub open spec fn finish_raw_events(raws: Seq<RawEvent>) -> Seq<EventView>
    decreases raws.len(),
{
    if raws.len() == 0 {
        Seq::empty()
    } else {
        let rest = finish_raw_events(raws.drop_first());
        if keeps_raw_event(raws[0]) {
            seq![finish_raw_event(raws[0])] + rest
        } else {
            rest
        }
    }
}

/// What `merge_events` returns: the record stream folded into raw events,
/// post-processed.
pub open spec fn merge_events_spec(records: Seq<RecordView>) -> Seq<EventView> {
    finish_raw_events(reconstruct(records))
}

/// The structured view of one produced event.
pub open spec fn event_view(e: Event) -> EventView {
    EventView {
        address: match e.address {
            Some(a) => a@,
            None => Seq::empty(),
        },
        topics: views_of(e.topics@),
        values: views_of(e.values@),
    }
}

/// A produced event carries its address and well-formed words throughout.
pub open spec fn event_wf(e: Event) -> bool {
    &&& match e.address {
        Some(a) => is_address(a@),
        None => false,
    }
    &&& forall|i: int| 0 <= i < e.topics@.len() ==> is_word(#[trigger] e.topics@[i]@)
    &&& forall|i: int| 0 <= i < e.values@.len() ==> is_word(#[trigger] e.values@[i]@)
}

/// The views of a sequence of produced events.
pub open spec fn event_views(s: Seq<Event>) -> Seq<EventView> {
    s.map_values(|e: Event| event_view(e))
}

/// Copies the byte range `start .. end` of a vector.
pub fn copy_range(src: &Vec<u8>, start: usize, end: usize) -> (r: Vec<u8>)
    requires
        start <= end <= src@.len(),
    ensures
        r@ == src@.subrange(start as int, end as int),
{
    let mut r: Vec<u8> = Vec::new();
    let mut j: usize = start;
    while j < end
        invariant
            start <= j <= end <= src@.len(),
            r@ =~= src@.subrange(start as int, j as int),
        decreases end - j,
    {
        r.push(src[j]);
        assert(r@ =~= src@.subrange(start as int, j as int + 1));
        j = j + 1;
    }
    r
}

/// Chunks return data into 256-bit words: each full 32 bytes become one
/// word and a final partial remainder is zero-padded on the right.
pub fn chunk_return_data(bytes: &Vec<u8>) -> (r: Vec<Word>)
    ensures
        views_of(r@) == chunk_words(bytes@),
        forall|i: int| 0 <= i < r@.len() ==> is_word(#[trigger] r@[i]@),
{
    let mut r: Vec<Word> = Vec::new();
    let mut i: usize = 0;
    proof {
        assert(bytes@.skip(0) =~= bytes@);
        assert(views_of(r@) =~= Seq::<Seq<u8>>::empty());
        assert(views_of(r@) + chunk_words(bytes@.skip(0)) =~= chunk_words(bytes@));
    }
    while bytes.len() - i >= 32
        invariant
            i <= bytes.len(),
            chunk_words(bytes@) == views_of(r@) + chunk_words(bytes@.skip(i as int)),
            forall|k: int| 0 <= k < r@.len() ==> is_word(#[trigger] r@[k]@),
        decreases bytes.len() - i,
    {
        let w = copy_range(bytes, i, i + 32);
        proof {
            let ghost tail = bytes@.skip(i as int);
            assert(tail.take(32) =~= bytes@.subrange(i as int, i as int + 32));
            assert(tail.skip(32) =~= bytes@.skip(i as int + 32));
            assert(chunk_words(tail) == seq![w@] + chunk_words(bytes@.skip(i as int + 32)));
            assert(views_of(r@.push(w)) =~= views_of(r@).push(w@));
            assert(views_of(r@) + chunk_words(tail) =~= views_of(r@.push(w)) + chunk_words(
                bytes@.skip(i as int + 32),
            ));
        }
        r.push(w);
        i = i + 32;
    }
    if i < bytes.len() {
        let mut w = copy_range(bytes, i, bytes.len());
        while w.len() < 32
            invariant
                w@.len() >= bytes@.len() - i,
                bytes@.len() - i < 32,
                i < bytes@.len(),
                w@.len() <= 32,
                w@ =~= bytes@.skip(i as int) + zero_bytes((w@.len() - (bytes@.len() - i)) as nat),
            decreases 32 - w.len(),
        {
            w.push(0u8);
            assert(w@ =~= bytes@.skip(i as int) + zero_bytes(
                (w@.len() - (bytes@.len() - i)) as nat,
            ));
        }
        proof {
            let ghost tail = bytes@.skip(i as int);
            assert(w@ =~= tail + zero_bytes((32 - tail.len()) as nat));
            assert(chunk_words(tail) == seq![w@]);
            assert(views_of(r@.push(w)) =~= views_of(r@).push(w@));
            assert(views_of(r@) + chunk_words(tail) =~= views_of(r@.push(w)));
        }
        r.push(w);
        assert(views_of(r@) =~= chunk_words(bytes@));
    } else {
        assert(bytes@.skip(i as int) =~= Seq::<u8>::empty());
        assert(chunk_words(bytes@.skip(i as int)) == Seq::<Seq<u8>>::empty());
        assert(views_of(r@) =~= views_of(r@) + chunk_words(bytes@.skip(i as int)));
    }
    r
}

/// The in-progress event of the executable fold.
struct PendingExec {
    shard_id: u8,
    tx_number: u32,
    topics: Vec<Word>,
    data: Vec<u8>,
    rem_topics: u32,
    rem_len: u32,
}

spec fn pending_view(p: PendingExec) -> Pending {
    Pending {
        shard_id: p.shard_id,
        tx_number: p.tx_number,
        topics: views_of(p.topics@),
        data: p.data@,
        rem_topics: p.rem_topics as nat,
        rem_len: p.rem_len as nat,
    }
}

spec fn pending_wf(p: PendingExec) -> bool {
    forall|i: int| 0 <= i < p.topics@.len() ==> is_word(#[trigger] p.topics@[i]@)
}

/// A completed raw event of the executable fold.
struct RawEventExec {
    topics: Vec<Word>,
    data: Vec<u8>,
}

spec fn raw_exec_view(e: RawEventExec) -> RawEvent {
    RawEvent { topics: views_of(e.topics@), data: e.data@ }
}

spec fn raw_event_views(s: Seq<RawEventExec>) -> Seq<RawEvent> {
    s.map_values(|e: RawEventExec| raw_exec_view(e))
}

spec fn raw_events_wf(s: Seq<RawEventExec>) -> bool {
    forall|i: int, j: int|
        0 <= i < s.len() && 0 <= j < s[i].topics@.len() ==> is_word(
            #[trigger] s[i].topics@[j]@,
        )
}

/// Feeds one field of a continuation record into the in-progress event.
fn consume_field_exec(p: PendingExec, field: &Word) -> (r: PendingExec)
    requires
        pending_wf(p),
        is_word(field@),
    ensures
        pending_wf(r),
        pending_view(r) == consume_field(pending_view(p), field@),
{
    let mut p = p;
    let ghost p0 = p;
    if p.rem_topics > 0 {
        let t = copy_bytes(field);
        proof {
            assert(views_of(p.topics@.push(t)) =~= views_of(p.topics@).push(t@));
        }
        p.topics.push(t);
        p.rem_topics = p.rem_topics - 1;
        assert(pending_view(p) =~= consume_field(pending_view(p0), field@));
    } else if p.rem_len > 0 {
        let take: usize = if p.rem_len >= 32 {
            32
        } else {
            p.rem_len as usize
        };
        let ghost data0 = p.data@;
        let mut j: usize = 0;
        while j < take
            invariant
                j <= take,
                take <= 32,
                field@.len() == 32,
                p.shard_id == p0.shard_id,
                p.tx_number == p0.tx_number,
                p.topics == p0.topics,
                p.rem_topics == p0.rem_topics,
                p.rem_len == p0.rem_len,
                take as nat == (if p0.rem_len >= 32 {
                    32nat
                } else {
                    p0.rem_len as nat
                }),
                p.data@ =~= data0 + field@.take(j as int),
            decreases take - j,
        {
            let b = field[j];
            p.data.push(b);
            assert(p.data@ =~= data0 + field@.take(j as int + 1));
            j = j + 1;
        }
        p.rem_len = p.rem_len - (take as u32);
        assert(pending_view(p) =~= consume_field(pending_view(p0), field@));
    } else {
        assert(pending_view(p) =~= consume_field(pending_view(p0), field@));
    }
    p
}

/// Opens the in-progress event a first record declares.
fn start_pending_exec(shard_id: u8, tx_number: u32, key: &Word, value: &Word) -> (r: PendingExec)
    requires
        is_word(key@),
        is_word(value@),
    ensures
        pending_wf(r),
        pending_view(r) == start_pending(shard_id, tx_number, key@, value@),
{
    let topic_count = key_topic_count(key);
    let data_len = key_data_length(key);
    if topic_count == 0 && data_len == 0 {
        let r = PendingExec {
            shard_id,
            tx_number,
            topics: Vec::new(),
            data: Vec::new(),
            rem_topics: 0,
            rem_len: 0,
        };
        proof {
            assert(views_of(r.topics@) =~= Seq::<Seq<u8>>::empty());
            assert(pending_view(r) =~= start_pending(shard_id, tx_number, key@, value@));
        }
        r
    } else if topic_count == 0 {
        let take: usize = if data_len >= 32 {
            32
        } else {
            data_len as usize
        };
        let data = copy_range(value, 0, take);
        assert(data@ =~= value@.take(take as int));
        let r = PendingExec {
            shard_id,
            tx_number,
            topics: Vec::new(),
            data,
            rem_topics: 0,
            rem_len: data_len - (take as u32),
        };
        proof {
            assert(views_of(r.topics@) =~= Seq::<Seq<u8>>::empty());
            assert(pending_view(r) =~= start_pending(shard_id, tx_number, key@, value@));
        }
        r
    } else {
        let first_topic = copy_bytes(value);
        let mut topics: Vec<Word> = Vec::new();
        topics.push(first_topic);
        assert(views_of(topics@) =~= seq![value@]);
        let r = PendingExec {
            shard_id,
            tx_number,
            topics,
            data: Vec::new(),
            rem_topics: topic_count - 1,
            rem_len: data_len,
        };
        proof {
            assert(pending_view(r) =~= start_pending(shard_id, tx_number, key@, value@));
        }
        r
    }
}

spec fn opt_pending_view(c: Option<PendingExec>) -> Option<Pending> {
    match c {
        Some(p) => Some(pending_view(p)),
        None => None,
    }
}

spec fn opt_pending_wf(c: Option<PendingExec>) -> bool {
    match c {
        Some(p) => pending_wf(p),
        None => true,
    }
}

/// Reconstructs structured events from the VM's flat record stream in a
/// single sequential pass: exactly the fold `merge_events_spec` describes,
/// with malformed or system-contract events dropped.
pub fn merge_events(records: &Vec<RawRecord>) -> (result: Vec<Event>)
    requires
        forall|i: int| 0 <= i < records@.len() ==> record_wf(#[trigger] records@[i]),
    ensures
        event_views(result@) == merge_events_spec(record_views(records@)),
        forall|i: int| 0 <= i < result@.len() ==> event_wf(#[trigger] result@[i]),
{
    let mut raws: Vec<RawEventExec> = Vec::new();
    let mut cur: Option<PendingExec> = None;
    let mut i: usize = 0;
    let ghost rv = record_views(records@);
    proof {
        assert(rv.skip(0) =~= rv);
        assert(raw_event_views(raws@) =~= Seq::<RawEvent>::empty());
    }
    while i < records.len()
        invariant
            i <= records.len(),
            forall|k: int| 0 <= k < records@.len() ==> record_wf(#[trigger] records@[k]),
            opt_pending_wf(cur),
            raw_events_wf(raws@),
            rv == record_views(records@),
            run(rv, None, Seq::empty()) == run(
                rv.skip(i as int),
                opt_pending_view(cur),
                raw_event_views(raws@),
            ),
        decreases records.len() - i,
    {
        let ghost cur0 = opt_pending_view(cur);
        let ghost done0 = raw_event_views(raws@);
        let ghost rec = record_view(records@[i as int]);
        proof {
            assert(rv.skip(i as int)[0] == rec);
            assert(rv.skip(i as int).drop_first() =~= rv.skip(i as int + 1));
            assert(run(rv.skip(i as int), cur0, done0) == run(
                rv.skip(i as int + 1),
                step(cur0, done0, rec).0,
                step(cur0, done0, rec).1,
            ));
        }
        let is_first = records[i].is_first;
        let shard_id = records[i].shard_id;
        let tx_number = records[i].tx_number;
        if is_first {
            let prev = cur;
            match prev {
                Some(p) => {
                    if p.rem_topics == 0 && p.rem_len == 0 {
                        let e = RawEventExec { topics: p.topics, data: p.data };
                        proof {
                            assert(raw_event_views(raws@.push(e)) =~= raw_event_views(
                                raws@,
                            ).push(raw_exec_view(e)));
                        }
                        raws.push(e);
                    }
                },
                None => {},
            }
            cur = Some(start_pending_exec(shard_id, tx_number, &records[i].key, &records[i].value));
            assert(opt_pending_view(cur) == step(cur0, done0, rec).0);
            assert(raw_event_views(raws@) == step(cur0, done0, rec).1);
        } else {
            let prev = cur;
            cur = None;
            match prev {
                Some(p) => {
                    if p.shard_id == shard_id && p.tx_number == tx_number {
                        let p1 = consume_field_exec(p, &records[i].key);
                        let p2 = consume_field_exec(p1, &records[i].value);
                        if p2.rem_topics == 0 && p2.rem_len == 0 {
                            let e = RawEventExec { topics: p2.topics, data: p2.data };
                            proof {
                                assert(raw_event_views(raws@.push(e)) =~= raw_event_views(
                                    raws@,
                                ).push(raw_exec_view(e)));
                            }
                            raws.push(e);
                        } else {
                            cur = Some(p2);
                        }
                    }
                },
                None => {},
            }
            assert(opt_pending_view(cur) == step(cur0, done0, rec).0);
            assert(raw_event_views(raws@) == step(cur0, done0, rec).1);
        }
        i = i + 1;
    }
    assert(rv.skip(i as int) =~= Seq::<RecordView>::empty());
    let prev = cur;
    match prev {
        Some(p) => {
            if p.rem_topics == 0 && p.rem_len == 0 {
                let e = RawEventExec { topics: p.topics, data: p.data };
                proof {
                    assert(raw_event_views(raws@.push(e)) =~= raw_event_views(raws@).push(
                        raw_exec_view(e),
                    ));
                }
                raws.push(e);
            }
        },
        None => {},
    }
    assert(raw_event_views(raws@) == reconstruct(rv));

    let ghost all = raw_event_views(raws@);
    let mut result: Vec<Event> = Vec::new();
    let mut j: usize = 0;
    proof {
        assert(all.skip(0) =~= all);
        assert(event_views(result@) =~= Seq::<EventView>::empty());
        assert(event_views(result@) + finish_raw_events(all.skip(0)) =~= finish_raw_events(all));
    }
    while j < raws.len()
        invariant
            j <= raws@.len(),
            raw_events_wf(raws@),
            all == raw_event_views(raws@),
            forall|k: int| 0 <= k < result@.len() ==> event_wf(#[trigger] result@[k]),
            finish_raw_events(all) == event_views(result@) + finish_raw_events(
                all.skip(j as int),
            ),
        decreases raws.len() - j,
    {
        let ghost tail = all.skip(j as int);
        proof {
            assert(tail[0] == all[j as int]);
            assert(tail.drop_first() =~= all.skip(j as int + 1));
        }
        if raws[j].topics.len() > 0 {
            let addr = crate::words::word_into_address(&raws[j].topics[0]);
            if !crate::words::address_is_reserved(&addr) {
                let mut topics: Vec<Word> = Vec::new();
                let mut k: usize = 1;
                while k < raws[j].topics.len()
                    invariant
                        j < raws@.len(),
                        1 <= k <= raws@[j as int].topics@.len(),
                        raw_events_wf(raws@),
                        views_of(topics@) =~= views_of(raws@[j as int].topics@).subrange(
                            1,
                            k as int,
                        ),
                        forall|m: int| 0 <= m < topics@.len() ==> is_word(
                            #[trigger] topics@[m]@,
                        ),
                    decreases raws@[j as int].topics@.len() - k,
                {
                    let t = copy_bytes(&raws[j].topics[k]);
                    proof {
                        assert(views_of(topics@.push(t)) =~= views_of(topics@).push(t@));
                    }
                    topics.push(t);
                    assert(views_of(topics@) =~= views_of(raws@[j as int].topics@).subrange(
                        1,
                        k as int + 1,
                    ));
                    k = k + 1;
                }
                assert(views_of(topics@) =~= views_of(raws@[j as int].topics@).drop_first());
                let values = chunk_return_data(&raws[j].data);
                let e = Event { address: Some(addr), topics, values };
                proof {
                    assert(keeps_raw_event(all[j as int]));
                    assert(event_view(e) == finish_raw_event(all[j as int]));
                    assert(event_views(result@.push(e)) =~= event_views(result@).push(
                        event_view(e),
                    ));
                    assert(event_views(result@).push(event_view(e))
                        + finish_raw_events(all.skip(j as int + 1)) =~= event_views(result@) + (
                    seq![finish_raw_event(all[j as int])] + finish_raw_events(
                        all.skip(j as int + 1),
                    )));
                    assert(finish_raw_events(tail) == seq![finish_raw_event(all[j as int])]
                        + finish_raw_events(all.skip(j as int + 1)));
                }
                result.push(e);
            } else {
                assert(!keeps_raw_event(all[j as int]));
                assert(finish_raw_events(tail) == finish_raw_events(all.skip(j as int + 1)));
            }
        } else {
            assert(!keeps_raw_event(all[j as int]));
            assert(finish_raw_events(tail) == finish_raw_events(all.skip(j as int + 1)));
        }
        j = j + 1;
    }
    assert(all.skip(j as int) =~= Seq::<RawEvent>::empty());
    assert(event_views(result@) =~= event_views(result@) + finish_raw_events(all.skip(j as int)));
    result
}

/// Reconstruction is a pure function of the record stream: any two
/// outputs obtained from the same records are identical.
pub proof fn lemma_merge_events_deterministic(
    records: Seq<RecordView>,
    out1: Seq<EventView>,
    out2: Seq<EventView>,
)
    requires
        out1 == merge_events_spec(records),
        out2 == merge_events_spec(records),
    ensures
        out1 == out2,
{
}

} // verus!
