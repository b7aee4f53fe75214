//! Storage snapshots and the post-run storage analysis: the delta of
//! cells whose value changed against the initial snapshot, and the
//! detection of freshly deployed contracts from writes at the reserved
//! system deployer address.

use vstd::prelude::*;

use crate::registry::Bytecode;
use crate::registry::ContractRegistry;
use crate::registry::bytecode_wf;
use crate::registry::copy_words;
use crate::registry::lookup_code;
use crate::words::Address;
use crate::words::Word;
use crate::words::bytes_eq;
use crate::words::copy_bytes;
use crate::words::deployer_address_bytes;
use crate::words::is_address;
use crate::words::is_word;
use crate::words::views_of;
use crate::words::word_into_address;
use crate::words::word_low_address;
use crate::words::zero_bytes;

verus! {

/// One storage cell's key: the owning account and the 256-bit slot index.
pub struct StorageKey {
    /// The account whose storage holds the cell.
    pub address: Address,
    /// The 256-bit slot index.
    pub slot: Word,
}

/// The spec-level identity of a key: its (address, slot) byte sequences.
pub open spec fn key_view(k: StorageKey) -> (Seq<u8>, Seq<u8>) {
    (k.address@, k.slot@)
}

/// A key's parts have their fixed widths.
pub open spec fn storage_key_wf(k: StorageKey) -> bool {
    is_address(k.address@) && is_word(k.slot@)
}

/// Compares two keys byte for byte.
pub fn key_eq(a: &StorageKey, b: &StorageKey) -> (r: bool)
    ensures
        r == (key_view(*a) == key_view(*b)),
{
    let r = bytes_eq(&a.address, &b.address) && bytes_eq(&a.slot, &b.slot);
    r
}

/// The view of storage entries: ((address, slot), value) triples.
pub open spec fn entry_views(s: Seq<(StorageKey, Word)>) -> Seq<((Seq<u8>, Seq<u8>), Seq<u8>)> {
    s.map_values(|e: (StorageKey, Word)| (key_view(e.0), e.1@))
}

/// The newest value recorded under a key, if any.
pub open spec fn lookup_value(s: Seq<((Seq<u8>, Seq<u8>), Seq<u8>)>, k: (Seq<u8>, Seq<u8>)) -> Option<
    Seq<u8>,
>
    decreases s.len(),
{
    if s.len() == 0 {
        None
    } else if s.last().0 == k {
        Some(s.last().1)
    } else {
        lookup_value(s.drop_last(), k)
    }
}

/// What a key reads as in a snapshot: its recorded value; an absent key
/// reads as zero.
pub open spec fn read_value(s: Seq<((Seq<u8>, Seq<u8>), Seq<u8>)>, k: (Seq<u8>, Seq<u8>)) -> Seq<
    u8,
> {
    match lookup_value(s, k) {
        Some(v) => v,
        None => zero_bytes(32),
    }
}

/// A storage snapshot: a finite map from keys to 256-bit values.
pub struct Storage {
    /// The recorded (key, value) pairs, oldest first; the newest entry
    /// for a key wins reads.
    pub entries: Vec<(StorageKey, Word)>,
}

impl Storage {
    /// The ((address, slot), value) triples the snapshot holds.
    pub open spec fn view_entries(self) -> Seq<((Seq<u8>, Seq<u8>), Seq<u8>)> {
        entry_views(self.entries@)
    }

    /// Every key and value has its fixed width.
    pub open spec fn wf(self) -> bool {
        forall|i: int|
            0 <= i < self.entries@.len() ==> storage_key_wf(#[trigger] self.entries@[i].0)
                && is_word(self.entries@[i].1@)
    }

    /// No two entries record the same key.
    pub open spec fn keys_unique(self) -> bool {
        forall|i: int, j: int|
            0 <= i < j < self.entries@.len() ==> key_view(#[trigger] self.entries@[i].0)
                != key_view(#[trigger] self.entries@[j].0)
    }

    /// An empty snapshot.
    pub fn new() -> (r: Self)
        ensures
            r.wf(),
            r.keys_unique(),
            r.view_entries() == Seq::<((Seq<u8>, Seq<u8>), Seq<u8>)>::empty(),
    {
        let r = Storage { entries: Vec::new() };
        assert(r.view_entries() =~= Seq::<((Seq<u8>, Seq<u8>), Seq<u8>)>::empty());
        r
    }

    /// Records a value under a key; the newest recording wins reads.
    pub fn insert(&mut self, key: StorageKey, value: Word)
        requires
            old(self).wf(),
            storage_key_wf(key),
            is_word(value@),
        ensures
            final(self).wf(),
            final(self).view_entries() == old(self).view_entries().push(
                (key_view(key), value@),
            ),
    {
        proof {
            assert(entry_views(self.entries@.push((key, value))) =~= entry_views(
                self.entries@,
            ).push((key_view(key), value@)));
        }
        self.entries.push((key, value));
    }

    /// Reads the value a key holds; an absent key reads as zero.
    pub fn read(&self, key: &StorageKey) -> (r: Word)
        requires
            self.wf(),
        ensures
            is_word(r@),
            r@ == read_value(self.view_entries(), key_view(*key)),
    {
        let ghost views = self.view_entries();
        let mut i: usize = self.entries.len();
        proof {
            assert(views.take(i as int) =~= views);
        }
        while i > 0
            invariant
                i <= self.entries@.len(),
                self.wf(),
                views == self.view_entries(),
                lookup_value(views, key_view(*key)) == lookup_value(
                    views.take(i as int),
                    key_view(*key),
                ),
            decreases i,
        {
            proof {
                assert(views.take(i as int).last() == views[i as int - 1]);
                assert(views.take(i as int).drop_last() =~= views.take(i as int - 1));
            }
            if key_eq(&self.entries[i - 1].0, key) {
                let v = copy_bytes(&self.entries[i - 1].1);
                return v;
            }
            i = i - 1;
        }
        assert(views.take(0) =~= Seq::<((Seq<u8>, Seq<u8>), Seq<u8>)>::empty());
        crate::words::word_zero()
    }
}

/// The storage delta of a run: of the cells the run touched, exactly
/// those whose post-run value differs from what the initial snapshot
/// reads for the key (an untouched or unchanged cell never appears), in
/// touch order, with the post-run value.
pub open spec fn delta_views(
    init: Seq<((Seq<u8>, Seq<u8>), Seq<u8>)>,
    fin: Seq<((Seq<u8>, Seq<u8>), Seq<u8>)>,
) -> Seq<((Seq<u8>, Seq<u8>), Seq<u8>)>
    decreases fin.len(),
{
    if fin.len() == 0 {
        Seq::empty()
    } else {
        let rest = delta_views(init, fin.drop_first());
        if fin[0].1 != read_value(init, fin[0].0) {
            seq![fin[0]] + rest
        } else {
            rest
        }
    }
}

/// Computes the storage delta: every touched cell is compared against its
/// value in the initial snapshot and included only if the post-run value
/// differs (including a change from the implicit zero of an absent key).
pub fn storage_delta(initial: &Storage, touched: &Storage) -> (r: Storage)
    requires
        initial.wf(),
        touched.wf(),
    ensures
        r.wf(),
        r.view_entries() == delta_views(initial.view_entries(), touched.view_entries()),
{
    let ghost fin = touched.view_entries();
    let ghost init = initial.view_entries();
    let mut r = Storage::new();
    let mut i: usize = 0;
    proof {
        assert(fin.skip(0) =~= fin);
        assert(r.view_entries() + delta_views(init, fin.skip(0)) =~= delta_views(init, fin));
    }
    while i < touched.entries.len()
        invariant
            i <= touched.entries@.len(),
            initial.wf(),
            touched.wf(),
            r.wf(),
            fin == touched.view_entries(),
            init == initial.view_entries(),
            delta_views(init, fin) == r.view_entries() + delta_views(init, fin.skip(i as int)),
        decreases touched.entries.len() - i,
    {
        let ghost tail = fin.skip(i as int);
        proof {
            assert(tail[0] == fin[i as int]);
            assert(tail.drop_first() =~= fin.skip(i as int + 1));
        }
        let pre = initial.read(&touched.entries[i].0);
        if !bytes_eq(&touched.entries[i].1, &pre) {
            let key = StorageKey {
                address: copy_bytes(&touched.entries[i].0.address),
                slot: copy_bytes(&touched.entries[i].0.slot),
            };
            let value = copy_bytes(&touched.entries[i].1);
            let ghost r0 = r.view_entries();
            r.insert(key, value);
            proof {
                assert(r.view_entries() =~= r0.push(fin[i as int]));
                assert(delta_views(init, tail) == seq![fin[i as int]] + delta_views(
                    init,
                    fin.skip(i as int + 1),
                ));
                assert(r0.push(fin[i as int]) + delta_views(init, fin.skip(i as int + 1)) =~= r0
                    + (seq![fin[i as int]] + delta_views(init, fin.skip(i as int + 1))));
            }
        } else {
            assert(delta_views(init, tail) == delta_views(init, fin.skip(i as int + 1)));
        }
        i = i + 1;
    }
    proof {
        assert(fin.skip(i as int) =~= Seq::<((Seq<u8>, Seq<u8>), Seq<u8>)>::empty());
        assert(r.view_entries() =~= r.view_entries() + delta_views(init, fin.skip(i as int)));
    }
    r
}

/// The freshly deployed contracts a run's touched cells reveal: every
/// write whose key's address is the reserved system deployer address is
/// read as (slot = deployed address, value = code hash); if the hash is
/// in the known-contract table, the pair (deployed address, body) is
/// included, in touch order.
pub open spec fn deployed_views(
    fin: Seq<((Seq<u8>, Seq<u8>), Seq<u8>)>,
    known: Seq<(Seq<u8>, Seq<Seq<u8>>)>,
) -> Seq<(Seq<u8>, Seq<Seq<u8>>)>
    decreases fin.len(),
{
    if fin.len() == 0 {
        Seq::empty()
    } else {
        let rest = deployed_views(fin.drop_first(), known);
        if fin[0].0.0 == deployer_address_bytes() {
            match lookup_code(known, fin[0].1) {
                Some(c) => seq![(word_low_address(fin[0].0.1), c)] + rest,
                None => rest,
            }
        } else {
            rest
        }
    }
}

/// The view of detected (deployed address, body) pairs.
pub open spec fn deployment_views(s: Seq<(Address, Bytecode)>) -> Seq<(Seq<u8>, Seq<Seq<u8>>)> {
    s.map_values(|e: (Address, Bytecode)| (e.0@, views_of(e.1@)))
}

/// Every detected pair holds a well-formed address and body.
pub open spec fn deployments_wf(s: Seq<(Address, Bytecode)>) -> bool {
    forall|i: int| 0 <= i < s.len() ==> is_address((#[trigger] s[i]).0@) && bytecode_wf(s[i].1@)
}

proof fn lemma_deployments_wf_push(s: Seq<(Address, Bytecode)>, e: (Address, Bytecode))
    requires
        deployments_wf(s),
        is_address(e.0@),
        bytecode_wf(e.1@),
    ensures
        deployments_wf(s.push(e)),
{
    assert forall|i: int|
        0 <= i < s.push(e).len() implies is_address((#[trigger] s.push(e)[i]).0@) && bytecode_wf(
        s.push(e)[i].1@,
    ) by {
        if i < s.len() {
            assert(s.push(e)[i] == s[i]);
        } else {
            assert(s.push(e)[i] == e);
        }
    }
}

/// Detects freshly deployed contracts: scans the touched cells for
/// writes at the reserved system deployer address whose value is a known
/// code hash. This is address resolution via a fixed protocol
/// convention, not a general side-effect scan.
pub fn detect_deployed_contracts(touched: &Storage, known: &ContractRegistry) -> (r: Vec<
    (Address, Bytecode),
>)
    requires
        touched.wf(),
        known.wf(),
    ensures
        deployment_views(r@) == deployed_views(touched.view_entries(), known.view_entries()),
        deployments_wf(r@),
{
    let ghost fin = touched.view_entries();
    let ghost kn = known.view_entries();
    let deployer = crate::words::deployer_address();
    let mut r: Vec<(Address, Bytecode)> = Vec::new();
    let mut i: usize = 0;
    proof {
        assert(fin.skip(0) =~= fin);
        assert(deployment_views(r@) =~= Seq::<(Seq<u8>, Seq<Seq<u8>>)>::empty());
        assert(deployment_views(r@) + deployed_views(fin.skip(0), kn) =~= deployed_views(
            fin,
            kn,
        ));
    }
    while i < touched.entries.len()
        invariant
            i <= touched.entries@.len(),
            touched.wf(),
            known.wf(),
            fin == touched.view_entries(),
            kn == known.view_entries(),
            deployer@ == deployer_address_bytes(),
            deployments_wf(r@),
            deployed_views(fin, kn) == deployment_views(r@) + deployed_views(
                fin.skip(i as int),
                kn,
            ),
        decreases touched.entries.len() - i,
    {
        let ghost tail = fin.skip(i as int);
        proof {
            assert(tail[0] == fin[i as int]);
            assert(tail.drop_first() =~= fin.skip(i as int + 1));
        }
        if bytes_eq(&touched.entries[i].0.address, &deployer) {
            match known.get(&touched.entries[i].1) {
                Some(code) => {
                    let deployed = word_into_address(&touched.entries[i].0.slot);
                    let ghost r0 = deployment_views(r@);
                    let entry = (deployed, code);
                    proof {
                        assert(is_address(entry.0@));
                        assert(bytecode_wf(entry.1@));
                        lemma_deployments_wf_push(r@, entry);
                        assert(deployment_views(r@.push(entry)) =~= deployment_views(r@).push(
                            (entry.0@, views_of(entry.1@)),
                        ));
                    }
                    r.push(entry);
                    proof {
                        assert(deployed_views(tail, kn) == seq![
                            (word_low_address(fin[i as int].0.1), views_of(entry.1@)),
                        ] + deployed_views(fin.skip(i as int + 1), kn));
                        assert(r0.push((entry.0@, views_of(entry.1@))) + deployed_views(
                            fin.skip(i as int + 1),
                            kn,
                        ) =~= r0 + (seq![(word_low_address(fin[i as int].0.1), views_of(entry.1@))]
                            + deployed_views(fin.skip(i as int + 1), kn)));
                    }
                },
                None => {
                    assert(deployed_views(tail, kn) == deployed_views(
                        fin.skip(i as int + 1),
                        kn,
                    ));
                },
            }
        } else {
            assert(deployed_views(tail, kn) == deployed_views(fin.skip(i as int + 1), kn));
        }
        i = i + 1;
    }
    proof {
        assert(fin.skip(i as int) =~= Seq::<((Seq<u8>, Seq<u8>), Seq<u8>)>::empty());
        assert(deployment_views(r@) =~= deployment_views(r@) + deployed_views(
            fin.skip(i as int),
            kn,
        ));
    }
    r
}

/// Deployed-contract detection completeness: every touched cell at the
/// reserved deployer address whose value is a hash the known-contract
/// table holds contributes its (deployed address, body) pair to the
/// output.
pub proof fn lemma_deployed_complete(
    fin: Seq<((Seq<u8>, Seq<u8>), Seq<u8>)>,
    known: Seq<(Seq<u8>, Seq<Seq<u8>>)>,
    i: int,
)
    requires
        0 <= i < fin.len(),
        fin[i].0.0 == deployer_address_bytes(),
    ensures
        lookup_code(known, fin[i].1) matches Some(c) ==> deployed_views(fin, known).contains(
            (word_low_address(fin[i].0.1), c),
        ),
    decreases fin.len(),
{
    if lookup_code(known, fin[i].1) is Some {
        let c = lookup_code(known, fin[i].1)->Some_0;
        let rest = fin.drop_first();
        if i == 0 {
            assert(deployed_views(fin, known)[0] == (word_low_address(fin[0].0.1), c));
        } else {
            assert(rest[i - 1] == fin[i]);
            lemma_deployed_complete(rest, known, i - 1);
            let p = (word_low_address(fin[i].0.1), c);
            let j = choose|j: int|
                0 <= j < deployed_views(rest, known).len() && deployed_views(rest, known)[j] == p;
            if fin[0].0.0 == deployer_address_bytes() && lookup_code(known, fin[0].1) is Some {
                assert(deployed_views(fin, known)[j + 1] == p);
            } else {
                assert(deployed_views(fin, known)[j] == p);
            }
        }
    }
}

/// Deployed-contract detection soundness: every pair in the output comes
/// from a touched cell at the reserved deployer address whose value is a
/// hash the known-contract table holds; an address no such cell names
/// never appears.
pub proof fn lemma_deployed_sound(
    fin: Seq<((Seq<u8>, Seq<u8>), Seq<u8>)>,
    known: Seq<(Seq<u8>, Seq<Seq<u8>>)>,
    j: int,
)
    requires
        0 <= j < deployed_views(fin, known).len(),
    ensures
        exists|i: int|
            0 <= i < fin.len() && (#[trigger] fin[i]).0.0 == deployer_address_bytes()
                && lookup_code(known, fin[i].1) == Some(deployed_views(fin, known)[j].1)
                && deployed_views(fin, known)[j].0 == word_low_address(fin[i].0.1),
    decreases fin.len(),
{
    let rest = fin.drop_first();
    if fin[0].0.0 == deployer_address_bytes() && lookup_code(known, fin[0].1) is Some {
        if j == 0 {
            assert(fin[0].0.0 == deployer_address_bytes());
        } else {
            lemma_deployed_sound(rest, known, j - 1);
            let i = choose|i: int|
                0 <= i < rest.len() && (#[trigger] rest[i]).0.0 == deployer_address_bytes()
                    && lookup_code(known, rest[i].1) == Some(deployed_views(rest, known)[j - 1].1)
                    && deployed_views(rest, known)[j - 1].0 == word_low_address(rest[i].0.1);
            assert(fin[i + 1] == rest[i]);
            assert(deployed_views(fin, known)[j] == deployed_views(rest, known)[j - 1]);
        }
    } else {
        assert(deployed_views(fin, known) == deployed_views(rest, known));
        lemma_deployed_sound(rest, known, j);
        let i = choose|i: int|
            0 <= i < rest.len() && (#[trigger] rest[i]).0.0 == deployer_address_bytes()
                && lookup_code(known, rest[i].1) == Some(deployed_views(rest, known)[j].1)
                && deployed_views(rest, known)[j].0 == word_low_address(rest[i].0.1);
        assert(fin[i + 1] == rest[i]);
    }
}

/// Looking a key up in a sequence with one entry in front: the rest,
/// being newer, wins; otherwise the front entry answers.
proof fn lemma_lookup_cons(
    x: ((Seq<u8>, Seq<u8>), Seq<u8>),
    d: Seq<((Seq<u8>, Seq<u8>), Seq<u8>)>,
    k: (Seq<u8>, Seq<u8>),
)
    ensures
        lookup_value(seq![x] + d, k) == (match lookup_value(d, k) {
            Some(v) => Some(v),
            None => if x.0 == k {
                Some(x.1)
            } else {
                None::<Seq<u8>>
            },
        }),
    decreases d.len(),
{
    let s = seq![x] + d;
    assert(s.len() == 1 + d.len());
    if d.len() == 0 {
        assert(s.last() == x);
        assert(s.drop_last() =~= Seq::<((Seq<u8>, Seq<u8>), Seq<u8>)>::empty());
        assert(lookup_value(s.drop_last(), k) is None);
        assert(lookup_value(d, k) is None);
    } else {
        assert(s.last() == s[s.len() - 1]);
        assert(s[s.len() - 1] == d[d.len() - 1]);
        assert(s.last() == d.last());
        if d.last().0 == k {
            assert(lookup_value(s, k) == Some(d.last().1));
            assert(lookup_value(d, k) == Some(d.last().1));
        } else {
            assert(s.drop_last() =~= seq![x] + d.drop_last());
            lemma_lookup_cons(x, d.drop_last(), k);
            assert(lookup_value(s, k) == lookup_value(s.drop_last(), k));
            assert(lookup_value(d, k) == lookup_value(d.drop_last(), k));
        }
    }
}

/// A key none of the entries records is not found.
proof fn lemma_lookup_absent(s: Seq<((Seq<u8>, Seq<u8>), Seq<u8>)>, k: (Seq<u8>, Seq<u8>))
    requires
        forall|i: int| 0 <= i < s.len() ==> (#[trigger] s[i]).0 != k,
    ensures
        lookup_value(s, k) is None,
    decreases s.len(),
{
    if s.len() > 0 {
        assert(s.last() == s[s.len() - 1]);
        assert(forall|i: int| 0 <= i < s.drop_last().len() ==> (#[trigger] s.drop_last()[i]).0 != k);
        lemma_lookup_absent(s.drop_last(), k);
    }
}

/// A key no touched entry records is not in the delta either.
proof fn lemma_delta_absent(
    init: Seq<((Seq<u8>, Seq<u8>), Seq<u8>)>,
    fin: Seq<((Seq<u8>, Seq<u8>), Seq<u8>)>,
    k: (Seq<u8>, Seq<u8>),
)
    requires
        forall|i: int| 0 <= i < fin.len() ==> (#[trigger] fin[i]).0 != k,
    ensures
        lookup_value(delta_views(init, fin), k) is None,
    decreases fin.len(),
{
    if fin.len() > 0 {
        let rest = fin.drop_first();
        assert(forall|i: int| 0 <= i < rest.len() ==> (#[trigger] rest[i]).0 != k);
        lemma_delta_absent(init, rest, k);
        if fin[0].1 != read_value(init, fin[0].0) {
            lemma_lookup_cons(fin[0], delta_views(init, rest), k);
        }
    }
}

/// Storage delta exactness: a key whose post-run value equals its
/// initial reading never appears in the delta, and a touched key whose
/// value changed appears with the post-run value. Holds for any touched
/// set whose keys are distinct.
pub proof fn lemma_delta_exact(
    init: Seq<((Seq<u8>, Seq<u8>), Seq<u8>)>,
    fin: Seq<((Seq<u8>, Seq<u8>), Seq<u8>)>,
    k: (Seq<u8>, Seq<u8>),
)
    requires
        forall|i: int, j: int| 0 <= i < j < fin.len() ==> (#[trigger] fin[i]).0 != (#[trigger] fin[j]).0,
    ensures
        match lookup_value(fin, k) {
            Some(v) => {
                if v != read_value(init, k) {
                    lookup_value(delta_views(init, fin), k) == Some(v)
                } else {
                    lookup_value(delta_views(init, fin), k) is None
                }
            },
            None => lookup_value(delta_views(init, fin), k) is None,
        },
    decreases fin.len(),
{
    if fin.len() == 0 {
    } else {
        let rest = fin.drop_first();
        assert(forall|i: int, j: int|
            0 <= i < j < rest.len() ==> (#[trigger] rest[i]).0 != (#[trigger] rest[j]).0);
        lemma_delta_exact(init, rest, k);
        assert(fin =~= seq![fin[0]] + rest);
        lemma_lookup_cons(fin[0], rest, k);
        if fin[0].1 != read_value(init, fin[0].0) {
            lemma_lookup_cons(fin[0], delta_views(init, rest), k);
        }
        if fin[0].0 == k {
            assert(forall|i: int| 0 <= i < rest.len() ==> (#[trigger] rest[i]).0 != k);
            lemma_lookup_absent(rest, k);
            lemma_delta_absent(init, rest, k);
        }
    }
}

} // verus!
