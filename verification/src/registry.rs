//! The known-contract registry: compiled contract bodies keyed by their
//! content hash. The hash-keyed table is the only way the VM resolves
//! which code runs at which hash during execution.

use vstd::prelude::*;

use crate::errors::VmError;
use crate::words::Word;
use crate::words::copy_bytes;
use crate::words::bytes_eq;
use crate::words::is_word;
use crate::words::views_of;

verus! {

/// One compiled contract body: an ordered sequence of 32-byte words.
pub type Bytecode = Vec<Word>;

/// Every word of a bytecode is well-formed.
pub open spec fn bytecode_wf(c: Seq<Vec<u8>>) -> bool {
    forall|i: int| 0 <= i < c.len() ==> is_word(#[trigger] c[i]@)
}

/// Copies a bytecode word for word.
pub fn copy_words(src: &Bytecode) -> (r: Bytecode)
    ensures
        r@.len() == src@.len(),
        forall|i: int| 0 <= i < r@.len() ==> r@[i]@ == src@[i]@,
        views_of(r@) == views_of(src@),
{
    let mut r: Bytecode = Vec::new();
    let mut i: usize = 0;
    while i < src.len()
        invariant
            i <= src@.len(),
            r@.len() == i,
            forall|j: int| 0 <= j < i ==> r@[j]@ == src@[j]@,
        decreases src.len() - i,
    {
        let w = copy_bytes(&src[i]);
        r.push(w);
        i = i + 1;
    }
    assert(views_of(r@) =~= views_of(src@));
    r
}

/// The bytecode-hash encoding scheme. It is selected process-wide before
/// any run and threaded explicitly through every hashing call; the two
/// schemes must never be mixed within one run.
#[derive(Clone, Copy, Debug, PartialEq, Eq, Structural)]
pub enum EncodingMode {
    /// The wide (16-byte opcode) test encoding.
    Testing,
    /// The production (8-byte opcode) encoding.
    Production,
}

/// The versioned content hash of a bytecode: what
/// `zkevm_opcode_defs::bytecode_to_code_hash_for_mode` returns for the
/// words. A function of the words alone.
pub uninterp spec fn code_hash_of(words: Seq<Seq<u8>>) -> Seq<u8>;

/// A bytecode the selected scheme can hash: an odd number of 32-byte
/// words, no more than the scheme's program-counter width allows.
pub open spec fn hashable(words: Seq<Seq<u8>>, mode: EncodingMode) -> bool {
    &&& words.len() % 2 == 1
    &&& words.len() <= (match mode {
        EncodingMode::Testing => 0xFFFF_FFFFnat,
        EncodingMode::Production => 0xFFFFnat,
    })
}

/// Relies on `zkevm_opcode_defs::bytecode_to_code_hash_for_mode` with the
/// testing encoding: it succeeds exactly on an odd number of words that
/// fits the mode's 32-bit program counter, and the versioned digest it
/// returns is 32 bytes computed from the bytecode words alone.
#[verifier::external_body]
fn hash_code_testing(words: &Bytecode) -> (r: Option<Word>)
    requires
        bytecode_wf(words@),
    ensures
        r is Some <==> hashable(views_of(words@), EncodingMode::Testing),
        r matches Some(h) ==> is_word(h@) && h@ == code_hash_of(views_of(words@)),
{
    let arrays: Vec<[u8; 32]> = words.iter().map(|w| <[u8; 32]>::try_from(w.as_slice()).unwrap()).collect();
    let hashed = zkevm_opcode_defs::bytecode_to_code_hash_for_mode::<
        16,
        zkevm_opcode_defs::decoding::EncodingModeTesting,
    >(&arrays);
    match hashed {
        Ok(h) => Some(h.to_vec()),
        Err(()) => None,
    }
}

/// Relies on `zkevm_opcode_defs::bytecode_to_code_hash_for_mode` with the
/// production encoding: it succeeds exactly on an odd number of words
/// that fits the mode's 16-bit program counter, and the versioned digest
/// it returns is 32 bytes computed from the bytecode words alone.
#[verifier::external_body]
fn hash_code_production(words: &Bytecode) -> (r: Option<Word>)
    requires
        bytecode_wf(words@),
    ensures
        r is Some <==> hashable(views_of(words@), EncodingMode::Production),
        r matches Some(h) ==> is_word(h@) && h@ == code_hash_of(views_of(words@)),
{
    let arrays: Vec<[u8; 32]> = words.iter().map(|w| <[u8; 32]>::try_from(w.as_slice()).unwrap()).collect();
    let hashed = zkevm_opcode_defs::bytecode_to_code_hash_for_mode::<
        8,
        zkevm_opcode_defs::decoding::EncodingModeProduction,
    >(&arrays);
    match hashed {
        Ok(h) => Some(h.to_vec()),
        Err(()) => None,
    }
}

/// Hashes one contract body with the selected encoding scheme.
pub fn hash_bytecode(words: &Bytecode, mode: EncodingMode) -> (r: Option<Word>)
    requires
        bytecode_wf(words@),
    ensures
        r is Some <==> hashable(views_of(words@), mode),
        r matches Some(h) ==> is_word(h@) && h@ == code_hash_of(views_of(words@)),
{
    match mode {
        EncodingMode::Testing => hash_code_testing(words),
        EncodingMode::Production => hash_code_production(words),
    }
}

/// The view of registry entries: (hash, body words) pairs.
pub open spec fn reg_views(s: Seq<(Word, Bytecode)>) -> Seq<(Seq<u8>, Seq<Seq<u8>>)> {
    s.map_values(|e: (Word, Bytecode)| (e.0@, views_of(e.1@)))
}

/// The newest body recorded under a hash, if any.
pub open spec fn lookup_code(s: Seq<(Seq<u8>, Seq<Seq<u8>>)>, h: Seq<u8>) -> Option<Seq<Seq<u8>>>
    decreases s.len(),
{
    if s.len() == 0 {
        None
    } else if s.last().0 == h {
        Some(s.last().1)
    } else {
        lookup_code(s.drop_last(), h)
    }
}

/// The entries that registering a list of contract bodies adds: each body
/// under its content hash, in order.
pub open spec fn registered_entries(cs: Seq<Seq<Seq<u8>>>) -> Seq<(Seq<u8>, Seq<Seq<u8>>)> {
    cs.map_values(|c: Seq<Seq<u8>>| (code_hash_of(c), c))
}

/// The views of a list of contract bodies.
pub open spec fn code_views(cs: Seq<Bytecode>) -> Seq<Seq<Seq<u8>>> {
    cs.map_values(|c: Bytecode| views_of(c@))
}

/// A code-by-hash table. Lookups find the newest entry for a hash, so
/// appending an entry overrides an older recording of the same hash.
pub struct ContractRegistry {
    /// The recorded (hash, body) pairs, oldest first.
    pub entries: Vec<(Word, Bytecode)>,
}

impl ContractRegistry {
    /// The (hash, body words) pairs the registry holds.
    pub open spec fn view_entries(self) -> Seq<(Seq<u8>, Seq<Seq<u8>>)> {
        reg_views(self.entries@)
    }

    /// Every hash is a word and every body well-formed.
    pub open spec fn wf(self) -> bool {
        forall|i: int|
            0 <= i < self.entries@.len() ==> is_word(#[trigger] self.entries@[i].0@)
                && bytecode_wf(self.entries@[i].1@)
    }

    /// An empty registry.
    pub fn new() -> (r: Self)
        ensures
            r.wf(),
            r.view_entries() == Seq::<(Seq<u8>, Seq<Seq<u8>>)>::empty(),
    {
        let r = ContractRegistry { entries: Vec::new() };
        assert(r.view_entries() =~= Seq::<(Seq<u8>, Seq<Seq<u8>>)>::empty());
        r
    }

    /// Records a body under a hash; the newest recording wins lookups.
    pub fn insert(&mut self, hash: Word, code: Bytecode)
        requires
            old(self).wf(),
            is_word(hash@),
            bytecode_wf(code@),
        ensures
            final(self).wf(),
            final(self).view_entries() == old(self).view_entries().push((hash@, views_of(code@))),
    {
        proof {
            assert(reg_views(self.entries@.push((hash, code))) =~= reg_views(self.entries@).push(
                (hash@, views_of(code@)),
            ));
        }
        self.entries.push((hash, code));
    }

    /// Looks a hash up and hands back a copy of the newest body under it.
    pub fn get(&self, hash: &Word) -> (r: Option<Bytecode>)
        requires
            self.wf(),
        ensures
            match r {
                Some(c) => lookup_code(self.view_entries(), hash@) == Some(views_of(c@))
                    && bytecode_wf(c@),
                None => lookup_code(self.view_entries(), hash@) is None,
            },
    {
        let ghost views = self.view_entries();
        let mut i: usize = self.entries.len();
        proof {
            assert(views.take(i as int) =~= views);
        }
        while i > 0
            invariant
                i <= self.entries@.len(),
                self.wf(),
                views == self.view_entries(),
                lookup_code(views, hash@) == lookup_code(views.take(i as int), hash@),
            decreases i,
        {
            proof {
                assert(views.take(i as int).last() == views[i as int - 1]);
                assert(views.take(i as int).drop_last() =~= views.take(i as int - 1));
            }
            if bytes_eq(&self.entries[i - 1].0, hash) {
                let c = copy_words(&self.entries[i - 1].1);
                assert(lookup_code(views.take(i as int), hash@) == Some(views_of(c@)));
                return Some(c);
            }
            i = i - 1;
        }
        assert(views.take(0) =~= Seq::<(Seq<u8>, Seq<Seq<u8>>)>::empty());
        None
    }

    /// Appends a copy of every entry of another table; the appended
    /// entries, being newer, win lookups on their hashes.
    pub fn extend_from(&mut self, other: &ContractRegistry)
        requires
            old(self).wf(),
            other.wf(),
        ensures
            final(self).wf(),
            final(self).view_entries() == old(self).view_entries() + other.view_entries(),
    {
        let mut i: usize = 0;
        proof {
            assert(self.view_entries() =~= old(self).view_entries() + other.view_entries().take(
                0,
            ));
        }
        while i < other.entries.len()
            invariant
                i <= other.entries@.len(),
                self.wf(),
                other.wf(),
                self.view_entries() == old(self).view_entries() + other.view_entries().take(
                    i as int,
                ),
            decreases other.entries.len() - i,
        {
            let hash = copy_bytes(&other.entries[i].0);
            let code = copy_words(&other.entries[i].1);
            self.insert(hash, code);
            proof {
                assert(self.view_entries() =~= old(self).view_entries()
                    + other.view_entries().take(i as int + 1));
            }
            i = i + 1;
        }
        proof {
            assert(other.view_entries().take(i as int) =~= other.view_entries());
        }
    }

    /// Hashes every supplied contract body with the selected encoding
    /// scheme and registers each under its hash, in order. Succeeds if
    /// and only if every body is hashable under the scheme; on failure
    /// the registry is left unchanged.
    pub fn register_contracts(&mut self, contracts: &Vec<Bytecode>, mode: EncodingMode) -> (r:
        Result<(), VmError>)
        requires
            old(self).wf(),
            forall|i: int| 0 <= i < contracts@.len() ==> bytecode_wf(#[trigger] contracts@[i]@),
        ensures
            r is Ok <==> (forall|i: int|
                0 <= i < contracts@.len() ==> hashable(#[trigger] code_views(contracts@)[i], mode)),
            r is Ok ==> final(self).wf() && final(self).view_entries() == old(
                self,
            ).view_entries() + registered_entries(code_views(contracts@)),
            r is Err ==> *final(self) == *old(self) && r == Err::<(), VmError>(
                VmError::BytecodeNotHashable,
            ),
    {
        let mut hashes: Vec<Word> = Vec::new();
        let mut i: usize = 0;
        while i < contracts.len()
            invariant
                i <= contracts@.len(),
                hashes@.len() == i,
                forall|j: int|
                    0 <= j < contracts@.len() ==> bytecode_wf(#[trigger] contracts@[j]@),
                forall|j: int|
                    0 <= j < i ==> hashable(#[trigger] code_views(contracts@)[j], mode),
                forall|j: int|
                    0 <= j < i ==> is_word(#[trigger] hashes@[j]@) && hashes@[j]@ == code_hash_of(
                        code_views(contracts@)[j],
                    ),
            decreases contracts.len() - i,
        {
            match hash_bytecode(&contracts[i], mode) {
                Some(h) => {
                    hashes.push(h);
                },
                None => {
                    assert(!hashable(code_views(contracts@)[i as int], mode));
                    return Err(VmError::BytecodeNotHashable);
                },
            }
            i = i + 1;
        }
        let mut k: usize = 0;
        proof {
            assert(self.view_entries() =~= old(self).view_entries() + registered_entries(
                code_views(contracts@),
            ).take(0));
        }
        while k < contracts.len()
            invariant
                k <= contracts@.len(),
                hashes@.len() == contracts@.len(),
                self.wf(),
                forall|j: int|
                    0 <= j < contracts@.len() ==> bytecode_wf(#[trigger] contracts@[j]@),
                forall|j: int|
                    0 <= j < contracts@.len() ==> is_word(#[trigger] hashes@[j]@) && hashes@[j]@
                        == code_hash_of(code_views(contracts@)[j]),
                self.view_entries() == old(self).view_entries() + registered_entries(
                    code_views(contracts@),
                ).take(k as int),
            decreases contracts.len() - k,
        {
            let h = copy_bytes(&hashes[k]);
            let c = copy_words(&contracts[k]);
            self.insert(h, c);
            proof {
                assert(self.view_entries() =~= old(self).view_entries() + registered_entries(
                    code_views(contracts@),
                ).take(k as int + 1));
            }
            k = k + 1;
        }
        proof {
            assert(registered_entries(code_views(contracts@)).take(k as int)
                =~= registered_entries(code_views(contracts@)));
        }
        Ok(())
    }
}

} // verus!
