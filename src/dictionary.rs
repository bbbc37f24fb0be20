//! The session's value dictionary: 32-byte words and addresses harvested from
//! contract code, emitted logs and storage writes, sampled to bias inputs.

use vstd::prelude::*;

verus! {

/// An event emitted by a call.
#[derive(Clone, Debug)]
pub struct Log {
    pub address: [u8; 20],
    pub topics: Vec<[u8; 32]>,
    pub data: Vec<u8>,
}

/// One storage slot written by a call, with its value after the call.
#[derive(Clone, Debug)]
pub struct StorageChange {
    pub slot: [u8; 32],
    pub value: [u8; 32],
}

/// The storage writes of a call to one account.
#[derive(Clone, Debug)]
pub struct AccountChange {
    pub address: [u8; 20],
    pub storage: Vec<StorageChange>,
}

/// An account as the backend holds it when a session starts.
#[derive(Clone, Debug)]
pub struct AccountSnapshot {
    pub address: [u8; 20],
    pub code: Vec<u8>,
    pub storage: Vec<StorageChange>,
}

/// How the dictionary is filled and how much the strategy draws from it.
#[derive(Clone, Debug)]
pub struct FuzzDictionaryConfig {
    /// Share, out of 100, of inputs drawn with the dictionary's help.
    pub dictionary_weight: u32,
    /// Whether storage slots and values are harvested.
    pub include_storage: bool,
    /// Whether constants pushed by contract code are harvested.
    pub include_push_bytes: bool,
    /// Most words the dictionary keeps.
    pub max_fuzz_dictionary_values: usize,
    /// Most addresses the dictionary keeps.
    pub max_fuzz_dictionary_addresses: usize,
}

/// A byte string as a 32-byte word: zeros on the left.
pub open spec fn left_pad(b: Seq<u8>) -> Seq<u8> {
    Seq::new((32 - b.len()) as nat, |i: int| 0u8) + b
}

/// A byte string as a 32-byte word: zeros on the right.
pub open spec fn right_pad(b: Seq<u8>) -> Seq<u8> {
    b + Seq::new((32 - b.len()) as nat, |i: int| 0u8)
}

/// The `k`-th 32-byte chunk of `data`, the last one padded with zeros.
pub open spec fn data_chunk(data: Seq<u8>, k: int) -> Seq<u8> {
    let end = if (k + 1) * 32 <= data.len() {
        (k + 1) * 32
    } else {
        data.len() as int
    };
    right_pad(data.subrange(k * 32, end))
}

/// A word that a log offers: one of its topics or a chunk of its data.
pub open spec fn log_offers(l: Log, w: Seq<u8>) -> bool {
    (exists|t: int| 0 <= t < l.topics@.len() && l.topics@[t]@ == w) || (exists|k: int|
        0 <= k && k * 32 < l.data@.len() && data_chunk(l.data@, k) == w)
}

/// A word that a storage write offers, where storage is harvested: the slot
/// or its value.
pub open spec fn change_offers(a: AccountChange, w: Seq<u8>, include_storage: bool) -> bool {
    left_pad(a.address@) == w || (include_storage && exists|s: int|
        0 <= s < a.storage@.len() && (a.storage@[s].slot@ == w || a.storage@[s].value@ == w))
}

/// The dictionary of one session.
pub struct EvmFuzzState {
    values: Vec<[u8; 32]>,
    addresses: Vec<[u8; 20]>,
    max_values: usize,
    max_addresses: usize,
}

/// What the dictionary holds: its words and its addresses, in the order they
/// were first seen.
pub struct DictionaryView {
    pub values: Seq<Seq<u8>>,
    pub addresses: Seq<Seq<u8>>,
    pub max_values: nat,
    pub max_addresses: nat,
}

impl View for EvmFuzzState {
    type V = DictionaryView;

    closed spec fn view(&self) -> DictionaryView {
        DictionaryView {
            values: self.values@.map_values(|w: [u8; 32]| w@),
            addresses: self.addresses@.map_values(|a: [u8; 20]| a@),
            max_values: self.max_values as nat,
            max_addresses: self.max_addresses as nat,
        }
    }
}

/// `w` is held, or no more words fit.
pub open spec fn word_settled(d: DictionaryView, w: Seq<u8>) -> bool {
    d.values.contains(w) || d.values.len() >= d.max_values
}

/// `a` is held, or no more addresses fit.
pub open spec fn address_settled(d: DictionaryView, a: Seq<u8>) -> bool {
    d.addresses.contains(a) || d.addresses.len() >= d.max_addresses
}

/// A word that the logs or the storage writes of a call offer.
pub open spec fn call_offers_word(
    logs: Seq<Log>,
    changes: Seq<AccountChange>,
    include_storage: bool,
    w: Seq<u8>,
) -> bool {
    (exists|i: int| 0 <= i < logs.len() && log_offers(logs[i], w)) || (exists|i: int|
        0 <= i < changes.len() && change_offers(changes[i], w, include_storage))
}

/// An address whose storage a call wrote.
pub open spec fn call_offers_address(changes: Seq<AccountChange>, a: Seq<u8>) -> bool {
    exists|i: int| 0 <= i < changes.len() && changes[i].address@ == a
}

/// `after` keeps all of `before` in order, within the same bounds, and adds
/// only words and addresses that the call offers.
pub open spec fn grows_by_call(
    before: DictionaryView,
    after: DictionaryView,
    logs: Seq<Log>,
    changes: Seq<AccountChange>,
    include_storage: bool,
) -> bool {
    &&& after.max_values == before.max_values
    &&& after.max_addresses == before.max_addresses
    &&& before.values.is_prefix_of(after.values)
    &&& before.addresses.is_prefix_of(after.addresses)
    &&& forall|i: int|
        before.values.len() <= i < after.values.len() ==> call_offers_word(
            logs,
            changes,
            include_storage,
            #[trigger] after.values[i],
        )
    &&& forall|i: int|
        before.addresses.len() <= i < after.addresses.len() ==> call_offers_address(
            changes,
            #[trigger] after.addresses[i],
        )
}

/// The dictionary after a call was harvested: it grew only by what the call
/// offered, and what the call offered is held unless no more fits.
pub open spec fn absorbed(
    before: DictionaryView,
    after: DictionaryView,
    logs: Seq<Log>,
    changes: Seq<AccountChange>,
    include_storage: bool,
) -> bool {
    &&& grows_by_call(before, after, logs, changes, include_storage)
    &&& forall|w: Seq<u8>|
        call_offers_word(logs, changes, include_storage, w) ==> #[trigger] word_settled(after, w)
    &&& forall|a: Seq<u8>| call_offers_address(changes, a) ==> #[trigger] address_settled(after, a)
}

proof fn lemma_grows_step(
    before: DictionaryView,
    d0: DictionaryView,
    d1: DictionaryView,
    logs: Seq<Log>,
    changes: Seq<AccountChange>,
    include_storage: bool,
)
    requires
        grows_by_call(before, d0, logs, changes, include_storage),
        d1.max_values == d0.max_values,
        d1.max_addresses == d0.max_addresses,
        d1.values == d0.values || (d1.values == d0.values.push(d1.values.last()) && call_offers_word(
            logs,
            changes,
            include_storage,
            d1.values.last(),
        )),
        d1.addresses == d0.addresses || (d1.addresses == d0.addresses.push(d1.addresses.last())
            && call_offers_address(changes, d1.addresses.last())),
    ensures
        grows_by_call(before, d1, logs, changes, include_storage),
{
    assert(before.values =~= d1.values.subrange(0, before.values.len() as int));
    assert(before.addresses =~= d1.addresses.subrange(0, before.addresses.len() as int));
    assert forall|i: int| before.values.len() <= i < d1.values.len() implies call_offers_word(
        logs,
        changes,
        include_storage,
        #[trigger] d1.values[i],
    ) by {
        if i < d0.values.len() {
            assert(d1.values[i] == d0.values[i]);
        }
    }
    assert forall|i: int| before.addresses.len() <= i < d1.addresses.len() implies call_offers_address(
        changes,
        #[trigger] d1.addresses[i],
    ) by {
        if i < d0.addresses.len() {
            assert(d1.addresses[i] == d0.addresses[i]);
        }
    }
}

proof fn lemma_settled_keeps(d1: DictionaryView, d2: DictionaryView)
    requires
        d1.max_values == d2.max_values,
        d1.max_addresses == d2.max_addresses,
        d1.values.is_prefix_of(d2.values),
        d1.addresses.is_prefix_of(d2.addresses),
    ensures
        forall|w: Seq<u8>| word_settled(d1, w) ==> #[trigger] word_settled(d2, w),
        forall|a: Seq<u8>| address_settled(d1, a) ==> #[trigger] address_settled(d2, a),
{
    assert forall|w: Seq<u8>| word_settled(d1, w) implies #[trigger] word_settled(d2, w) by {
        if d1.values.contains(w) {
            let i = choose|i: int| 0 <= i < d1.values.len() && d1.values[i] == w;
            assert(d2.values[i] == w);
        }
    }
    assert forall|a: Seq<u8>| address_settled(d1, a) implies #[trigger] address_settled(d2, a) by {
        if d1.addresses.contains(a) {
            let i = choose|i: int| 0 <= i < d1.addresses.len() && d1.addresses[i] == a;
            assert(d2.addresses[i] == a);
        }
    }
}

/// Whether two byte strings are equal.
pub fn bytes_eq(a: &[u8], b: &[u8]) -> (r: bool)
    ensures
        r == (a@ == b@),
{
    if a.len() != b.len() {
        return false;
    }
    let mut i: usize = 0;
    while i < a.len()
        invariant
            a@.len() == b@.len(),
            i <= a@.len(),
            a@.subrange(0, i as int) == b@.subrange(0, i as int),
        decreases a@.len() - i,
    {
        if a[i] != b[i] {
            assert(a@[i as int] != b@[i as int]);
            return false;
        }
        assert(a@.subrange(0, i as int + 1) =~= a@.subrange(0, i as int).push(a@[i as int]));
        assert(b@.subrange(0, i as int + 1) =~= b@.subrange(0, i as int).push(b@[i as int]));
        i = i + 1;
    }
    assert(a@ =~= a@.subrange(0, i as int));
    assert(b@ =~= b@.subrange(0, i as int));
    true
}

/// The `k`-th 32-byte chunk of `data`, the last one padded with zeros.
pub fn chunk_word(data: &Vec<u8>, k: usize) -> (r: [u8; 32])
    requires
        k * 32 < data@.len(),
    ensures
        r@ == data_chunk(data@, k as int),
{
    let n: usize = data.len();
    let start: usize = k * 32;
    let end: usize = if n - start >= 32 {
        start + 32
    } else {
        data.len()
    };
    let mut buf = [0u8; 32];
    let mut j: usize = 0;
    while j < 32
        invariant
            start == k * 32,
            start <= end <= data@.len(),
            end - start <= 32,
            j <= 32,
            forall|x: int| 0 <= x < j ==> buf@[x] == (if start + x < end { data@[start + x] } else { 0u8 }),
            forall|x: int| j <= x < 32 ==> buf@[x] == 0u8,
        decreases 32 - j,
    {
        if start + j < end {
            buf[j] = data[start + j];
        }
        j = j + 1;
    }
    proof {
        let want = data_chunk(data@, k as int);
        assert(end == (if (k + 1) * 32 <= data@.len() { (k + 1) * 32 } else { data@.len() as int }));
        assert(buf@ =~= want);
    }
    buf
}

/// An address as a 32-byte word, zeros on the left.
pub fn address_word(a: &[u8; 20]) -> (r: [u8; 32])
    ensures
        r@ == left_pad(a@),
{
    let mut buf = [0u8; 32];
    let mut j: usize = 0;
    while j < 20
        invariant
            j <= 20,
            forall|x: int| 0 <= x < 12 ==> buf@[x] == 0u8,
            forall|x: int| 0 <= x < j ==> buf@[12 + x] == a@[x],
            forall|x: int| 12 + j <= x < 32 ==> buf@[x] == 0u8,
        decreases 20 - j,
    {
        buf[12 + j] = a[j];
        j = j + 1;
    }
    assert(buf@ =~= left_pad(a@));
    buf
}

impl EvmFuzzState {
    /// Well-formed: no word and no address is held twice, and neither list
    /// holds more than it may.
    pub open spec fn wf(&self) -> bool {
        &&& self@.values.no_duplicates()
        &&& self@.addresses.no_duplicates()
        &&& self@.values.len() <= self@.max_values
        &&& self@.addresses.len() <= self@.max_addresses
    }

    /// An empty dictionary with the bounds of `config`.
    pub fn new(config: &FuzzDictionaryConfig) -> (r: EvmFuzzState)
        ensures
            r.wf(),
            r@.values.len() == 0,
            r@.addresses.len() == 0,
            r@.max_values == config.max_fuzz_dictionary_values,
            r@.max_addresses == config.max_fuzz_dictionary_addresses,
    {
        let r = EvmFuzzState {
            values: Vec::new(),
            addresses: Vec::new(),
            max_values: config.max_fuzz_dictionary_values,
            max_addresses: config.max_fuzz_dictionary_addresses,
        };
        assert(r@.values =~= Seq::<Seq<u8>>::empty());
        assert(r@.addresses =~= Seq::<Seq<u8>>::empty());
        r
    }

    /// Number of words and addresses held.
    pub fn len(&self) -> (r: usize)
        requires
            self.wf(),
            self@.max_values + self@.max_addresses <= usize::MAX,
        ensures
            r == self@.values.len() + self@.addresses.len(),
    {
        self.values.len() + self.addresses.len()
    }

    /// Whether the word is held.
    pub fn contains_value(&self, w: &[u8; 32]) -> (r: bool)
        ensures
            r == self@.values.contains(w@),
    {
        let mut i: usize = 0;
        while i < self.values.len()
            invariant
                i <= self.values@.len(),
                forall|x: int| 0 <= x < i ==> self@.values[x] != w@,
            decreases self.values@.len() - i,
        {
            if bytes_eq(self.values[i].as_slice(), w.as_slice()) {
                assert(self@.values[i as int] == w@);
                return true;
            }
            i = i + 1;
        }
        false
    }

    /// Whether the address is held.
    pub fn contains_address(&self, a: &[u8; 20]) -> (r: bool)
        ensures
            r == self@.addresses.contains(a@),
    {
        let mut i: usize = 0;
        while i < self.addresses.len()
            invariant
                i <= self.addresses@.len(),
                forall|x: int| 0 <= x < i ==> self@.addresses[x] != a@,
            decreases self.addresses@.len() - i,
        {
            if bytes_eq(self.addresses[i].as_slice(), a.as_slice()) {
                assert(self@.addresses[i as int] == a@);
                return true;
            }
            i = i + 1;
        }
        false
    }

    /// Adds a word unless it is held already or no more words fit.
    pub fn insert_value(&mut self, w: [u8; 32])
        requires
            old(self).wf(),
        ensures
            final(self).wf(),
            final(self)@.addresses == old(self)@.addresses,
            final(self)@.max_values == old(self)@.max_values,
            final(self)@.max_addresses == old(self)@.max_addresses,
            final(self)@.values == (if word_settled(old(self)@, w@) {
                old(self)@.values
            } else {
                old(self)@.values.push(w@)
            }),
            word_settled(final(self)@, w@),
            forall|x: Seq<u8>| word_settled(old(self)@, x) ==> #[trigger] word_settled(final(self)@, x),
            forall|x: Seq<u8>| address_settled(old(self)@, x) ==> #[trigger] address_settled(final(self)@, x),
    {
        if !self.contains_value(&w) && self.values.len() < self.max_values {
            self.values.push(w);
            assert(self@.values =~= old(self)@.values.push(w@));
            assert(self@.values[self@.values.len() - 1] == w@);
        }
        proof {
            assert(old(self)@.values =~= self@.values.subrange(0, old(self)@.values.len() as int));
            assert(old(self)@.addresses =~= self@.addresses.subrange(0, old(self)@.addresses.len() as int));
            lemma_settled_keeps(old(self)@, self@);
        }
    }

    /// Adds an address unless it is held already or no more addresses fit.
    pub fn insert_address(&mut self, a: [u8; 20])
        requires
            old(self).wf(),
        ensures
            final(self).wf(),
            final(self)@.values == old(self)@.values,
            final(self)@.max_values == old(self)@.max_values,
            final(self)@.max_addresses == old(self)@.max_addresses,
            final(self)@.addresses == (if address_settled(old(self)@, a@) {
                old(self)@.addresses
            } else {
                old(self)@.addresses.push(a@)
            }),
            address_settled(final(self)@, a@),
            forall|x: Seq<u8>| word_settled(old(self)@, x) ==> #[trigger] word_settled(final(self)@, x),
            forall|x: Seq<u8>| address_settled(old(self)@, x) ==> #[trigger] address_settled(final(self)@, x),
    {
        if !self.contains_address(&a) && self.addresses.len() < self.max_addresses {
            self.addresses.push(a);
            assert(self@.addresses =~= old(self)@.addresses.push(a@));
            assert(self@.addresses[self@.addresses.len() - 1] == a@);
        }
        proof {
            assert(old(self)@.values =~= self@.values.subrange(0, old(self)@.values.len() as int));
            assert(old(self)@.addresses =~= self@.addresses.subrange(0, old(self)@.addresses.len() as int));
            lemma_settled_keeps(old(self)@, self@);
        }
    }

    /// Harvests a call: the address and, where storage is harvested, the
    /// written slots and values of each account the call changed, then the
    /// topics and the 32-byte data chunks of each log. A word or address
    /// already held, or one that no longer fits, is skipped.
    pub fn collect_state_from_call(
        &mut self,
        logs: &Vec<Log>,
        changes: &Vec<AccountChange>,
        config: &FuzzDictionaryConfig,
    )
        requires
            old(self).wf(),
        ensures
            final(self).wf(),
            absorbed(old(self)@, final(self)@, logs@, changes@, config.include_storage),
            final(self)@.values.len() + final(self)@.addresses.len() >= old(self)@.values.len()
                + old(self)@.addresses.len(),
    {
        let ghost before = self@;
        assert(before.values =~= before.values.subrange(0, before.values.len() as int));
        assert(before.addresses =~= before.addresses.subrange(0, before.addresses.len() as int));
        let mut i: usize = 0;
        while i < changes.len()
            invariant
                self.wf(),
                i <= changes@.len(),
                grows_by_call(before, self@, logs@, changes@, config.include_storage),
                forall|j: int| 0 <= j < i ==> address_settled(self@, #[trigger] changes@[j].address@),
                forall|j: int| 0 <= j < i ==> word_settled(self@, left_pad(#[trigger] changes@[j].address@)),
                forall|j: int, t: int|
                    0 <= j < i && config.include_storage && 0 <= t < changes@[j].storage@.len() ==> word_settled(
                        self@,
                        (#[trigger] changes@[j].storage@[t]).slot@,
                    ) && word_settled(self@, changes@[j].storage@[t].value@),
            decreases changes@.len() - i,
        {
            let a = &changes[i];
            let aw = address_word(&a.address);
            proof {
                assert(change_offers(changes@[i as int], aw@, config.include_storage));
                assert(call_offers_word(logs@, changes@, config.include_storage, aw@));
                assert(call_offers_address(changes@, a.address@));
            }
            let ghost d0 = self@;
            self.insert_address(a.address);
            proof { lemma_grows_step(before, d0, self@, logs@, changes@, config.include_storage); }
            let ghost d1 = self@;
            self.insert_value(aw);
            proof { lemma_grows_step(before, d1, self@, logs@, changes@, config.include_storage); }
            if config.include_storage {
                let mut t: usize = 0;
                while t < a.storage.len()
                    invariant
                        self.wf(),
                        config.include_storage,
                        i < changes@.len(),
                        a == changes@[i as int],
                        t <= a.storage@.len(),
                        grows_by_call(before, self@, logs@, changes@, config.include_storage),
                        forall|j: int| 0 <= j <= i ==> address_settled(self@, #[trigger] changes@[j].address@),
                        forall|j: int| 0 <= j <= i ==> word_settled(self@, left_pad(#[trigger] changes@[j].address@)),
                        forall|j: int, u: int|
                            0 <= j < i && 0 <= u < changes@[j].storage@.len() ==> word_settled(
                                self@,
                                (#[trigger] changes@[j].storage@[u]).slot@,
                            ) && word_settled(self@, changes@[j].storage@[u].value@),
                        forall|u: int|
                            0 <= u < t ==> word_settled(self@, (#[trigger] a.storage@[u]).slot@)
                                && word_settled(self@, a.storage@[u].value@),
                    decreases a.storage@.len() - t,
                {
                    let sc = &a.storage[t];
                    proof {
                        assert(change_offers(changes@[i as int], sc.slot@, config.include_storage));
                        assert(change_offers(changes@[i as int], sc.value@, config.include_storage));
                        assert(call_offers_word(logs@, changes@, config.include_storage, sc.slot@));
                        assert(call_offers_word(logs@, changes@, config.include_storage, sc.value@));
                    }
                    let ghost d1 = self@;
                    self.insert_value(sc.slot);
                    proof { lemma_grows_step(before, d1, self@, logs@, changes@, config.include_storage); }
                    let ghost d2 = self@;
                    self.insert_value(sc.value);
                    proof { lemma_grows_step(before, d2, self@, logs@, changes@, config.include_storage); }
                    t = t + 1;
                }
            }
            i = i + 1;
        }
        let mut i: usize = 0;
        while i < logs.len()
            invariant
                self.wf(),
                i <= logs@.len(),
                grows_by_call(before, self@, logs@, changes@, config.include_storage),
                forall|j: int| 0 <= j < changes@.len() ==> address_settled(self@, #[trigger] changes@[j].address@),
                forall|j: int| 0 <= j < changes@.len() ==> word_settled(self@, left_pad(#[trigger] changes@[j].address@)),
                forall|j: int, t: int|
                    0 <= j < changes@.len() && config.include_storage && 0 <= t < changes@[j].storage@.len() ==> word_settled(
                        self@,
                        (#[trigger] changes@[j].storage@[t]).slot@,
                    ) && word_settled(self@, changes@[j].storage@[t].value@),
                forall|j: int, t: int|
                    0 <= j < i && 0 <= t < logs@[j].topics@.len() ==> word_settled(
                        self@,
                        (#[trigger] logs@[j].topics@[t])@,
                    ),
                forall|j: int, k: int|
                    0 <= j < i && 0 <= k && k * 32 < logs@[j].data@.len() ==> word_settled(
                        self@,
                        #[trigger] data_chunk(logs@[j].data@, k),
                    ),
            decreases logs@.len() - i,
        {
            let l = &logs[i];
            let mut t: usize = 0;
            while t < l.topics.len()
                invariant
                    self.wf(),
                    i < logs@.len(),
                    l == logs@[i as int],
                    t <= l.topics@.len(),
                    grows_by_call(before, self@, logs@, changes@, config.include_storage),
                    forall|j: int| 0 <= j < changes@.len() ==> address_settled(self@, #[trigger] changes@[j].address@),
                    forall|j: int| 0 <= j < changes@.len() ==> word_settled(self@, left_pad(#[trigger] changes@[j].address@)),
                    forall|j: int, u: int|
                        0 <= j < changes@.len() && config.include_storage && 0 <= u < changes@[j].storage@.len() ==> word_settled(
                            self@,
                            (#[trigger] changes@[j].storage@[u]).slot@,
                        ) && word_settled(self@, changes@[j].storage@[u].value@),
                    forall|j: int, u: int|
                        0 <= j < i && 0 <= u < logs@[j].topics@.len() ==> word_settled(
                            self@,
                            (#[trigger] logs@[j].topics@[u])@,
                        ),
                    forall|j: int, k: int|
                        0 <= j < i && 0 <= k && k * 32 < logs@[j].data@.len() ==> word_settled(
                            self@,
                            #[trigger] data_chunk(logs@[j].data@, k),
                        ),
                    forall|u: int| 0 <= u < t ==> word_settled(self@, (#[trigger] l.topics@[u])@),
                decreases l.topics@.len() - t,
            {
                proof {
                    assert(log_offers(logs@[i as int], l.topics@[t as int]@));
                    assert(call_offers_word(logs@, changes@, config.include_storage, l.topics@[t as int]@));
                }
                let ghost d1 = self@;
                self.insert_value(l.topics[t]);
                proof { lemma_grows_step(before, d1, self@, logs@, changes@, config.include_storage); }
                t = t + 1;
            }
            let n_chunks: usize = if l.data.len() % 32 == 0 {
                l.data.len() / 32
            } else {
                l.data.len() / 32 + 1
            };
            let mut k: usize = 0;
            while k < n_chunks
                invariant
                    n_chunks * 32 >= l.data@.len(),
                    n_chunks == 0 || (n_chunks - 1) * 32 < l.data@.len(),
                    k <= n_chunks,
                    self.wf(),
                    i < logs@.len(),
                    l == logs@[i as int],
                    grows_by_call(before, self@, logs@, changes@, config.include_storage),
                    forall|j: int| 0 <= j < changes@.len() ==> address_settled(self@, #[trigger] changes@[j].address@),
                    forall|j: int| 0 <= j < changes@.len() ==> word_settled(self@, left_pad(#[trigger] changes@[j].address@)),
                    forall|j: int, u: int|
                        0 <= j < changes@.len() && config.include_storage && 0 <= u < changes@[j].storage@.len() ==> word_settled(
                            self@,
                            (#[trigger] changes@[j].storage@[u]).slot@,
                        ) && word_settled(self@, changes@[j].storage@[u].value@),
                    forall|j: int, u: int|
                        0 <= j <= i && 0 <= u < logs@[j].topics@.len() ==> word_settled(
                            self@,
                            (#[trigger] logs@[j].topics@[u])@,
                        ),
                    forall|j: int, m: int|
                        0 <= j < i && 0 <= m && m * 32 < logs@[j].data@.len() ==> word_settled(
                            self@,
                            #[trigger] data_chunk(logs@[j].data@, m),
                        ),
                    forall|m: int| 0 <= m < k && m * 32 < l.data@.len() ==> word_settled(self@, #[trigger] data_chunk(l.data@, m)),
                decreases n_chunks - k,
            {
                assert(k * 32 < l.data@.len()) by (nonlinear_arith)
                    requires k < n_chunks, (n_chunks - 1) * 32 < l.data@.len();
                let w = chunk_word(&l.data, k);
                proof {
                    assert(log_offers(logs@[i as int], w@));
                    assert(call_offers_word(logs@, changes@, config.include_storage, w@));
                }
                let ghost d1 = self@;
                self.insert_value(w);
                proof { lemma_grows_step(before, d1, self@, logs@, changes@, config.include_storage); }
                k = k + 1;
            }
            proof {
                assert forall|m: int| 0 <= m && m * 32 < l.data@.len() implies word_settled(self@, #[trigger] data_chunk(l.data@, m)) by {
                    assert(m < k) by (nonlinear_arith) requires m * 32 < l.data@.len(), k * 32 >= l.data@.len(), m >= 0;
                    assert(k * 32 >= l.data@.len());
                }
            }
            i = i + 1;
        }
        proof {
            assert forall|w: Seq<u8>| call_offers_word(logs@, changes@, config.include_storage, w) implies #[trigger] word_settled(self@, w) by {
                if exists|j: int| 0 <= j < logs@.len() && log_offers(logs@[j], w) {
                    let j = choose|j: int| 0 <= j < logs@.len() && log_offers(logs@[j], w);
                    if exists|t: int| 0 <= t < logs@[j].topics@.len() && logs@[j].topics@[t]@ == w {
                        let t = choose|t: int| 0 <= t < logs@[j].topics@.len() && logs@[j].topics@[t]@ == w;
                        assert(word_settled(self@, logs@[j].topics@[t]@));
                    } else {
                        let m = choose|m: int| 0 <= m && m * 32 < logs@[j].data@.len() && data_chunk(logs@[j].data@, m) == w;
                        assert(word_settled(self@, data_chunk(logs@[j].data@, m)));
                    }
                } else {
                    let j = choose|j: int| 0 <= j < changes@.len() && change_offers(changes@[j], w, config.include_storage);
                    if left_pad(changes@[j].address@) != w {
                        let t = choose|t: int| 0 <= t < changes@[j].storage@.len() && (changes@[j].storage@[t].slot@ == w || changes@[j].storage@[t].value@ == w);
                        assert(word_settled(self@, changes@[j].storage@[t].slot@));
                    }
                }
            }
            assert forall|a: Seq<u8>| call_offers_address(changes@, a) implies #[trigger] address_settled(self@, a) by {
                let j = choose|j: int| 0 <= j < changes@.len() && changes@[j].address@ == a;
                assert(address_settled(self@, changes@[j].address@));
            }
        }
    }
}

/// Whether `code[i]` is a PUSH instruction whose operand fits in `code`.
pub open spec fn push_at(code: Seq<u8>, i: int) -> bool {
    0 <= i < code.len() && 0x60 <= code[i] <= 0x7f && i + 1 + (code[i] - 0x5f) <= code.len()
}

/// The operand of the PUSH instruction at `i`, as a word.
pub open spec fn push_operand(code: Seq<u8>, i: int) -> Seq<u8> {
    left_pad(code.subrange(i + 1, i + 1 + (code[i] - 0x5f)))
}

/// `w` added to `held` unless it is held already or `max` entries are.
pub open spec fn add_entry(held: Seq<Seq<u8>>, max: nat, w: Seq<u8>) -> Seq<Seq<u8>> {
    if held.contains(w) || held.len() >= max {
        held
    } else {
        held.push(w)
    }
}

/// The entries of `ws` added to `held` one after another.
pub open spec fn add_entries(held: Seq<Seq<u8>>, max: nat, ws: Seq<Seq<u8>>) -> Seq<Seq<u8>>
    decreases ws.len(),
{
    if ws.len() == 0 {
        held
    } else {
        add_entry(add_entries(held, max, ws.drop_last()), max, ws.last())
    }
}

/// The slot and the value of each storage entry, in order.
pub open spec fn storage_words(st: Seq<StorageChange>) -> Seq<Seq<u8>>
    decreases st.len(),
{
    if st.len() == 0 {
        Seq::empty()
    } else {
        storage_words(st.drop_last()) + seq![st.last().slot@, st.last().value@]
    }
}

/// The operands of the PUSH instructions of `code` from `pc` on, walking
/// instruction by instruction; an operand cut short by the end of the code
/// ends the walk.
pub open spec fn push_words(code: Seq<u8>, pc: int) -> Seq<Seq<u8>>
    decreases code.len() - pc,
{
    if pc < 0 || pc >= code.len() {
        Seq::empty()
    } else if 0x60 <= code[pc] <= 0x7f {
        let n = code[pc] - 0x5f;
        if n >= code.len() - pc {
            Seq::empty()
        } else {
            seq![push_operand(code, pc)] + push_words(code, pc + n + 1)
        }
    } else {
        push_words(code, pc + 1)
    }
}

/// The words an account offers, in the order they are scanned: its address,
/// then, as `config` says, its storage and the constants its code pushes.
pub open spec fn account_words(a: AccountSnapshot, config: FuzzDictionaryConfig) -> Seq<Seq<u8>> {
    seq![left_pad(a.address@)] + (if config.include_storage {
        storage_words(a.storage@)
    } else {
        Seq::empty()
    }) + (if config.include_push_bytes {
        push_words(a.code@, 0)
    } else {
        Seq::empty()
    })
}

/// The words of all accounts, in order.
pub open spec fn seed_words(accounts: Seq<AccountSnapshot>, config: FuzzDictionaryConfig) -> Seq<Seq<u8>>
    decreases accounts.len(),
{
    if accounts.len() == 0 {
        Seq::empty()
    } else {
        seed_words(accounts.drop_last(), config) + account_words(accounts.last(), config)
    }
}

/// The addresses of all accounts, in order.
pub open spec fn seed_addresses(accounts: Seq<AccountSnapshot>) -> Seq<Seq<u8>> {
    accounts.map_values(|a: AccountSnapshot| a.address@)
}

proof fn lemma_add_push(held: Seq<Seq<u8>>, max: nat, ws: Seq<Seq<u8>>, w: Seq<u8>)
    ensures
        add_entries(held, max, ws.push(w)) == add_entry(add_entries(held, max, ws), max, w),
{
    assert(ws.push(w).drop_last() =~= ws);
}

/// The operand of the PUSH instruction at `i`, as a word.
fn push_word(code: &Vec<u8>, i: usize) -> (r: [u8; 32])
    requires
        push_at(code@, i as int),
    ensures
        r@ == push_operand(code@, i as int),
{
    let len: usize = code.len();
    let n: usize = (code[i] - 0x5f) as usize;
    let mut buf = [0u8; 32];
    let mut j: usize = 0;
    while j < n
        invariant
            push_at(code@, i as int),
            len == code@.len(),
            n == code@[i as int] - 0x5f,
            1 <= n <= 32,
            j <= n,
            forall|x: int| 0 <= x < 32 - n ==> buf@[x] == 0u8,
            forall|x: int| 32 - n <= x < 32 - n + j ==> #[trigger] buf@[x] == code@[i + 1 + x - (32 - n)],
            forall|x: int| 32 - n + j <= x < 32 ==> buf@[x] == 0u8,
        decreases n - j,
    {
        buf[32 - n + j] = code[i + 1 + j];
        j = j + 1;
    }
    assert(buf@ =~= push_operand(code@, i as int));
    buf
}

impl EvmFuzzState {
    /// Seeds a dictionary from the accounts of the backend, in order: the
    /// address of each, and as `config` says the slots and values of its
    /// storage and the constants its code pushes, each kept unless held
    /// already or no more fit.
    pub fn build_initial_state(accounts: &Vec<AccountSnapshot>, config: &FuzzDictionaryConfig) -> (r: EvmFuzzState)
        ensures
            r.wf(),
            r@.max_values == config.max_fuzz_dictionary_values,
            r@.max_addresses == config.max_fuzz_dictionary_addresses,
            r@.values == add_entries(
                Seq::empty(),
                config.max_fuzz_dictionary_values as nat,
                seed_words(accounts@, *config),
            ),
            r@.addresses == add_entries(
                Seq::empty(),
                config.max_fuzz_dictionary_addresses as nat,
                seed_addresses(accounts@),
            ),
    {
        let mut d = EvmFuzzState::new(config);
        let ghost mv = config.max_fuzz_dictionary_values as nat;
        let ghost ma = config.max_fuzz_dictionary_addresses as nat;
        let ghost mut words: Seq<Seq<u8>> = Seq::empty();
        let ghost mut addrs: Seq<Seq<u8>> = Seq::empty();
        assert(d@.values =~= add_entries(Seq::empty(), mv, words));
        assert(d@.addresses =~= add_entries(Seq::empty(), ma, addrs));
        let mut i: usize = 0;
        while i < accounts.len()
            invariant
                d.wf(),
                i <= accounts@.len(),
                mv == config.max_fuzz_dictionary_values,
                ma == config.max_fuzz_dictionary_addresses,
                d@.max_values == mv,
                d@.max_addresses == ma,
                words == seed_words(accounts@.subrange(0, i as int), *config),
                addrs == seed_addresses(accounts@.subrange(0, i as int)),
                d@.values == add_entries(Seq::empty(), mv, words),
                d@.addresses == add_entries(Seq::empty(), ma, addrs),
            decreases accounts@.len() - i,
        {
            let a = &accounts[i];
            let ghost start = words;
            d.insert_address(a.address);
            proof {
                lemma_add_push(Seq::empty(), ma, addrs, a.address@);
                addrs = addrs.push(a.address@);
            }
            let aw = address_word(&a.address);
            d.insert_value(aw);
            proof {
                lemma_add_push(Seq::empty(), mv, words, aw@);
                words = words.push(aw@);
            }
            let ghost after_address = words;
            if config.include_storage {
                let mut t: usize = 0;
                assert(a.storage@.subrange(0, 0) =~= Seq::<StorageChange>::empty());
                assert(words =~= after_address + storage_words(a.storage@.subrange(0, 0)));
                while t < a.storage.len()
                    invariant
                        d.wf(),
                        d@.max_values == mv,
                        d@.max_addresses == ma,
                        t <= a.storage@.len(),
                        words == after_address + storage_words(a.storage@.subrange(0, t as int)),
                        d@.values == add_entries(Seq::empty(), mv, words),
                        d@.addresses == add_entries(Seq::empty(), ma, addrs),
                    decreases a.storage@.len() - t,
                {
                    let sc = &a.storage[t];
                    d.insert_value(sc.slot);
                    proof {
                        lemma_add_push(Seq::empty(), mv, words, sc.slot@);
                        words = words.push(sc.slot@);
                    }
                    d.insert_value(sc.value);
                    proof {
                        lemma_add_push(Seq::empty(), mv, words, sc.value@);
                        words = words.push(sc.value@);
                        let st = a.storage@.subrange(0, t as int + 1);
                        assert(st.drop_last() =~= a.storage@.subrange(0, t as int));
                        assert(words =~= after_address + storage_words(st));
                    }
                    t = t + 1;
                }
                assert(a.storage@.subrange(0, t as int) =~= a.storage@);
            }
            let ghost after_storage = words;
            if config.include_push_bytes {
                let code = &a.code;
                let len: usize = code.len();
                let mut pc: usize = 0;
                assert(words =~= after_storage + Seq::empty());
                while pc < len
                    invariant
                        d.wf(),
                        d@.max_values == mv,
                        d@.max_addresses == ma,
                        len == code@.len(),
                        pc <= len,
                        words + push_words(code@, pc as int) == after_storage + push_words(code@, 0),
                        d@.values == add_entries(Seq::empty(), mv, words),
                        d@.addresses == add_entries(Seq::empty(), ma, addrs),
                    decreases len - pc,
                {
                    let op = code[pc];
                    if op >= 0x60 && op <= 0x7f {
                        let n: usize = (op - 0x5f) as usize;
                        if n <= len - pc - 1 {
                            let w = push_word(code, pc);
                            d.insert_value(w);
                            proof {
                                lemma_add_push(Seq::empty(), mv, words, w@);
                                assert(words.push(w@) + push_words(code@, pc + n + 1) =~= words
                                    + push_words(code@, pc as int));
                                words = words.push(w@);
                            }
                        }
                        if n >= len - pc {
                            pc = len;
                        } else {
                            pc = pc + n + 1;
                        }
                    } else {
                        pc = pc + 1;
                    }
                }
                assert(words =~= after_storage + push_words(code@, 0));
            }
            proof {
                let acc = accounts@.subrange(0, i as int + 1);
                assert(acc.drop_last() =~= accounts@.subrange(0, i as int));
                assert(words =~= start + account_words(accounts@[i as int], *config));
                assert(words == seed_words(acc, *config));
                assert(addrs =~= seed_addresses(acc));
            }
            i = i + 1;
        }
        proof {
            assert(accounts@.subrange(0, i as int) =~= accounts@);
        }
        d
    }

    /// The word at `index`, counted round the words held; `None` when none
    /// is held.
    pub fn sample_value(&self, index: usize) -> (r: Option<[u8; 32]>)
        ensures
            self@.values.len() == 0 <==> r.is_none(),
            r matches Some(w) ==> w@ == self@.values[index as int % self@.values.len() as int],
    {
        if self.values.len() == 0 {
            None
        } else {
            Some(self.values[index % self.values.len()])
        }
    }

    /// The address at `index`, counted round the addresses held; `None`
    /// when none is held.
    pub fn sample_address(&self, index: usize) -> (r: Option<[u8; 20]>)
        ensures
            self@.addresses.len() == 0 <==> r.is_none(),
            r matches Some(a) ==> a@ == self@.addresses[index as int % self@.addresses.len() as int],
    {
        if self.addresses.len() == 0 {
            None
        } else {
            Some(self.addresses[index % self.addresses.len()])
        }
    }
}

} // verus!
