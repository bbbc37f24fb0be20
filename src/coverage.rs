//! Coverage hit maps: how often each program counter of each contract ran.

use vstd::prelude::*;
use crate::dictionary::bytes_eq;

verus! {

/// The hits of one program counter of one contract.
#[derive(Clone, Debug)]
pub struct Hit {
    pub address: [u8; 20],
    pub pc: u64,
    pub count: u64,
}

/// Hit counts of a run or of several runs together.
#[derive(Clone, Debug)]
pub struct HitMaps {
    hits: Vec<Hit>,
}

/// Whether the entry is that of program counter `pc` of contract `a`.
pub open spec fn hit_is(h: Hit, a: Seq<u8>, pc: u64) -> bool {
    h.address@ == a && h.pc == pc
}

/// The hits recorded in `s` for program counter `pc` of contract `a`.
pub open spec fn hits_in(s: Seq<Hit>, a: Seq<u8>, pc: u64) -> nat
    decreases s.len(),
{
    if s.len() == 0 {
        0
    } else {
        hits_in(s.drop_last(), a, pc) + if hit_is(s.last(), a, pc) {
            s.last().count as nat
        } else {
            0
        }
    }
}

/// Addition that stops at the largest `u64`.
pub open spec fn sat_add(x: nat, y: nat) -> nat {
    if x + y > u64::MAX {
        u64::MAX as nat
    } else {
        x + y
    }
}

proof fn lemma_hits_push(s: Seq<Hit>, h: Hit, a: Seq<u8>, pc: u64)
    ensures
        hits_in(s.push(h), a, pc) == hits_in(s, a, pc) + if hit_is(h, a, pc) {
            h.count as nat
        } else {
            0
        },
{
    assert(s.push(h).drop_last() =~= s);
}

proof fn lemma_hits_absent(s: Seq<Hit>, a: Seq<u8>, pc: u64)
    requires
        forall|i: int| 0 <= i < s.len() ==> !hit_is(#[trigger] s[i], a, pc),
    ensures
        hits_in(s, a, pc) == 0,
    decreases s.len(),
{
    if s.len() > 0 {
        lemma_hits_absent(s.drop_last(), a, pc);
    }
}

proof fn lemma_hits_update(s: Seq<Hit>, j: int, h: Hit, a: Seq<u8>, pc: u64)
    requires
        0 <= j < s.len(),
        hit_is(h, s[j].address@, s[j].pc),
    ensures
        hits_in(s.update(j, h), a, pc) + (if hit_is(s[j], a, pc) { s[j].count as nat } else { 0 })
            == hits_in(s, a, pc) + (if hit_is(h, a, pc) { h.count as nat } else { 0 }),
    decreases s.len(),
{
    if j == s.len() - 1 {
        assert(s.update(j, h).drop_last() =~= s.drop_last());
    } else {
        assert(s.update(j, h).drop_last() =~= s.drop_last().update(j, h));
        lemma_hits_update(s.drop_last(), j, h, a, pc);
    }
}

impl HitMaps {
    /// Well-formed: each program counter of each contract has one entry.
    pub closed spec fn wf(&self) -> bool {
        &&& forall|b: Seq<u8>, q: u64| #[trigger] hits_in(self.hits@, b, q) <= u64::MAX
        &&& forall|i: int, j: int|
            0 <= i < j < self.hits@.len() ==> !hit_is(
                #[trigger] self.hits@[i],
                (#[trigger] self.hits@[j]).address@,
                self.hits@[j].pc,
            )
    }

    /// How often program counter `pc` of contract `a` ran.
    pub closed spec fn count(&self, a: Seq<u8>, pc: u64) -> nat {
        hits_in(self.hits@, a, pc)
    }

    /// No count of a well-formed map exceeds the largest `u64`.
    pub proof fn lemma_count_bounded(&self, a: Seq<u8>, pc: u64)
        requires
            self.wf(),
        ensures
            self.count(a, pc) <= u64::MAX,
    {
    }

    pub fn new() -> (r: HitMaps)
        ensures
            r.wf(),
            forall|a: Seq<u8>, pc: u64| #[trigger] r.count(a, pc) == 0,
    {
        let r = HitMaps { hits: Vec::new() };
        assert forall|b: Seq<u8>, q: u64| #[trigger] hits_in(r.hits@, b, q) == 0 by {}
        r
    }

    /// Adds `n` hits of program counter `pc` of contract `a`, stopping at the
    /// largest `u64`.
    pub fn record(&mut self, a: [u8; 20], pc: u64, n: u64)
        requires
            old(self).wf(),
        ensures
            final(self).wf(),
            forall|b: Seq<u8>, q: u64| #[trigger] final(self).count(b, q) == if b == a@ && q == pc {
                sat_add(old(self).count(b, q), n as nat)
            } else {
                old(self).count(b, q)
            },
    {
        let ghost s0 = self.hits@;
        let mut j: usize = 0;
        while j < self.hits.len()
            invariant
                self.hits@ == s0,
                old(self).hits@ == s0,
                self.wf(),
                j <= s0.len(),
                forall|x: int| 0 <= x < j ==> !hit_is(#[trigger] s0[x], a@, pc),
            decreases s0.len() - j,
        {
            if self.hits[j].pc == pc && bytes_eq(self.hits[j].address.as_slice(), a.as_slice()) {
                let old_count = self.hits[j].count;
                let h = Hit { address: a, pc, count: old_count.saturating_add(n) };
                proof {
                    assert(hit_is(s0[j as int], a@, pc));
                    assert forall|b: Seq<u8>, q: u64| #[trigger] hits_in(s0.update(j as int, h), b, q) == if b == a@ && q == pc {
                        sat_add(hits_in(s0, b, q), n as nat)
                    } else {
                        hits_in(s0, b, q)
                    } by {
                        lemma_hits_update(s0, j as int, h, b, q);
                        if b == a@ && q == pc {
                            assert(hits_in(s0, b, q) == old(self).count(b, q));
                            lemma_count_unique(s0, j as int);
                        }
                    }
                }
                self.hits.set(j, h);
                proof {
                    assert forall|x: int, y: int| 0 <= x < y < self.hits@.len() implies !hit_is(
                        #[trigger] self.hits@[x],
                        (#[trigger] self.hits@[y]).address@,
                        self.hits@[y].pc,
                    ) by {
                        assert(!hit_is(s0[x], s0[y].address@, s0[y].pc));
                    }
                }
                return;
            }
            j = j + 1;
        }
        let h = Hit { address: a, pc, count: n };
        proof {
            assert forall|b: Seq<u8>, q: u64| #[trigger] hits_in(s0.push(h), b, q) == if b == a@ && q == pc {
                sat_add(hits_in(s0, b, q), n as nat)
            } else {
                hits_in(s0, b, q)
            } by {
                lemma_hits_push(s0, h, b, q);
                if b == a@ && q == pc {
                    lemma_hits_absent(s0, b, q);
                }
            }
        }
        self.hits.push(h);
    }

    /// Adds the hits of `other` to these.
    pub fn merge(&mut self, other: &HitMaps)
        requires
            old(self).wf(),
            other.wf(),
        ensures
            final(self).wf(),
            forall|b: Seq<u8>, q: u64| #[trigger] final(self).count(b, q) == sat_add(
                old(self).count(b, q),
                other.count(b, q),
            ),
    {
        let mut i: usize = 0;
        while i < other.hits.len()
            invariant
                self.wf(),
                i <= other.hits@.len(),
                forall|b: Seq<u8>, q: u64| #[trigger] self.count(b, q) == sat_add(
                    old(self).count(b, q),
                    hits_in(other.hits@.subrange(0, i as int), b, q),
                ),
            decreases other.hits@.len() - i,
        {
            let h = &other.hits[i];
            proof {
                assert(other.hits@.subrange(0, i as int + 1) =~= other.hits@.subrange(0, i as int).push(other.hits@[i as int]));
                assert forall|b: Seq<u8>, q: u64| #[trigger] hits_in(other.hits@.subrange(0, i as int + 1), b, q) == hits_in(other.hits@.subrange(0, i as int), b, q) + if hit_is(other.hits@[i as int], b, q) { h.count as nat } else { 0 } by {
                    lemma_hits_push(other.hits@.subrange(0, i as int), other.hits@[i as int], b, q);
                }
            }
            self.record(h.address, h.pc, h.count);
            i = i + 1;
        }
        proof {
            assert(other.hits@.subrange(0, i as int) =~= other.hits@);
        }
    }
}

proof fn lemma_count_unique(s: Seq<Hit>, j: int)
    requires
        0 <= j < s.len(),
        forall|i: int, k: int| 0 <= i < k < s.len() ==> !hit_is(#[trigger] s[i], (#[trigger] s[k]).address@, s[k].pc),
    ensures
        hits_in(s, s[j].address@, s[j].pc) == s[j].count,
    decreases s.len(),
{
    let a = s[j].address@;
    let pc = s[j].pc;
    if j == s.len() - 1 {
        assert forall|i: int| 0 <= i < s.drop_last().len() implies !hit_is(#[trigger] s.drop_last()[i], a, pc) by {
            assert(!hit_is(s[i], s[j].address@, s[j].pc));
        }
        lemma_hits_absent(s.drop_last(), a, pc);
    } else {
        lemma_count_unique(s.drop_last(), j);
        assert(!hit_is(s[j], s.last().address@, s.last().pc));
    }
}

} // verus!
