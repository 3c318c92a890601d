//! Control and status register (CSR) container.
//!
//! CSR addressing is modeled here with the standard addresses and a sparse
//! backing store. Reading an unwritten CSR returns `0`. The counter CSRs
//! (`cycle`, `instret` and their high halves) are served by the CPU from its
//! own counters, not from this store.

use std::collections::BTreeMap;
use vstd::prelude::*;

pub mod addr;

verus! {

/// The value of CSR `a` in the store `m`; unwritten CSRs read as 0.
pub open spec fn csr_value(m: Map<u32, u32>, a: u32) -> u32 {
    if m.contains_key(a) {
        m[a]
    } else {
        0
    }
}

/// A sparse CSR register file.
#[derive(Debug)]
pub struct Csr {
    data: BTreeMap<u32, u32>,
}

impl View for Csr {
    type V = Map<u32, u32>;

    closed spec fn view(&self) -> Map<u32, u32> {
        self.data@
    }
}

impl Default for Csr {
    fn default() -> (r: Self)
        ensures
            r@ == Map::<u32, u32>::empty(),
    {
        Csr::new()
    }
}

impl Csr {
    /// Create an empty CSR file.
    pub fn new() -> (r: Self)
        ensures
            r@ == Map::<u32, u32>::empty(),
    {
        Csr { data: BTreeMap::new() }
    }

    /// Read a CSR; unwritten CSRs read as 0.
    pub fn read(&self, csr: u32) -> (r: u32)
        ensures
            r == csr_value(self@, csr),
    {
        match self.data.get(&csr) {
            Some(v) => *v,
            None => 0,
        }
    }

    /// Write a CSR.
    pub fn write(&mut self, csr: u32, val: u32)
        ensures
            final(self)@ == old(self)@.insert(csr, val),
    {
        self.data.insert(csr, val);
    }
}

/// Reading a CSR just written gives the written value back; other CSRs keep
/// their values, and a fresh file reads zero everywhere.
pub proof fn lemma_csr_read_after_write(m: Map<u32, u32>, a: u32, v: u32, b: u32)
    ensures
        csr_value(m.insert(a, v), b) == (if a == b {
            v
        } else {
            csr_value(m, b)
        }),
        csr_value(Map::<u32, u32>::empty(), b) == 0,
{
}

/// The store `m` after the writes `ws` (address, value), in order.
pub open spec fn apply_writes(m: Map<u32, u32>, ws: Seq<(u32, u32)>) -> Map<u32, u32>
    decreases ws.len(),
{
    if ws.len() == 0 {
        m
    } else {
        apply_writes(m, ws.drop_last()).insert(ws.last().0, ws.last().1)
    }
}

/// After a fresh file takes the writes `ws` in order, a CSR reads the value
/// of the last write to it, or 0 if none wrote it.
pub proof fn lemma_csr_reads_last_write(ws: Seq<(u32, u32)>, a: u32)
    ensures
        forall|k: int|
            0 <= k < ws.len() && (#[trigger] ws[k]).0 == a && (forall|j: int|
                k < j < ws.len() ==> ws[j].0 != a) ==> csr_value(
                apply_writes(Map::empty(), ws),
                a,
            ) == ws[k].1,
        (forall|k: int| 0 <= k < ws.len() ==> (#[trigger] ws[k]).0 != a) ==> csr_value(
            apply_writes(Map::empty(), ws),
            a,
        ) == 0,
    decreases ws.len(),
{
    if ws.len() > 0 {
        let rest = ws.drop_last();
        lemma_csr_reads_last_write(rest, a);
        assert forall|k: int|
            0 <= k < ws.len() && (#[trigger] ws[k]).0 == a && (forall|j: int|
                k < j < ws.len() ==> ws[j].0 != a) implies csr_value(
            apply_writes(Map::empty(), ws),
            a,
        ) == ws[k].1 by {
            if k < ws.len() - 1 {
                assert(ws[ws.len() - 1].0 != a);
                assert(rest[k] == ws[k]);
                assert forall|j: int| k < j < rest.len() implies rest[j].0 != a by {
                    assert(rest[j] == ws[j]);
                }
            }
        }
        if forall|k: int| 0 <= k < ws.len() ==> (#[trigger] ws[k]).0 != a {
            assert(ws[ws.len() - 1].0 != a);
            assert forall|k: int| 0 <= k < rest.len() implies (#[trigger] rest[k]).0 != a by {
                assert(rest[k] == ws[k]);
            }
        }
    }
}

} // verus!
