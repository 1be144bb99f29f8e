//! Which announced objects a session asks for: each hash once in a session,
//! and of one `inv` payload at most ten transactions and three blocks.

use std::collections::HashMap;
use vstd::prelude::*;

use crate::p2p::bytes::{le_u64_at, read_u64_le};
use crate::p2p::inventory::{InventoryEntry, InventoryItem, InventoryType};
use crate::p2p::text::bytes_eq;

verus! {

broadcast use vstd::std_specs::hash::group_hash_axioms;

/// How many transactions of one `inv` payload are requested at most.
pub const MAX_TX_REQUESTS: usize = 10;

/// How many blocks of one `inv` payload are requested at most.
pub const MAX_BLOCK_REQUESTS: usize = 3;

/// The hashes that a session has seen announced, kept in buckets by their
/// first eight bytes.
#[derive(Debug)]
pub struct SeenInventory {
    buckets: HashMap<u64, Vec<[u8; 32]>>,
}

/// The bucket of a hash: its first eight bytes, read as a little-endian
/// number.
pub open spec fn bucket_key(hash: Seq<u8>) -> u64 {
    le_u64_at(hash, 0) as u64
}

/// The set of the hashes in the buckets: a hash belongs to it where the
/// bucket of its key holds it.
pub open spec fn bucketed(buckets: Map<u64, Vec<[u8; 32]>>) -> Set<Seq<u8>> {
    Set::new(
        |h: Seq<u8>|
            buckets.contains_key(bucket_key(h)) && exists|i: int|
                0 <= i < buckets[bucket_key(h)]@.len() && (#[trigger] buckets[bucket_key(
                    h,
                )]@[i])@ == h,
    )
}

impl View for SeenInventory {
    type V = Set<Seq<u8>>;

    closed spec fn view(&self) -> Set<Seq<u8>> {
        bucketed(self.buckets@)
    }
}

impl SeenInventory {
    /// Nothing seen yet.
    pub fn new() -> (seen: SeenInventory)
        ensures
            seen@ == Set::<Seq<u8>>::empty(),
    {
        let seen = SeenInventory { buckets: HashMap::new() };
        assert(seen@ =~= Set::<Seq<u8>>::empty());
        seen
    }

    /// Whether `hash` was seen.
    pub fn contains(&self, hash: &[u8; 32]) -> (found: bool)
        ensures
            found == self@.contains(hash@),
    {
        let key: u64 = read_u64_le(hash.as_slice(), 0);
        match self.buckets.get(&key) {
            None => false,
            Some(bucket) => {
                let n: usize = bucket.len();
                let mut i: usize = 0;
                while i < n
                    invariant
                        i <= n,
                        n == bucket@.len(),
                        key == bucket_key(hash@),
                        self.buckets@.contains_key(key),
                        *bucket == self.buckets@[key],
                        forall|j: int| 0 <= j < i ==> (#[trigger] bucket@[j])@ != hash@,
                    decreases n - i,
                {
                    if bytes_eq(bucket[i].as_slice(), hash.as_slice()) {
                        assert(self.buckets@[bucket_key(hash@)]@[i as int]@ == hash@);
                        return true;
                    }
                    i += 1;
                }
                false
            },
        }
    }

    /// Records `hash` as seen.
    pub fn insert(&mut self, hash: [u8; 32])
        ensures
            final(self)@ == old(self)@.insert(hash@),
    {
        if self.contains(&hash) {
            assert(self@ =~= self@.insert(hash@));
            return ;
        }
        let key: u64 = read_u64_le(hash.as_slice(), 0);
        let ghost before = self.buckets@;
        let mut bucket: Vec<[u8; 32]> = match self.buckets.remove(&key) {
            Some(bucket) => bucket,
            None => Vec::new(),
        };
        let ghost held = bucket@;
        bucket.push(hash);
        self.buckets.insert(key, bucket);
        proof {
            let after = self.buckets@;
            assert(after.contains_key(key));
            assert(after[key]@ == held.push(hash));
            assert(before.contains_key(key) ==> before[key]@ == held);
            assert(!before.contains_key(key) ==> held.len() == 0);
            assert forall|h: Seq<u8>| bucketed(after).contains(h) <==> bucketed(before).insert(
                hash@,
            ).contains(h) by {
                let k = bucket_key(h);
                if k == key {
                    if bucketed(after).contains(h) {
                        let i = choose|i: int|
                            0 <= i < after[k]@.len() && (#[trigger] after[k]@[i])@ == h;
                        if i < held.len() {
                            assert(before[k]@[i]@ == h);
                        }
                    }
                    if bucketed(before).contains(h) {
                        let i = choose|i: int|
                            0 <= i < before[k]@.len() && (#[trigger] before[k]@[i])@ == h;
                        assert(after[k]@[i]@ == h);
                    }
                    if h == hash@ {
                        assert(after[k]@[held.len() as int]@ == h);
                    }
                } else {
                    assert(after.contains_key(k) == before.contains_key(k));
                    if before.contains_key(k) {
                        assert(after[k] == before[k]);
                    }
                }
            }
            assert(self@ =~= old(self)@.insert(hash@));
        }
    }
}

/// How far the handling of one `inv` payload has come: the hashes seen, the
/// entries to request, and how many of those are transactions and blocks.
pub ghost struct InvProgress {
    pub seen: Set<Seq<u8>>,
    pub batch: Seq<InventoryEntry>,
    pub transactions: nat,
    pub blocks: nat,
}

/// The start of a payload: nothing to request yet.
pub open spec fn inv_start(seen: Set<Seq<u8>>) -> InvProgress {
    InvProgress { seen, batch: Seq::empty(), transactions: 0, blocks: 0 }
}

/// One announced entry: skipped where its hash was seen; else recorded as
/// seen, and requested where it is a compact block, one of the payload's
/// first ten new transactions or one of its first three new blocks.
pub open spec fn inv_step(p: InvProgress, item: InventoryEntry) -> InvProgress {
    if p.seen.contains(item.hash) {
        p
    } else {
        let seen = p.seen.insert(item.hash);
        if item.inv_type.is_transaction() && p.transactions < MAX_TX_REQUESTS {
            InvProgress {
                seen,
                batch: p.batch.push(item),
                transactions: p.transactions + 1,
                blocks: p.blocks,
            }
        } else if item.inv_type.is_block() && p.blocks < MAX_BLOCK_REQUESTS {
            InvProgress {
                seen,
                batch: p.batch.push(item),
                transactions: p.transactions,
                blocks: p.blocks + 1,
            }
        } else if item.inv_type == InventoryType::CompactBlock {
            InvProgress { seen, batch: p.batch.push(item), ..p }
        } else {
            InvProgress { seen, ..p }
        }
    }
}

/// The entries of a payload, one after the other.
pub open spec fn inv_fold(p: InvProgress, items: Seq<InventoryEntry>) -> InvProgress
    decreases items.len(),
{
    if items.len() == 0 {
        p
    } else {
        inv_step(inv_fold(p, items.drop_last()), items.last())
    }
}

/// The number of compact blocks among `items`.
pub open spec fn compact_count(items: Seq<InventoryEntry>) -> nat
    decreases items.len(),
{
    if items.len() == 0 {
        0
    } else {
        compact_count(items.drop_last()) + if items.last().inv_type
            == InventoryType::CompactBlock {
            1nat
        } else {
            0nat
        }
    }
}

/// The policy's bound. Of any payload, the request holds at most ten
/// transactions and three blocks besides the payload's compact blocks, and
/// never more entries than the payload; it holds entries of the payload
/// only, none that was seen before, and every requested hash is seen
/// afterwards, as every hash seen before still is.
pub proof fn lemma_inventory_policy_bound(seen: Set<Seq<u8>>, items: Seq<InventoryEntry>)
    ensures
        ({
            let done = inv_fold(inv_start(seen), items);
            &&& done.transactions <= MAX_TX_REQUESTS
            &&& done.blocks <= MAX_BLOCK_REQUESTS
            &&& done.batch.len() == done.transactions + done.blocks + compact_count(done.batch)
            &&& compact_count(done.batch) <= compact_count(items)
            &&& done.batch.len() <= MAX_TX_REQUESTS + MAX_BLOCK_REQUESTS + compact_count(items)
            &&& done.batch.len() <= items.len()
            &&& seen.subset_of(done.seen)
            &&& forall|i: int|
                0 <= i < items.len() ==> done.seen.contains((#[trigger] items[i]).hash)
            &&& forall|k: int|
                0 <= k < done.batch.len() ==> {
                    &&& done.seen.contains((#[trigger] done.batch[k]).hash)
                    &&& !seen.contains(done.batch[k].hash)
                    &&& items.contains(done.batch[k])
                }
        }),
    decreases items.len(),
{
    if items.len() > 0 {
        let shorter = items.drop_last();
        let item = items.last();
        lemma_inventory_policy_bound(seen, shorter);
        let before = inv_fold(inv_start(seen), shorter);
        let done = inv_fold(inv_start(seen), items);
        assert(done == inv_step(before, item));
        if done.batch.len() > before.batch.len() {
            assert(done.batch == before.batch.push(item));
            assert(done.batch.drop_last() =~= before.batch);
        }
        assert forall|i: int| 0 <= i < items.len() implies done.seen.contains(
            (#[trigger] items[i]).hash,
        ) by {
            if i < shorter.len() {
                assert(shorter[i] == items[i]);
            }
        }
        assert forall|k: int| 0 <= k < done.batch.len() implies {
            &&& done.seen.contains((#[trigger] done.batch[k]).hash)
            &&& !seen.contains(done.batch[k].hash)
            &&& items.contains(done.batch[k])
        } by {
            if k < before.batch.len() {
                assert(done.batch[k] == before.batch[k]);
                let j = choose|j: int| 0 <= j < shorter.len() && shorter[j] == before.batch[k];
                assert(items[j] == shorter[j]);
            } else {
                assert(done.batch[k] == item);
                assert(items[items.len() - 1] == item);
            }
        }
    }
}

/// Announcing again what was seen requests nothing and changes nothing.
pub proof fn lemma_seen_inventory_requests_nothing(seen: Set<Seq<u8>>, items: Seq<InventoryEntry>)
    requires
        forall|i: int| 0 <= i < items.len() ==> seen.contains((#[trigger] items[i]).hash),
    ensures
        inv_fold(inv_start(seen), items) == inv_start(seen),
    decreases items.len(),
{
    if items.len() > 0 {
        let shorter = items.drop_last();
        assert forall|i: int| 0 <= i < shorter.len() implies seen.contains(
            (#[trigger] shorter[i]).hash,
        ) by {
            assert(shorter[i] == items[i]);
        }
        lemma_seen_inventory_requests_nothing(seen, shorter);
        assert(seen.contains(items[items.len() - 1].hash));
    }
}

/// Applies the policy to the entries of one `inv` payload: records their
/// hashes as seen and returns the entries to request, in the payload's
/// order.
pub fn select_requests(seen: &mut SeenInventory, items: &[InventoryItem]) -> (batch: Vec<
    InventoryItem,
>)
    ensures
        final(seen)@ == inv_fold(inv_start(old(seen)@), items.deep_view()).seen,
        batch.deep_view() == inv_fold(inv_start(old(seen)@), items.deep_view()).batch,
{
    let n: usize = items.len();
    let ghost entries = items.deep_view();
    let ghost start = inv_start(seen@);
    let mut batch: Vec<InventoryItem> = Vec::new();
    let mut transactions: usize = 0;
    let mut blocks: usize = 0;
    let mut i: usize = 0;
    assert(batch.deep_view() =~= start.batch);
    while i < n
        invariant
            i <= n,
            n == items@.len(),
            entries == items.deep_view(),
            start == inv_start(old(seen)@),
            transactions <= MAX_TX_REQUESTS,
            blocks <= MAX_BLOCK_REQUESTS,
            inv_fold(start, entries.take(i as int)) == (InvProgress {
                seen: seen@,
                batch: batch.deep_view(),
                transactions: transactions as nat,
                blocks: blocks as nat,
            }),
        decreases n - i,
    {
        let item: InventoryItem = items[i];
        proof {
            assert(entries.take(i + 1).drop_last() =~= entries.take(i as int));
            assert(entries.take(i + 1).last() == item@);
        }
        let ghost before = batch.deep_view();
        if !seen.contains(&item.hash) {
            seen.insert(item.hash);
            match item.inv_type {
                InventoryType::Transaction | InventoryType::WitnessTransaction => {
                    if transactions < MAX_TX_REQUESTS {
                        batch.push(item);
                        transactions += 1;
                        assert(batch.deep_view() =~= before.push(item@));
                    }
                },
                InventoryType::Block | InventoryType::WitnessBlock => {
                    if blocks < MAX_BLOCK_REQUESTS {
                        batch.push(item);
                        blocks += 1;
                        assert(batch.deep_view() =~= before.push(item@));
                    }
                },
                InventoryType::CompactBlock => {
                    batch.push(item);
                    assert(batch.deep_view() =~= before.push(item@));
                },
                _ => {},
            }
        }
        i += 1;
    }
    assert(entries.take(n as int) =~= entries);
    batch
}

} // verus!
