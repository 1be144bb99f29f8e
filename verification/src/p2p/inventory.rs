//! Inventory announcements: the kind of an announced object and its hash.

use vstd::prelude::*;

use crate::p2p::bytes::u32_le;

verus! {

/// The kind of object that an inventory entry announces.
#[derive(Debug, Clone, Copy, PartialEq, Eq, Structural)]
pub enum InventoryType {
    Error,
    Transaction,
    Block,
    FilteredBlock,
    CompactBlock,
    WitnessTransaction,
    WitnessBlock,
    FilteredWitnessBlock,
}

/// The kind that a wire code stands for; every unassigned code is `Error`.
pub open spec fn inventory_type_of(value: u32) -> InventoryType {
    if value == 1 {
        InventoryType::Transaction
    } else if value == 2 {
        InventoryType::Block
    } else if value == 3 {
        InventoryType::FilteredBlock
    } else if value == 4 {
        InventoryType::CompactBlock
    } else if value == 0x40000001 {
        InventoryType::WitnessTransaction
    } else if value == 0x40000002 {
        InventoryType::WitnessBlock
    } else if value == 0x40000003 {
        InventoryType::FilteredWitnessBlock
    } else {
        InventoryType::Error
    }
}

impl InventoryType {
    /// The wire code of this kind.
    pub open spec fn code(self) -> u32 {
        match self {
            InventoryType::Error => 0,
            InventoryType::Transaction => 1,
            InventoryType::Block => 2,
            InventoryType::FilteredBlock => 3,
            InventoryType::CompactBlock => 4,
            InventoryType::WitnessTransaction => 0x40000001,
            InventoryType::WitnessBlock => 0x40000002,
            InventoryType::FilteredWitnessBlock => 0x40000003,
        }
    }

    /// The name of this kind in logs.
    pub open spec fn label(self) -> Seq<char> {
        match self {
            InventoryType::Error => "ERROR"@,
            InventoryType::Transaction => "TX"@,
            InventoryType::Block => "BLOCK"@,
            InventoryType::FilteredBlock => "FILTERED_BLOCK"@,
            InventoryType::CompactBlock => "COMPACT_BLOCK"@,
            InventoryType::WitnessTransaction => "WITNESS_TX"@,
            InventoryType::WitnessBlock => "WITNESS_BLOCK"@,
            InventoryType::FilteredWitnessBlock => "FILTERED_WITNESS_BLOCK"@,
        }
    }

    /// Decodes a wire code.
    pub fn from_u32(value: u32) -> (kind: Self)
        ensures
            kind == inventory_type_of(value),
    {
        match value {
            1 => InventoryType::Transaction,
            2 => InventoryType::Block,
            3 => InventoryType::FilteredBlock,
            4 => InventoryType::CompactBlock,
            0x40000001 => InventoryType::WitnessTransaction,
            0x40000002 => InventoryType::WitnessBlock,
            0x40000003 => InventoryType::FilteredWitnessBlock,
            _ => InventoryType::Error,
        }
    }

    /// The wire code of this kind.
    pub fn to_u32(&self) -> (value: u32)
        ensures
            value == self.code(),
    {
        match self {
            InventoryType::Error => 0,
            InventoryType::Transaction => 1,
            InventoryType::Block => 2,
            InventoryType::FilteredBlock => 3,
            InventoryType::CompactBlock => 4,
            InventoryType::WitnessTransaction => 0x40000001,
            InventoryType::WitnessBlock => 0x40000002,
            InventoryType::FilteredWitnessBlock => 0x40000003,
        }
    }

    /// The name of this kind in logs.
    pub fn name(&self) -> (text: &'static str)
        ensures
            text@ == self.label(),
    {
        match self {
            InventoryType::Error => "ERROR",
            InventoryType::Transaction => "TX",
            InventoryType::Block => "BLOCK",
            InventoryType::FilteredBlock => "FILTERED_BLOCK",
            InventoryType::CompactBlock => "COMPACT_BLOCK",
            InventoryType::WitnessTransaction => "WITNESS_TX",
            InventoryType::WitnessBlock => "WITNESS_BLOCK",
            InventoryType::FilteredWitnessBlock => "FILTERED_WITNESS_BLOCK",
        }
    }

    /// Whether this kind is a transaction, plain or with witness.
    pub open spec fn is_transaction(self) -> bool {
        self == InventoryType::Transaction || self == InventoryType::WitnessTransaction
    }

    /// Whether this kind is a full block, plain or with witness.
    pub open spec fn is_block(self) -> bool {
        self == InventoryType::Block || self == InventoryType::WitnessBlock
    }
}

/// Decoding the code of a kind gives the kind back.
pub proof fn lemma_inventory_type_round_trip(kind: InventoryType)
    ensures
        inventory_type_of(kind.code()) == kind,
{
}

/// One announced object: its kind and its 32-byte hash.
#[derive(Debug, Clone, Copy)]
pub struct InventoryItem {
    pub inv_type: InventoryType,
    pub hash: [u8; 32],
}

/// An inventory entry as a mathematical value: its kind and the sequence of
/// its hash bytes.
pub ghost struct InventoryEntry {
    pub inv_type: InventoryType,
    pub hash: Seq<u8>,
}

impl View for InventoryItem {
    type V = InventoryEntry;

    open spec fn view(&self) -> InventoryEntry {
        InventoryEntry { inv_type: self.inv_type, hash: self.hash@ }
    }
}

impl DeepView for InventoryItem {
    type V = InventoryEntry;

    open spec fn deep_view(&self) -> InventoryEntry {
        self.view()
    }
}

impl InventoryEntry {
    /// The 36 bytes of an entry on the wire: the kind's code in little
    /// endian, then the hash.
    pub open spec fn wire(self) -> Seq<u8> {
        u32_le(self.inv_type.code()) + self.hash
    }
}

/// The lowercase hexadecimal digit of `v`, for `v` below 16.
pub open spec fn hex_digit(v: int) -> char {
    seq!['0', '1', '2', '3', '4', '5', '6', '7', '8', '9', 'a', 'b', 'c', 'd', 'e', 'f'][v]
}

/// Two lowercase hexadecimal digits for each byte, high digit first.
pub open spec fn hex_lower(bytes: Seq<u8>) -> Seq<char> {
    Seq::new(
        2 * bytes.len(),
        |i: int|
            if i % 2 == 0 {
                hex_digit(bytes[i / 2] as int / 16)
            } else {
                hex_digit(bytes[i / 2] as int % 16)
            },
    )
}

/// Calls `hex::encode`, which writes each byte as two characters of
/// `0123456789abcdef`, the high four bits first.
#[verifier::external_body]
fn hex_encode(bytes: &[u8]) -> (text: String)
    ensures
        text@ == hex_lower(bytes@),
{
    hex::encode(bytes)
}

impl InventoryItem {
    /// The hash as it is shown to people: byte-reversed, in lowercase
    /// hexadecimal.
    pub fn hash_hex(&self) -> (text: String)
        ensures
            text@ == hex_lower(self.hash@.reverse()),
    {
        let mut reversed: [u8; 32] = [0u8; 32];
        let mut i: usize = 0;
        while i < 32
            invariant
                i <= 32,
                forall|j: int| 0 <= j < i ==> reversed@[j] == self.hash@[31 - j],
            decreases 32 - i,
        {
            reversed[i] = self.hash[31 - i];
            i += 1;
        }
        assert(reversed@ =~= self.hash@.reverse());
        hex_encode(reversed.as_slice())
    }
}

} // verus!
