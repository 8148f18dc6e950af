use vstd::prelude::*;

verus! {

/// A 32-byte account key.
pub type Pubkey = [u8; 32];

/// A 64-byte transaction signature.
pub type Signature = [u8; 64];

/// A 32-byte hash.
pub type Hash = [u8; 32];

/// One write to an account.
#[derive(Debug, Clone)]
pub struct UniformAccountInfo {
    pub slot: u64,
    pub pubkey: Pubkey,
    pub owner: Pubkey,
    pub lamports: u64,
    pub data: Vec<u8>,
    /// The transaction that caused the write, where the producer knows it.
    pub transaction_ref: Option<Signature>,
    pub executable: bool,
    pub rent_epoch: u64,
    /// Orders the writes to one account within a slot: a later write has a
    /// higher number and supersedes the earlier ones.
    pub write_version: u64,
}

/// One transaction. The transaction itself and its status are carried as the
/// bytes that the producer handed over.
#[derive(Debug, Clone)]
pub struct UniformTransactionInfo {
    pub slot: u64,
    pub signature: Signature,
    pub message_hash: Hash,
    pub is_vote: bool,
    pub transaction: Vec<u8>,
    pub transaction_status_meta: Vec<u8>,
    pub index: usize,
}

/// One entry of a block.
#[derive(Debug, Clone)]
pub struct UniformEntryInfo {
    /// The slot of the block that holds the entry.
    pub slot: u64,
    /// Its index within the block.
    pub index: usize,
    /// How many hashes were made since the previous entry.
    pub num_hashes: u64,
    pub hash: Hash,
    pub executed_transaction_count: u64,
    /// The index within the block of the entry's first executed transaction.
    pub starting_transaction_index: usize,
}

/// The metadata of one block. The rewards are carried as the bytes that the
/// producer handed over.
#[derive(Debug, Clone)]
pub struct UniformBlockInfo {
    pub parent_slot: u64,
    pub parent_blockhash: String,
    pub slot: u64,
    pub blockhash: String,
    pub rewards: Vec<u8>,
    pub block_time: Option<i64>,
    pub block_height: Option<u64>,
    pub executed_transaction_count: u64,
    pub entry_count: u64,
}

/// Where a slot stands.
#[derive(Debug, Clone)]
pub enum SlotStatus {
    Processed,
    Rooted,
    Confirmed,
    FirstShredReceived,
    Completed,
    CreatedBank,
    Dead(String),
}

/// A change in the status of one slot.
#[derive(Debug, Clone)]
pub struct UniformSlotInfo {
    pub slot: u64,
    pub parent: Option<u64>,
    pub status: SlotStatus,
}

impl UniformSlotInfo {
    pub fn from_replica(slot: u64, parent: Option<u64>, status: SlotStatus) -> (r: Self)
        ensures
            r.slot == slot,
            r.parent == parent,
            r.status == status,
    {
        UniformSlotInfo { slot, parent, status }
    }
}

/// Whether two keys hold the same bytes.
pub fn same_key(a: &Pubkey, b: &Pubkey) -> (r: bool)
    ensures
        r == (a@ == b@),
{
    let mut i: usize = 0;
    while i < 32
        invariant
            0 <= i <= 32,
            a@.len() == 32,
            b@.len() == 32,
            forall|j: int| 0 <= j < i ==> a@[j] == b@[j],
        decreases 32 - i,
    {
        if a[i] != b[i] {
            return false;
        }
        i = i + 1;
    }
    assert(a@ =~= b@);
    true
}

} // verus!
