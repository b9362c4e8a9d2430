use vstd::prelude::*;
use crate::block::{record_bytes, sha256, sha256_of, block_hash_of, genesis, genesis_hash, Block, BlockView, RecordView, TxRecord};
use crate::bytes::{bytes_eq, copy_bytes, starts_with, tail_bytes};
use crate::fee::{charged_fee, Fee};
use crate::holder::{holder_key, holder_wf, lemma_key_injective, lemma_pair_key_injective, pair_key, HolderView, TokenHolder};
use crate::table::{lemma_absent, lemma_amount_le_total, lemma_last_match, AmountTable};

verus! {

/// The token's descriptive settings.
#[derive(Debug)]
pub struct MetaData {
    pub name: String,
    pub symbol: String,
    pub decimals: u8,
    pub total_supply: u128,
    pub fee: Fee,
}

#[derive(Debug, Clone, Copy, PartialEq, Eq, Structural)]
pub enum LedgerError {
    NotInitialized,
    AlreadyInitialized,
    Unauthorized,
    InvalidAmount,
    InsufficientBalance,
    InsufficientAllowance,
    DuplicateTransaction,
    NotFound,
}

/// A range of heights `[start, end)` held by the archive unit `unit`.
#[derive(Debug, Clone, Copy, PartialEq, Eq, Structural)]
pub struct ArchiveInfo {
    pub start: u64,
    pub end: u64,
    pub unit: u64,
}

/// The ledger: balances, allowances and the block log, with the part of the
/// log that has moved to archive units.
pub struct TokenLedger {
    pub initialized: bool,
    pub owner: TokenHolder,
    pub fee_cashier: TokenHolder,
    pub meta: MetaData,
    pub balances: AmountTable,
    pub allowances: AmountTable,
    /// (caller key, created_at) of each operation that named a creation time.
    pub seen: Vec<(Vec<u8>, u64)>,
    /// The blocks still held here: heights `archive_cursor ..`.
    pub blocks: Vec<Block>,
    pub archive_cursor: u64,
    pub archives: Vec<ArchiveInfo>,
    pub tip_hash: Vec<u8>,
    /// More than this many blocks held here triggers a migration.
    pub archive_trigger: usize,
    /// How many of the oldest blocks one migration moves.
    pub archive_batch: usize,
    /// The batch (first height, count) whose migration is under way, if any.
    pub migrating: Option<(u64, usize)>,
    /// Every block ever appended, archived or not.
    pub chain: Ghost<Seq<BlockView>>,
}

/// The log is hash chained: heights run 0.., each parent hash is the previous
/// block's hash, the first is the genesis hash, and each hash seals its block.
#[verifier::opaque]
pub open spec fn chain_wf(c: Seq<BlockView>) -> bool {
    forall|i: int| #![trigger c[i]] 0 <= i < c.len() ==> {
        &&& c[i].height == i
        &&& c[i].hash == block_hash_of(c[i].parent_hash, c[i].record, c[i].height)
        &&& c[i].parent_hash == if i == 0 { genesis_hash() } else { c[i - 1].hash }
    }
}

pub open spec fn tip_of(c: Seq<BlockView>) -> Seq<u8> {
    if c.len() == 0 { genesis_hash() } else { c.last().hash }
}

/// The archived ranges are contiguous, in order, and cover `[0, cursor)`.
pub open spec fn archives_wf(a: Seq<ArchiveInfo>, cursor: u64) -> bool {
    &&& forall|i: int| #![trigger a[i]] 0 <= i < a.len() ==> a[i].start < a[i].end
    &&& forall|i: int| #![trigger a[i]] 0 < i < a.len() ==> a[i].start == a[i - 1].end
    &&& if a.len() == 0 { cursor == 0 } else { a[0].start == 0 && a.last().end == cursor }
}

pub open spec fn was_seen(seen: Seq<(Vec<u8>, u64)>, caller: HolderView, t: u64) -> bool {
    exists|i: int| 0 <= i < seen.len() && seen[i].0@ == holder_key(caller) && seen[i].1 == t
}

pub open spec fn is_duplicate(seen: Seq<(Vec<u8>, u64)>, caller: HolderView, created_at: Option<u64>) -> bool {
    match created_at {
        Some(t) => was_seen(seen, caller, t),
        None => false,
    }
}

/// How a migration to an archive unit ended.
#[derive(Debug, Clone, Copy, PartialEq, Eq, Structural)]
pub enum ArchiveOutcome {
    Committed,
    Failed,
}

/// Where the block at a height is.
#[derive(Debug)]
pub enum BlockQuery {
    Found(Block),
    Archived(ArchiveInfo),
    NotFound,
}

/// The most blocks that one range query returns.
pub const MAX_BLOCKS_PER_QUERY: u64 = 100;

/// What a committed operation returns: its block's height and hash, and the
/// hash of its record.
#[derive(Debug)]
pub struct TxReceipt {
    pub height: u64,
    pub block_hash: Vec<u8>,
    pub tx_hash: Vec<u8>,
}

/// `r` is the receipt of the block that `t` appended to `s` for `record`.
pub open spec fn receipt_of(s: TokenLedger, t: TokenLedger, record: RecordView, r: TxReceipt) -> bool {
    &&& t.appended(&s, record)
    &&& r.height == s.chain@.len()
    &&& r.block_hash@ == tip_of(t.chain@)
    &&& r.tx_hash@ == sha256_of(record_bytes(record))
}

/// Balances after `value` moved from `from` to `to` and `fee` from `from` to the
/// fee cashier.
pub open spec fn funds_moved(s: TokenLedger, t: TokenLedger, from: HolderView, to: HolderView, value: nat, fee: nat) -> bool {
    forall|h: HolderView| holder_wf(h) ==> #[trigger] t.balance(h) == s.balance(h)
        - (if h == from { value + fee } else { 0 }) + (if h == to { value as int } else { 0 })
        + (if h == s.fee_cashier@ { fee as int } else { 0 })
}

/// The outcome of `transfer` on `s`, leaving `t` and returning `r`.
pub open spec fn transfer_post(
    s: TokenLedger, caller: HolderView, from: HolderView, to: HolderView, value: u128,
    created_at: Option<u64>, now: u64, t: TokenLedger, r: Result<TxReceipt, LedgerError>,
) -> bool {
    let fee = charged_fee(s.meta.fee, value as nat);
    if !s.initialized {
        r == Err::<TxReceipt, LedgerError>(LedgerError::NotInitialized) && t == s
    } else if caller != from {
        r == Err::<TxReceipt, LedgerError>(LedgerError::Unauthorized) && t == s
    } else if is_duplicate(s.seen@, caller, created_at) {
        r == Err::<TxReceipt, LedgerError>(LedgerError::DuplicateTransaction) && t == s
    } else if s.balance(from) < value + fee {
        r == Err::<TxReceipt, LedgerError>(LedgerError::InsufficientBalance) && t == s
    } else {
        &&& r is Ok
        &&& receipt_of(s, t, RecordView::Transfer(caller, from, to, value, fee as u128, now), r->Ok_0)
        &&& funds_moved(s, t, from, to, value as nat, fee)
        &&& t.allowances == s.allowances
        &&& t.meta.total_supply == s.meta.total_supply
        &&& t.same_settings(&s)
        &&& t.recorded(&s, caller, created_at)
    }
}

/// The outcome of `mint` on `s`.
pub open spec fn mint_post(
    s: TokenLedger, caller: HolderView, to: HolderView, value: u128,
    created_at: Option<u64>, now: u64, t: TokenLedger, r: Result<TxReceipt, LedgerError>,
) -> bool {
    if !s.initialized {
        r == Err::<TxReceipt, LedgerError>(LedgerError::NotInitialized) && t == s
    } else if caller != s.owner@ {
        r == Err::<TxReceipt, LedgerError>(LedgerError::Unauthorized) && t == s
    } else if value == 0 || s.meta.total_supply + value > u128::MAX {
        r == Err::<TxReceipt, LedgerError>(LedgerError::InvalidAmount) && t == s
    } else if is_duplicate(s.seen@, caller, created_at) {
        r == Err::<TxReceipt, LedgerError>(LedgerError::DuplicateTransaction) && t == s
    } else {
        &&& r is Ok
        &&& receipt_of(s, t, RecordView::Mint(caller, to, value, now), r->Ok_0)
        &&& forall|h: HolderView| holder_wf(h) ==> #[trigger] t.balance(h) == s.balance(h)
                + (if h == to { value as int } else { 0 })
        &&& t.meta.total_supply == s.meta.total_supply + value
        &&& t.allowances == s.allowances
        &&& t.same_settings(&s)
        &&& t.recorded(&s, caller, created_at)
    }
}

/// The outcome of `burn` on `s`.
pub open spec fn burn_post(
    s: TokenLedger, caller: HolderView, from: HolderView, value: u128, now: u64,
    t: TokenLedger, r: Result<TxReceipt, LedgerError>,
) -> bool {
    if !s.initialized {
        r == Err::<TxReceipt, LedgerError>(LedgerError::NotInitialized) && t == s
    } else if caller != from {
        r == Err::<TxReceipt, LedgerError>(LedgerError::Unauthorized) && t == s
    } else if s.balance(from) < value {
        r == Err::<TxReceipt, LedgerError>(LedgerError::InsufficientBalance) && t == s
    } else {
        &&& r is Ok
        &&& receipt_of(s, t, RecordView::Burn(caller, from, value, now), r->Ok_0)
        &&& forall|h: HolderView| holder_wf(h) ==> #[trigger] t.balance(h) == s.balance(h)
                - (if h == from { value as int } else { 0 })
        &&& t.meta.total_supply == s.meta.total_supply - value
        &&& t.allowances == s.allowances
        &&& t.same_settings(&s)
        &&& t.seen@ == s.seen@
    }
}

/// The outcome of `approve` on `s`.
pub open spec fn approve_post(
    s: TokenLedger, caller: HolderView, owner: HolderView, spender: HolderView, value: u128,
    created_at: Option<u64>, now: u64, t: TokenLedger, r: Result<TxReceipt, LedgerError>,
) -> bool {
    let fee = charged_fee(s.meta.fee, value as nat);
    if !s.initialized {
        r == Err::<TxReceipt, LedgerError>(LedgerError::NotInitialized) && t == s
    } else if caller != owner {
        r == Err::<TxReceipt, LedgerError>(LedgerError::Unauthorized) && t == s
    } else if is_duplicate(s.seen@, caller, created_at) {
        r == Err::<TxReceipt, LedgerError>(LedgerError::DuplicateTransaction) && t == s
    } else if s.balance(owner) < fee {
        r == Err::<TxReceipt, LedgerError>(LedgerError::InsufficientBalance) && t == s
    } else {
        &&& r is Ok
        &&& receipt_of(s, t, RecordView::Approve(caller, owner, spender, value, fee as u128, now), r->Ok_0)
        &&& funds_moved(s, t, owner, owner, 0, fee)
        &&& forall|o: HolderView, p: HolderView| holder_wf(o) && holder_wf(p) ==>
                #[trigger] t.allowance_spec(o, p) == if o == owner && p == spender { value as nat } else { s.allowance_spec(o, p) }
        &&& t.meta.total_supply == s.meta.total_supply
        &&& t.same_settings(&s)
        &&& t.recorded(&s, caller, created_at)
    }
}

/// The outcome of `transfer_from` on `s`.
pub open spec fn transfer_from_post(
    s: TokenLedger, caller: HolderView, from: HolderView, spender: HolderView, to: HolderView,
    value: u128, created_at: Option<u64>, now: u64, t: TokenLedger, r: Result<TxReceipt, LedgerError>,
) -> bool {
    let fee = charged_fee(s.meta.fee, value as nat);
    if !s.initialized {
        r == Err::<TxReceipt, LedgerError>(LedgerError::NotInitialized) && t == s
    } else if caller != spender {
        r == Err::<TxReceipt, LedgerError>(LedgerError::Unauthorized) && t == s
    } else if is_duplicate(s.seen@, caller, created_at) {
        r == Err::<TxReceipt, LedgerError>(LedgerError::DuplicateTransaction) && t == s
    } else if s.allowance_spec(from, spender) < value + fee {
        r == Err::<TxReceipt, LedgerError>(LedgerError::InsufficientAllowance) && t == s
    } else if s.balance(from) < value + fee {
        r == Err::<TxReceipt, LedgerError>(LedgerError::InsufficientBalance) && t == s
    } else {
        &&& r is Ok
        &&& receipt_of(s, t, RecordView::Transfer(caller, from, to, value, fee as u128, now), r->Ok_0)
        &&& funds_moved(s, t, from, to, value as nat, fee)
        &&& forall|o: HolderView, p: HolderView| holder_wf(o) && holder_wf(p) ==>
                #[trigger] t.allowance_spec(o, p) == if o == from && p == spender {
                    s.allowance_spec(o, p) - value - fee
                } else {
                    s.allowance_spec(o, p) as int
                }
        &&& t.meta.total_supply == s.meta.total_supply
        &&& t.same_settings(&s)
        &&& t.recorded(&s, caller, created_at)
    }
}

/// In every well-formed ledger, which every operation preserves, the balances
/// (one entry per holder) add up to the total supply.
pub proof fn lemma_supply_is_sum_of_balances(l: TokenLedger)
    requires
        l.wf(),
    ensures
        crate::table::keys_distinct(l.balances.entries@),
        crate::table::total_of(l.balances.entries@) == l.meta.total_supply,
{
}

/// In every well-formed ledger the log is hash chained: block `i` has height `i`,
/// the first block's parent is the genesis hash, every other block's parent is
/// its predecessor's hash, and every hash seals its block. The archived ranges
/// cover the heights below the cursor without gap or overlap, and the blocks
/// held here are the rest, in order.
pub proof fn lemma_log_is_chained(l: TokenLedger)
    requires
        l.wf(),
    ensures
        forall|i: int| #![trigger l.chain@[i]] 0 <= i < l.chain@.len() ==> {
            &&& l.chain@[i].height == i
            &&& l.chain@[i].hash == block_hash_of(l.chain@[i].parent_hash, l.chain@[i].record, l.chain@[i].height)
            &&& l.chain@[i].parent_hash == if i == 0 { genesis_hash() } else { l.chain@[i - 1].hash }
        },
        l.tip_hash@ == tip_of(l.chain@),
        forall|i: int| #![trigger l.blocks@[i]] 0 <= i < l.blocks@.len() ==> l.blocks@[i]@.height == l.archive_cursor + i,
        l.archive_cursor + l.blocks@.len() == l.chain@.len(),
        archives_wf(l.archives@, l.archive_cursor),
{
    reveal(chain_wf);
}

/// The outcome of `finish_archive(start, count, unit, outcome)` on `s`, leaving `t`
/// and returning `r`.
pub open spec fn finish_archive_post(
    s: TokenLedger, start: u64, count: usize, unit: u64, outcome: ArchiveOutcome, t: TokenLedger, r: bool,
) -> bool {
    &&& r == (s.migrating == Some((start, count)))
    &&& !r ==> t == s
    &&& r && outcome == ArchiveOutcome::Failed ==> t == (TokenLedger { migrating: None, ..s })
    &&& r && outcome == ArchiveOutcome::Committed ==> {
        &&& t.migrating is None
        &&& t.archive_cursor == s.archive_cursor + count
        &&& t.blocks@ == s.blocks@.subrange(count as int, s.blocks@.len() as int)
        &&& t.archives@ == s.archives@.push(ArchiveInfo { start, end: (start + count) as u64, unit })
        &&& t.chain == s.chain
        &&& t.tip_hash == s.tip_hash
        &&& t.balances == s.balances
        &&& t.allowances == s.allowances
        &&& t.seen == s.seen
        &&& t.meta == s.meta
        &&& t.initialized == s.initialized
        &&& t.owner == s.owner
        &&& t.fee_cashier == s.fee_cashier
        &&& t.archive_trigger == s.archive_trigger
        &&& t.archive_batch == s.archive_batch
    }
}

/// The outcome of `start_archive` on `s`, leaving `t` and returning `r`.
pub open spec fn start_archive_post(s: TokenLedger, t: TokenLedger, r: Option<(u64, usize)>) -> bool {
    &&& r == s.due_batch()
    &&& r is None ==> t == s
    &&& r is Some ==> t == (TokenLedger { migrating: r, ..s })
}

/// A migration whose archive unit reports failure changes nothing that was
/// committed: balances, allowances and the log stay as they were, the cursor does
/// not move, and the same batch is due again.
pub proof fn lemma_failed_migration_is_retried(
    s0: TokenLedger, s1: TokenLedger, s2: TokenLedger, batch: (u64, usize), unit: u64, r: bool,
)
    requires
        s0.wf(),
        start_archive_post(s0, s1, Some(batch)),
        finish_archive_post(s1, batch.0, batch.1, unit, ArchiveOutcome::Failed, s2, r),
    ensures
        r,
        s2 == s0,
        s2.due_batch() == Some(batch),
{
}

/// A committed migration moves exactly the batch: the cursor advances by its
/// size, its range is indexed under the unit, every block keeps its place in the
/// log, and the migrated heights now lie below the cursor, where `block_by_height`
/// answers through the archive index.
pub proof fn lemma_committed_migration_moves_batch(
    s0: TokenLedger, s1: TokenLedger, s2: TokenLedger, batch: (u64, usize), unit: u64, r: bool,
)
    requires
        s0.wf(),
        start_archive_post(s0, s1, Some(batch)),
        finish_archive_post(s1, batch.0, batch.1, unit, ArchiveOutcome::Committed, s2, r),
    ensures
        r,
        batch.0 == s0.archive_cursor,
        s2.archive_cursor == s0.archive_cursor + batch.1,
        s2.chain == s0.chain,
        s2.archives@.last() == (ArchiveInfo { start: batch.0, end: (batch.0 + batch.1) as u64, unit }),
        batch.0 + batch.1 == s2.archive_cursor,
        archives_wf(s2.archives@, s2.archive_cursor),
        s2.balances == s0.balances,
        s2.migrating is None,
{
}

/// A transfer submitted twice with the same creation time commits once: the
/// second submission is refused as a duplicate and changes nothing.
pub proof fn lemma_transfer_dedup(
    s0: TokenLedger, s1: TokenLedger, s2: TokenLedger,
    caller: HolderView, from: HolderView, to: HolderView, value: u128, created_at: u64, now: u64,
    r1: Result<TxReceipt, LedgerError>, r2: Result<TxReceipt, LedgerError>,
)
    requires
        transfer_post(s0, caller, from, to, value, Some(created_at), now, s1, r1),
        transfer_post(s1, caller, from, to, value, Some(created_at), now, s2, r2),
        r1 is Ok,
    ensures
        r2 == Err::<TxReceipt, LedgerError>(LedgerError::DuplicateTransaction),
        s2 == s1,
        s1.chain@.len() == s0.chain@.len() + 1,
{
}

impl TokenLedger {
    pub open spec fn balance(&self, h: HolderView) -> nat {
        self.balances.get_spec(holder_key(h))
    }

    pub open spec fn allowance_spec(&self, owner: HolderView, spender: HolderView) -> nat {
        self.allowances.get_spec(pair_key(owner, spender))
    }

    pub open spec fn wf(&self) -> bool {
        &&& self.owner.wf()
        &&& self.fee_cashier.wf()
        &&& self.balances.wf()
        &&& self.allowances.wf()
        &&& self.balances.total() == self.meta.total_supply
        &&& chain_wf(self.chain@)
        &&& self.chain@.len() == self.archive_cursor + self.blocks@.len()
        &&& self.chain@.len() <= u64::MAX
        &&& forall|i: int| #![trigger self.blocks@[i]] 0 <= i < self.blocks@.len()
                ==> self.blocks@[i]@ == self.chain@[self.archive_cursor + i]
        &&& self.tip_hash@ == tip_of(self.chain@)
        &&& archives_wf(self.archives@, self.archive_cursor)
        &&& self.archive_batch > 0
        &&& self.migrating matches Some((start, count)) ==> start == self.archive_cursor
                && 0 < count <= self.blocks@.len()
    }

    /// The batch that is due for migration: none while one is under way, else
    /// the oldest `archive_batch` blocks (or all of them) once more than
    /// `archive_trigger` are held here.
    pub open spec fn due_batch(&self) -> Option<(u64, usize)> {
        if self.migrating is None && self.blocks@.len() > self.archive_trigger {
            Some((self.archive_cursor, if self.blocks@.len() < self.archive_batch {
                self.blocks@.len() as usize } else { self.archive_batch }))
        } else {
            None
        }
    }

    /// Heights are still available for one more block.
    pub open spec fn has_room(&self) -> bool {
        self.chain@.len() < u64::MAX
    }

    /// Only the balances, the dedup record and the log have changed.
    pub open spec fn same_settings(&self, other: &TokenLedger) -> bool {
        &&& other.initialized == self.initialized
        &&& other.owner@ == self.owner@
        &&& other.fee_cashier@ == self.fee_cashier@
        &&& other.meta.fee == self.meta.fee
        &&& other.meta.decimals == self.meta.decimals
        &&& other.meta.name@ == self.meta.name@
        &&& other.meta.symbol@ == self.meta.symbol@
        &&& other.archive_cursor == self.archive_cursor
        &&& other.archives@ == self.archives@
        &&& other.migrating == self.migrating
    }

    /// The log of `self` is that of `old` with one block for `record` appended.
    pub open spec fn appended(&self, old: &TokenLedger, record: RecordView) -> bool {
        self.chain@ == old.chain@.push(BlockView {
            height: old.chain@.len() as u64,
            parent_hash: tip_of(old.chain@),
            record,
            hash: block_hash_of(tip_of(old.chain@), record, old.chain@.len() as u64),
        })
    }

    pub open spec fn recorded(&self, old: &TokenLedger, caller: HolderView, created_at: Option<u64>) -> bool {
        match created_at {
            Some(t) => was_seen(self.seen@, caller, t) && forall|c: HolderView, u: u64|
                was_seen(old.seen@, c, u) ==> was_seen(self.seen@, c, u),
            None => self.seen@ == old.seen@,
        }
    }

    /// Appends a block for `record` and returns its height and hash.
    fn append(&mut self, record: TxRecord) -> (r: (u64, Vec<u8>))
        requires
            old(self).wf(),
            old(self).has_room(),
            record.wf(),
        ensures
            final(self).wf(),
            final(self).appended(old(self), record@),
            r.0 == old(self).chain@.len(),
            r.1@ == tip_of(final(self).chain@),
            final(self).same_settings(old(self)),
            final(self).balances == old(self).balances,
            final(self).allowances == old(self).allowances,
            final(self).meta.total_supply == old(self).meta.total_supply,
            final(self).seen == old(self).seen,
    {
        let height = self.archive_cursor + self.blocks.len() as u64;
        let block = Block::seal(&self.tip_hash, record, height);
        let hash = copy_bytes(&block.hash);
        self.tip_hash = copy_bytes(&block.hash);
        let ghost bv = block@;
        self.blocks.push(block);
        proof { reveal(chain_wf); }
        self.chain = Ghost(self.chain@.push(bv));
        assert(self.blocks@.last()@ == bv);
        (height, hash)
    }

    fn note_seen(&mut self, caller: &TokenHolder, created_at: Option<u64>)
        requires
            caller.wf(),
        ensures
            final(self).recorded(old(self), caller@, created_at),
            *final(self) == (TokenLedger { seen: final(self).seen, ..*old(self) }),
    {
        if let Some(t) = created_at {
            let k = caller.key();
            let ghost before = self.seen@;
            self.seen.push((k, t));
            assert(self.seen@[before.len() as int].0@ == holder_key(caller@));
            assert forall|c: HolderView, u: u64| was_seen(before, c, u) implies was_seen(self.seen@, c, u) by {
                let i = choose|i: int| 0 <= i < before.len() && before[i].0@ == holder_key(c) && before[i].1 == u;
                assert(self.seen@[i] == before[i]);
            }
        }
    }

    fn check_seen(&self, caller: &TokenHolder, created_at: Option<u64>) -> (r: bool)
        requires
            caller.wf(),
        ensures
            r == is_duplicate(self.seen@, caller@, created_at),
    {
        match created_at {
            None => false,
            Some(t) => {
                let k = caller.key();
                let mut i: usize = 0;
                while i < self.seen.len()
                    invariant
                        i <= self.seen@.len(),
                        k@ == holder_key(caller@),
                        created_at == Some(t),
                        forall|j: int| 0 <= j < i ==> !(self.seen@[j].0@ == k@ && self.seen@[j].1 == t),
                    decreases self.seen@.len() - i,
                {
                    if self.seen[i].1 == t && bytes_eq(&self.seen[i].0, &k) {
                        assert(self.seen@[i as int].0@ == holder_key(caller@));
                        assert(was_seen(self.seen@, caller@, t));
                        return true;
                    }
                    i += 1;
                }
                false
            },
        }
    }

    /// Moves `value` from `from` to `to` and `fee` from `from` to the fee cashier.
    fn move_funds(&mut self, from: &TokenHolder, to: &TokenHolder, value: u128, fee: u128)
        requires
            old(self).wf(),
            from.wf(),
            to.wf(),
            old(self).balance(from@) >= value + fee,
        ensures
            final(self).wf(),
            forall|h: HolderView| holder_wf(h) ==> #[trigger] final(self).balance(h) == old(self).balance(h)
                - (if h == from@ { value + fee } else { 0 }) + (if h == to@ { value as int } else { 0 })
                + (if h == old(self).fee_cashier@ { fee as int } else { 0 }),
            *final(self) == (TokenLedger { balances: final(self).balances, ..*old(self) }),
    {
        let ghost b0 = self.balances;
        let kf = from.key();
        let kt = to.key();
        let kc = self.fee_cashier.key();
        let bf = self.balances.get(&kf);
        self.balances.set(&kf, bf - value - fee);
        let ghost b1 = self.balances;
        let bt = self.balances.get(&kt);
        proof { lemma_amount_le_total(self.balances.entries@, kt@); }
        self.balances.set(&kt, bt + value);
        let ghost b2 = self.balances;
        let bc = self.balances.get(&kc);
        proof { lemma_amount_le_total(self.balances.entries@, kc@); }
        self.balances.set(&kc, bc + fee);
        assert forall|h: HolderView| holder_wf(h) implies #[trigger] self.balance(h) == b0.get_spec(holder_key(h))
            - (if h == from@ { value + fee } else { 0 }) + (if h == to@ { value as int } else { 0 })
            + (if h == self.fee_cashier@ { fee as int } else { 0 }) by {
            if holder_key(h) == kf@ { lemma_key_injective(h, from@); }
            if holder_key(h) == kt@ { lemma_key_injective(h, to@); }
            if holder_key(h) == kc@ { lemma_key_injective(h, self.fee_cashier@); }
        }
    }

    /// Records the operation's creation time and appends its block.
    fn commit(&mut self, caller: &TokenHolder, created_at: Option<u64>, record: TxRecord) -> (r: TxReceipt)
        requires
            old(self).wf(),
            old(self).has_room(),
            caller.wf(),
            record.wf(),
        ensures
            final(self).wf(),
            receipt_of(*old(self), *final(self), record@, r),
            final(self).recorded(old(self), caller@, created_at),
            final(self).same_settings(old(self)),
            final(self).balances == old(self).balances,
            final(self).allowances == old(self).allowances,
            final(self).meta.total_supply == old(self).meta.total_supply,
    {
        self.note_seen(caller, created_at);
        let tx_hash = sha256(&record.encode());
        let (height, block_hash) = self.append(record);
        TxReceipt { height, block_hash, tx_hash }
    }

    /// Moves `value` from `from` to `to`, charging the configured fee to `from`.
    /// Only `from` itself may move its tokens.
    #[verifier::rlimit(40)]
    pub fn transfer(
        &mut self,
        caller: &TokenHolder,
        from: &TokenHolder,
        to: &TokenHolder,
        value: u128,
        created_at: Option<u64>,
        now: u64,
    ) -> (r: Result<TxReceipt, LedgerError>)
        requires
            old(self).wf(),
            old(self).has_room(),
            caller.wf(),
            from.wf(),
            to.wf(),
        ensures
            final(self).wf(),
            transfer_post(*old(self), caller@, from@, to@, value, created_at, now, *final(self), r),
    {
        if !self.initialized {
            return Err(LedgerError::NotInitialized);
        }
        if !caller.same_as(from) {
            return Err(LedgerError::Unauthorized);
        }
        if self.check_seen(caller, created_at) {
            return Err(LedgerError::DuplicateTransaction);
        }
        let fee = self.meta.fee.compute(value);
        let balance = self.balance_of(from);
        let need = match value.checked_add(fee) {
            Some(n) => n,
            None => return Err(LedgerError::InsufficientBalance),
        };
        if balance < need {
            return Err(LedgerError::InsufficientBalance);
        }
        let ghost s0 = *self;
        self.move_funds(from, to, value, fee);
        let ghost s1 = *self;
        assert(funds_moved(s0, s1, from@, to@, value as nat, fee as nat));
        let record = TxRecord::Transfer(caller.copy(), from.copy(), to.copy(), value, fee, now);
        let receipt = self.commit(caller, created_at, record);
        assert(funds_moved(s0, *self, from@, to@, value as nat, fee as nat)) by {
            assert forall|h: HolderView| holder_wf(h) implies #[trigger] self.balance(h) == s1.balance(h) by {}
        }
        Ok(receipt)
    }

    /// Creates `value` new tokens for `to`; only the owner may.
    #[verifier::rlimit(40)]
    pub fn mint(
        &mut self,
        caller: &TokenHolder,
        to: &TokenHolder,
        value: u128,
        created_at: Option<u64>,
        now: u64,
    ) -> (r: Result<TxReceipt, LedgerError>)
        requires
            old(self).wf(),
            old(self).has_room(),
            caller.wf(),
            to.wf(),
        ensures
            final(self).wf(),
            mint_post(*old(self), caller@, to@, value, created_at, now, *final(self), r),
    {
        if !self.initialized {
            return Err(LedgerError::NotInitialized);
        }
        if !caller.same_as(&self.owner) {
            return Err(LedgerError::Unauthorized);
        }
        let supply = match self.meta.total_supply.checked_add(value) {
            Some(n) => n,
            None => return Err(LedgerError::InvalidAmount),
        };
        if value == 0 {
            return Err(LedgerError::InvalidAmount);
        }
        if self.check_seen(caller, created_at) {
            return Err(LedgerError::DuplicateTransaction);
        }
        let ghost s0 = *self;
        let k = to.key();
        let b = self.balances.get(&k);
        proof { lemma_amount_le_total(self.balances.entries@, k@); }
        self.balances.set(&k, b + value);
        self.meta.total_supply = supply;
        let ghost s1 = *self;
        assert forall|h: HolderView| holder_wf(h) implies #[trigger] s1.balance(h) == s0.balance(h)
            + (if h == to@ { value as int } else { 0 }) by {
            if holder_key(h) == k@ { lemma_key_injective(h, to@); }
        }
        let record = TxRecord::Mint(caller.copy(), to.copy(), value, now);
        let receipt = self.commit(caller, created_at, record);
        assert forall|h: HolderView| holder_wf(h) implies #[trigger] self.balance(h) == s1.balance(h) by {}
        Ok(receipt)
    }

    /// Destroys `value` tokens of `from`; only `from` itself may.
    #[verifier::rlimit(100)]
    pub fn burn(
        &mut self,
        caller: &TokenHolder,
        from: &TokenHolder,
        value: u128,
        now: u64,
    ) -> (r: Result<TxReceipt, LedgerError>)
        requires
            old(self).wf(),
            old(self).has_room(),
            caller.wf(),
            from.wf(),
        ensures
            final(self).wf(),
            burn_post(*old(self), caller@, from@, value, now, *final(self), r),
    {
        if !self.initialized {
            return Err(LedgerError::NotInitialized);
        }
        if !caller.same_as(from) {
            return Err(LedgerError::Unauthorized);
        }
        let k = from.key();
        let b = self.balances.get(&k);
        if b < value {
            return Err(LedgerError::InsufficientBalance);
        }
        let ghost s0 = *self;
        proof { lemma_amount_le_total(self.balances.entries@, k@); }
        self.balances.set(&k, b - value);
        self.meta.total_supply = self.meta.total_supply - value;
        let ghost s1 = *self;
        assert forall|h: HolderView| holder_wf(h) implies #[trigger] s1.balance(h) == s0.balance(h)
            - (if h == from@ { value as int } else { 0 }) by {
            if holder_key(h) == k@ { lemma_key_injective(h, from@); }
        }
        let record = TxRecord::Burn(caller.copy(), from.copy(), value, now);
        let receipt = self.commit(caller, None, record);
        assert forall|h: HolderView| holder_wf(h) implies #[trigger] self.balance(h) == s1.balance(h) by {}
        Ok(receipt)
    }

    /// Sets the amount that `spender` may move from `owner`; the owner pays the fee.
    #[verifier::rlimit(40)]
    pub fn approve(
        &mut self,
        caller: &TokenHolder,
        owner: &TokenHolder,
        spender: &TokenHolder,
        value: u128,
        created_at: Option<u64>,
        now: u64,
    ) -> (r: Result<TxReceipt, LedgerError>)
        requires
            old(self).wf(),
            old(self).has_room(),
            caller.wf(),
            owner.wf(),
            spender.wf(),
        ensures
            final(self).wf(),
            approve_post(*old(self), caller@, owner@, spender@, value, created_at, now, *final(self), r),
    {
        if !self.initialized {
            return Err(LedgerError::NotInitialized);
        }
        if !caller.same_as(owner) {
            return Err(LedgerError::Unauthorized);
        }
        if self.check_seen(caller, created_at) {
            return Err(LedgerError::DuplicateTransaction);
        }
        let fee = self.meta.fee.compute(value);
        if self.balance_of(owner) < fee {
            return Err(LedgerError::InsufficientBalance);
        }
        let ghost s0 = *self;
        self.move_funds(owner, owner, 0, fee);
        let ghost sm = *self;
        assert(funds_moved(s0, sm, owner@, owner@, 0, fee as nat));
        let pk = owner.pair_key(spender);
        self.allowances.set(&pk, value);
        let ghost s1 = *self;
        assert(funds_moved(s0, s1, owner@, owner@, 0, fee as nat)) by {
            assert forall|h: HolderView| holder_wf(h) implies #[trigger] s1.balance(h) == sm.balance(h) by {}
        }
        assert forall|o: HolderView, p: HolderView| holder_wf(o) && holder_wf(p) implies
            #[trigger] s1.allowance_spec(o, p) == if o == owner@ && p == spender@ { value as nat } else { s0.allowance_spec(o, p) } by {
            if pair_key(o, p) == pk@ { lemma_pair_key_injective(o, p, owner@, spender@); }
        }
        let record = TxRecord::Approve(caller.copy(), owner.copy(), spender.copy(), value, fee, now);
        let receipt = self.commit(caller, created_at, record);
        assert forall|h: HolderView| holder_wf(h) implies #[trigger] self.balance(h) == s1.balance(h) by {}
        assert forall|o: HolderView, p: HolderView| holder_wf(o) && holder_wf(p) implies
            #[trigger] self.allowance_spec(o, p) == s1.allowance_spec(o, p) by {}
        Ok(receipt)
    }

    /// Moves `value` from `from` to `to` on behalf of `spender`, drawing the value
    /// and the fee from both `from`'s balance and the allowance it gave `spender`.
    #[verifier::rlimit(100)]
    pub fn transfer_from(
        &mut self,
        caller: &TokenHolder,
        from: &TokenHolder,
        spender: &TokenHolder,
        to: &TokenHolder,
        value: u128,
        created_at: Option<u64>,
        now: u64,
    ) -> (r: Result<TxReceipt, LedgerError>)
        requires
            old(self).wf(),
            old(self).has_room(),
            caller.wf(),
            from.wf(),
            spender.wf(),
            to.wf(),
        ensures
            final(self).wf(),
            transfer_from_post(*old(self), caller@, from@, spender@, to@, value, created_at, now, *final(self), r),
    {
        if !self.initialized {
            return Err(LedgerError::NotInitialized);
        }
        if !caller.same_as(spender) {
            return Err(LedgerError::Unauthorized);
        }
        if self.check_seen(caller, created_at) {
            return Err(LedgerError::DuplicateTransaction);
        }
        let fee = self.meta.fee.compute(value);
        let pk = from.pair_key(spender);
        let allowed = self.allowances.get(&pk);
        let need = match value.checked_add(fee) {
            Some(n) => n,
            None => return Err(LedgerError::InsufficientAllowance),
        };
        if allowed < need {
            return Err(LedgerError::InsufficientAllowance);
        }
        if self.balance_of(from) < need {
            return Err(LedgerError::InsufficientBalance);
        }
        let ghost s0 = *self;
        self.move_funds(from, to, value, fee);
        let ghost sm = *self;
        assert(funds_moved(s0, sm, from@, to@, value as nat, fee as nat));
        self.allowances.set(&pk, allowed - need);
        let ghost s1 = *self;
        assert(funds_moved(s0, s1, from@, to@, value as nat, fee as nat)) by {
            assert forall|h: HolderView| holder_wf(h) implies #[trigger] s1.balance(h) == sm.balance(h) by {}
        }
        assert forall|o: HolderView, p: HolderView| holder_wf(o) && holder_wf(p) implies
            #[trigger] s1.allowance_spec(o, p) == if o == from@ && p == spender@ {
                s0.allowance_spec(o, p) - value - fee
            } else {
                s0.allowance_spec(o, p) as int
            } by {
            if pair_key(o, p) == pk@ { lemma_pair_key_injective(o, p, from@, spender@); }
        }
        let record = TxRecord::Transfer(caller.copy(), from.copy(), to.copy(), value, fee, now);
        let receipt = self.commit(caller, created_at, record);
        assert forall|h: HolderView| holder_wf(h) implies #[trigger] self.balance(h) == s1.balance(h) by {}
        assert forall|o: HolderView, p: HolderView| holder_wf(o) && holder_wf(p) implies
            #[trigger] self.allowance_spec(o, p) == s1.allowance_spec(o, p) by {}
        Ok(receipt)
    }

    /// An uninitialized ledger. More than `archive_trigger` blocks held here start a
    /// migration of the oldest `archive_batch` (at least one) of them.
    pub fn new(archive_trigger: usize, archive_batch: usize) -> (r: TokenLedger)
        ensures
            r.wf(),
            !r.initialized,
            r.chain@.len() == 0,
            r.archive_trigger == archive_trigger,
            r.archive_batch == if archive_batch == 0 { 1 } else { archive_batch },
            r.meta.total_supply == 0,
            forall|h: HolderView| r.balance(h) == 0,
            forall|o: HolderView, p: HolderView| r.allowance_spec(o, p) == 0,
            r.seen@.len() == 0,
            r.migrating is None,
    {
        proof { reveal(chain_wf); }
        TokenLedger {
            initialized: false,
            owner: TokenHolder::Principal(Vec::new()),
            fee_cashier: TokenHolder::Principal(Vec::new()),
            meta: MetaData {
                name: String::new(),
                symbol: String::new(),
                decimals: 0,
                total_supply: 0,
                fee: Fee::Fixed(0),
            },
            balances: AmountTable::new(),
            allowances: AmountTable::new(),
            seen: Vec::new(),
            blocks: Vec::new(),
            archive_cursor: 0,
            archives: Vec::new(),
            tip_hash: genesis(),
            archive_trigger,
            archive_batch: if archive_batch == 0 { 1 } else { archive_batch },
            migrating: None,
            chain: Ghost(Seq::empty()),
        }
    }

    /// Sets the owner, the fee cashier and the token's settings, once.
    pub fn initialize(
        &mut self,
        owner: TokenHolder,
        fee_cashier: TokenHolder,
        name: String,
        symbol: String,
        decimals: u8,
        fee: Fee,
    ) -> (r: Result<(), LedgerError>)
        requires
            old(self).wf(),
            owner.wf(),
            fee_cashier.wf(),
        ensures
            final(self).wf(),
            old(self).initialized ==> r == Err::<(), LedgerError>(LedgerError::AlreadyInitialized)
                && *final(self) == *old(self),
            !old(self).initialized ==> {
                &&& r is Ok
                &&& final(self).initialized
                &&& final(self).owner@ == owner@
                &&& final(self).fee_cashier@ == fee_cashier@
                &&& final(self).meta.name@ == name@
                &&& final(self).meta.symbol@ == symbol@
                &&& final(self).meta.decimals == decimals
                &&& final(self).meta.fee == fee
                &&& final(self).meta.total_supply == old(self).meta.total_supply
                &&& final(self).balances == old(self).balances
                &&& final(self).allowances == old(self).allowances
                &&& final(self).seen == old(self).seen
                &&& final(self).chain == old(self).chain
                &&& final(self).blocks == old(self).blocks
                &&& final(self).tip_hash == old(self).tip_hash
                &&& final(self).archive_cursor == old(self).archive_cursor
                &&& final(self).archives == old(self).archives
                &&& final(self).migrating == old(self).migrating
            },
    {
        if self.initialized {
            return Err(LedgerError::AlreadyInitialized);
        }
        self.initialized = true;
        self.owner = owner;
        self.fee_cashier = fee_cashier;
        self.meta.name = name;
        self.meta.symbol = symbol;
        self.meta.decimals = decimals;
        self.meta.fee = fee;
        Ok(())
    }

    /// Initializes the ledger and mints `total_supply` to the owner; with a zero
    /// supply nothing is minted and no block is written.
    pub fn setup(
        &mut self,
        owner: TokenHolder,
        name: String,
        symbol: String,
        decimals: u8,
        fee: Fee,
        total_supply: u128,
        now: u64,
    ) -> (r: Result<Option<TxReceipt>, LedgerError>)
        requires
            old(self).wf(),
            !old(self).initialized ==> old(self).chain@.len() == 0 && old(self).meta.total_supply == 0,
            owner.wf(),
        ensures
            final(self).wf(),
            old(self).initialized ==> r == Err::<Option<TxReceipt>, LedgerError>(LedgerError::AlreadyInitialized)
                && *final(self) == *old(self),
            !old(self).initialized ==> {
                &&& final(self).initialized
                &&& final(self).owner@ == owner@
                &&& final(self).fee_cashier@ == owner@
                &&& final(self).meta.name@ == name@
                &&& final(self).meta.symbol@ == symbol@
                &&& final(self).meta.decimals == decimals
                &&& final(self).meta.fee == fee
                &&& final(self).meta.total_supply == total_supply
                &&& forall|h: HolderView| holder_wf(h) ==> #[trigger] final(self).balance(h)
                        == old(self).balance(h) + (if h == owner@ { total_supply as int } else { 0 })
                &&& total_supply == 0 ==> r == Ok::<Option<TxReceipt>, LedgerError>(None)
                    && final(self).chain@.len() == 0
                &&& total_supply > 0 ==> (r matches Ok(Some(receipt))
                    && receipt_of(*old(self), *final(self), RecordView::Mint(owner@, owner@, total_supply, now), receipt))
            },
    {
        let cashier = owner.copy();
        let minter = owner.copy();
        match self.initialize(owner, cashier, name, symbol, decimals, fee) {
            Err(e) => return Err(e),
            Ok(()) => {},
        }
        if total_supply == 0 {
            return Ok(None);
        }
        let ghost before = *self;
        let r = self.mint(&minter, &minter, total_supply, None, now);
        assert(before.chain@ == old(self).chain@);
        assert forall|h: HolderView| holder_wf(h) implies #[trigger] self.balance(h)
            == old(self).balance(h) + (if h == owner@ { total_supply as int } else { 0 }) by {
            assert(before.balance(h) == old(self).balance(h));
        }
        match r {
            Ok(receipt) => Ok(Some(receipt)),
            Err(e) => Err(e),
        }
    }

    /// The batch that is due for migration, if any (see `due_batch`).
    pub fn archive_due(&self) -> (r: Option<(u64, usize)>)
        requires
            self.wf(),
        ensures
            r == self.due_batch(),
    {
        let held = self.blocks.len();
        if self.migrating.is_none() && held > self.archive_trigger {
            Some((self.archive_cursor, if held < self.archive_batch { held } else { self.archive_batch }))
        } else {
            None
        }
    }

    /// Starts migrating the batch that is due, if any, and returns it. Until
    /// `finish_archive` ends it, no other migration starts.
    pub fn start_archive(&mut self) -> (r: Option<(u64, usize)>)
        requires
            old(self).wf(),
        ensures
            final(self).wf(),
            start_archive_post(*old(self), *final(self), r),
    {
        let due = self.archive_due();
        if due.is_some() {
            self.migrating = due;
        }
        due
    }

    /// Copies of the oldest `count` blocks held here, to hand to an archive unit.
    pub fn blocks_to_archive(&self, count: usize) -> (r: Vec<Block>)
        requires
            self.wf(),
            count <= self.blocks@.len(),
        ensures
            r@.len() == count,
            forall|i: int| 0 <= i < count ==> #[trigger] r@[i]@ == self.chain@[self.archive_cursor + i],
    {
        let mut out: Vec<Block> = Vec::new();
        let mut i: usize = 0;
        while i < count
            invariant
                self.wf(),
                count <= self.blocks@.len(),
                i <= count,
                out@.len() == i,
                forall|j: int| 0 <= j < i ==> #[trigger] out@[j]@ == self.chain@[self.archive_cursor + j],
            decreases count - i,
        {
            out.push(self.blocks[i].copy());
            assert(self.blocks@[i as int]@ == self.chain@[self.archive_cursor + i]);
            i += 1;
        }
        out
    }

    /// Ends the migration of the batch (`start`, `count`) to archive unit `unit`.
    /// Only the migration under way can end; for any other batch nothing changes
    /// and `false` is returned. Once the unit has confirmed, the blocks leave this
    /// ledger and their range is indexed, in one step; after a failure only the
    /// migration ends, and the same batch is due again.
    pub fn finish_archive(&mut self, start: u64, count: usize, unit: u64, outcome: ArchiveOutcome) -> (r: bool)
        requires
            old(self).wf(),
        ensures
            final(self).wf(),
            finish_archive_post(*old(self), start, count, unit, outcome, *final(self), r),
    {
        let matches_batch = match self.migrating {
            Some((s, c)) => s == start && c == count,
            None => false,
        };
        if !matches_batch {
            return false;
        }
        self.migrating = None;
        if outcome == ArchiveOutcome::Failed {
            return true;
        }
        let ghost before = self.blocks@;
        let kept = self.blocks.split_off(count);
        self.blocks = kept;
        self.archive_cursor = start + count as u64;
        self.archives.push(ArchiveInfo { start, end: start + count as u64, unit });
        assert forall|i: int| 0 <= i < self.blocks@.len() implies #[trigger] self.blocks@[i]@
            == self.chain@[self.archive_cursor + i] by {
            assert(self.blocks@[i] == before[i + count]);
            assert(before[i + count]@ == self.chain@[start + (i + count)]);
        }
        true
    }

    /// The block at `height`: held here, in the archive unit whose range covers it,
    /// or not yet written.
    pub fn block_by_height(&self, height: u64) -> (r: BlockQuery)
        requires
            self.wf(),
        ensures
            height >= self.chain@.len() ==> r is NotFound,
            self.archive_cursor <= height < self.chain@.len() ==> (r matches BlockQuery::Found(b) && b@ == self.chain@[height as int]),
            height < self.archive_cursor ==> (r matches BlockQuery::Archived(a) && exists|i: int|
                0 <= i < self.archives@.len() && self.archives@[i] == a && a.start <= height < a.end),
    {
        let held = self.blocks.len() as u64;
        if height >= self.archive_cursor {
            if height - self.archive_cursor < held {
                let b = self.blocks[(height - self.archive_cursor) as usize].copy();
                assert(self.blocks@[(height - self.archive_cursor) as int]@ == self.chain@[height as int]);
                return BlockQuery::Found(b);
            }
            return BlockQuery::NotFound;
        }
        let mut i: usize = 0;
        while i < self.archives.len()
            invariant
                self.wf(),
                height < self.archive_cursor,
                i <= self.archives@.len(),
                i > 0 ==> self.archives@[i - 1].end <= height,
            decreases self.archives@.len() - i,
        {
            let a = self.archives[i];
            assert(a.start <= height);
            if height < a.end {
                return BlockQuery::Archived(a);
            }
            i += 1;
        }
        BlockQuery::NotFound
    }

    /// Up to `count` (and at most `MAX_BLOCKS_PER_QUERY`) blocks held here, from
    /// height `start` on, or from the oldest one held if `start` is archived. Returns
    /// the height of the first block and the blocks, in order.
    pub fn blocks_by_range(&self, start: u64, count: u64) -> (r: (u64, Vec<Block>))
        requires
            self.wf(),
        ensures
            r.0 == if start < self.archive_cursor { self.archive_cursor } else { start },
            r.1@.len() == {
                let want = if start as int + count > u64::MAX { u64::MAX as int } else { start + count };
                let end = if want > self.chain@.len() { self.chain@.len() as int } else { want };
                let end = if end > r.0 + MAX_BLOCKS_PER_QUERY { r.0 + MAX_BLOCKS_PER_QUERY } else { end };
                if end > r.0 { end - r.0 } else { 0 }
            },
            forall|i: int| 0 <= i < r.1@.len() ==> #[trigger] r.1@[i]@ == self.chain@[r.0 + i],
    {
        let first = if start < self.archive_cursor { self.archive_cursor } else { start };
        let want = match start.checked_add(count) {
            Some(e) => e,
            None => u64::MAX,
        };
        let held = self.blocks.len();
        let len = self.archive_cursor + held as u64;
        let mut end = if want > len { len } else { want };
        if end > first && end - first > MAX_BLOCKS_PER_QUERY {
            end = first + MAX_BLOCKS_PER_QUERY;
        }
        let mut out: Vec<Block> = Vec::new();
        let mut h = first;
        while h < end
            invariant
                self.wf(),
                first >= self.archive_cursor,
                first <= h,
                first <= end ==> h <= end,
                held == self.blocks@.len(),
                first > end ==> h == first,
                end <= self.chain@.len(),
                out@.len() == h - first,
                forall|j: int| 0 <= j < out@.len() ==> #[trigger] out@[j]@ == self.chain@[first + j],
            decreases end - h,
        {
            let idx = (h - self.archive_cursor) as usize;
            out.push(self.blocks[idx].copy());
            assert(self.blocks@[idx as int]@ == self.chain@[h as int]);
            h += 1;
        }
        (first, out)
    }

    /// The ranges that have moved to archive units, oldest first.
    pub fn archives(&self) -> (r: Vec<ArchiveInfo>)
        ensures
            r@ == self.archives@,
    {
        self.archives.clone()
    }

    /// A copy of the token's settings.
    pub fn metadata(&self) -> (r: MetaData)
        ensures
            r.name@ == self.meta.name@,
            r.symbol@ == self.meta.symbol@,
            r.decimals == self.meta.decimals,
            r.total_supply == self.meta.total_supply,
            r.fee == self.meta.fee,
    {
        MetaData {
            name: self.meta.name.clone(),
            symbol: self.meta.symbol.clone(),
            decimals: self.meta.decimals,
            total_supply: self.meta.total_supply,
            fee: self.meta.fee,
        }
    }

    pub fn owner(&self) -> (r: TokenHolder)
        ensures
            r@ == self.owner@,
    {
        self.owner.copy()
    }

    pub fn name(&self) -> (r: String)
        ensures
            r@ == self.meta.name@,
    {
        self.meta.name.clone()
    }

    pub fn symbol(&self) -> (r: String)
        ensures
            r@ == self.meta.symbol@,
    {
        self.meta.symbol.clone()
    }

    pub fn decimals(&self) -> (r: u8)
        ensures
            r == self.meta.decimals,
    {
        self.meta.decimals
    }

    pub fn total_supply(&self) -> (r: u128)
        ensures
            r == self.meta.total_supply,
    {
        self.meta.total_supply
    }

    pub fn fee(&self) -> (r: Fee)
        ensures
            r == self.meta.fee,
    {
        self.meta.fee
    }

    /// The hash of the newest block (the genesis hash before the first), which
    /// certifies the whole log.
    pub fn tip_hash(&self) -> (r: Vec<u8>)
        requires
            self.wf(),
        ensures
            r@ == tip_of(self.chain@),
    {
        copy_bytes(&self.tip_hash)
    }

    /// The number of blocks ever appended.
    pub fn chain_length(&self) -> (r: u64)
        requires
            self.wf(),
        ensures
            r == self.chain@.len(),
    {
        self.archive_cursor + self.blocks.len() as u64
    }

    /// Every spender that `owner` has left a non-zero allowance, with its amount.
    pub fn allowances_of(&self, owner: &TokenHolder) -> (r: Vec<(TokenHolder, u128)>)
        requires
            self.wf(),
            owner.wf(),
        ensures
            forall|i: int| 0 <= i < r@.len() ==> #[trigger] r@[i].1 == self.allowance_spec(owner@, r@[i].0@)
                && r@[i].1 > 0,
            forall|p: HolderView| holder_wf(p) && #[trigger] self.allowance_spec(owner@, p) > 0 ==>
                exists|i: int| 0 <= i < r@.len() && r@[i].0@ == p,
            forall|i: int, k: int| 0 <= i < k < r@.len() ==> r@[i].0@ != r@[k].0@,
    {
        let ok = owner.key();
        let entries = &self.allowances.entries;
        let mut out: Vec<(TokenHolder, u128)> = Vec::new();
        let mut j: usize = 0;
        while j < entries.len()
            invariant
                self.wf(),
                entries == &self.allowances.entries,
                ok@ == holder_key(owner@),
                j <= entries@.len(),
                forall|i: int| 0 <= i < out@.len() ==> #[trigger] out@[i].1 == self.allowance_spec(owner@, out@[i].0@)
                    && out@[i].1 > 0,
                forall|i: int| #![trigger out@[i]] 0 <= i < out@.len() ==> exists|m: int| 0 <= m < j
                    && #[trigger] entries@[m].0@ == pair_key(owner@, out@[i].0@),
                forall|i: int, k: int| 0 <= i < k < out@.len() ==> out@[i].0@ != out@[k].0@,
                forall|q: HolderView, m: int| #![trigger entries@[m], pair_key(owner@, q)] 0 <= m < j && holder_wf(q) && entries@[m].0@ == pair_key(owner@, q)
                    && entries@[m].1 > 0 ==> exists|i: int| 0 <= i < out@.len() && out@[i].0@ == q,
            decreases entries@.len() - j,
        {
            let e = &entries[j];
            if e.1 > 0 && starts_with(&e.0, &ok) {
                let rest = tail_bytes(&e.0, ok.len());
                assert(e.0@ =~= ok@ + rest@);
                match TokenHolder::from_key(&rest) {
                    Some(h) => {
                        proof {
                            assert(e.0@ == pair_key(owner@, h@));
                            lemma_last_match(entries@, j as int);
                        }
                        let ghost before = out@;
                        assert forall|i: int| 0 <= i < before.len() implies before[i].0@ != h@ by {
                            let m = choose|m: int| 0 <= m < j && #[trigger] entries@[m].0@ == pair_key(owner@, before[i].0@);
                            if before[i].0@ == h@ {
                                assert(entries@[m].0@ == entries@[j as int].0@);
                            }
                        }
                        out.push((h, e.1));
                        assert forall|i: int| #![trigger out@[i]] 0 <= i < out@.len() implies exists|m: int| 0 <= m < j + 1
                            && #[trigger] entries@[m].0@ == pair_key(owner@, out@[i].0@) by {
                            if i < before.len() {
                                assert(out@[i] == before[i]);
                                let m = choose|m: int| 0 <= m < j && #[trigger] entries@[m].0@ == pair_key(owner@, before[i].0@);
                                assert(entries@[m].0@ == pair_key(owner@, out@[i].0@));
                            } else {
                                assert(entries@[j as int].0@ == pair_key(owner@, out@[i].0@));
                            }
                        }
                        assert forall|q: HolderView, m: int| #![trigger entries@[m], pair_key(owner@, q)] 0 <= m < j + 1 && holder_wf(q) && entries@[m].0@ == pair_key(owner@, q)
                            && entries@[m].1 > 0 implies exists|i: int| 0 <= i < out@.len() && out@[i].0@ == q by {
                            if m == j {
                                assert(entries@[m].0@ == pair_key(owner@, q));
                                assert(holder_key(q) =~= entries@[m].0@.subrange(ok@.len() as int, entries@[m].0@.len() as int));
                                assert(rest@ == entries@[m].0@.subrange(ok@.len() as int, entries@[m].0@.len() as int));
                                lemma_key_injective(q, h@);
                                assert(out@[before.len() as int].0@ == q);
                            } else {
                                let i = choose|i: int| 0 <= i < before.len() && before[i].0@ == q;
                                assert(out@[i] == before[i]);
                            }
                        }
                    },
                    None => {
                        assert forall|q: HolderView| holder_wf(q) implies entries@[j as int].0@ != pair_key(owner@, q) by {
                            if entries@[j as int].0@ == pair_key(owner@, q) {
                                assert(holder_key(q) =~= rest@);
                            }
                        }
                    },
                }
            } else {
                assert forall|q: HolderView| holder_wf(q) && entries@[j as int].1 > 0 implies
                    entries@[j as int].0@ != pair_key(owner@, q) by {
                    if entries@[j as int].0@ == pair_key(owner@, q) {
                        assert(entries@[j as int].0@.subrange(0, ok@.len() as int) =~= ok@);
                    }
                }
            }
            j += 1;
        }
        assert forall|p: HolderView| holder_wf(p) && #[trigger] self.allowance_spec(owner@, p) > 0 implies
            exists|i: int| 0 <= i < out@.len() && out@[i].0@ == p by {
            if forall|m: int| 0 <= m < entries@.len() ==> entries@[m].0@ != pair_key(owner@, p) {
                lemma_absent(entries@, pair_key(owner@, p));
            } else {
                let m = choose|m: int| 0 <= m < entries@.len() && entries@[m].0@ == pair_key(owner@, p);
                lemma_last_match(entries@, m);
                assert(entries@[m].0@ == pair_key(owner@, p));
            }
        }
        out
    }

    pub fn balance_of(&self, holder: &TokenHolder) -> (r: u128)
        requires
            self.wf(),
            holder.wf(),
        ensures
            r == self.balance(holder@),
    {
        self.balances.get(&holder.key())
    }

    pub fn allowance(&self, owner: &TokenHolder, spender: &TokenHolder) -> (r: u128)
        requires
            self.wf(),
            owner.wf(),
            spender.wf(),
        ensures
            r == self.allowance_spec(owner@, spender@),
    {
        self.allowances.get(&owner.pair_key(spender))
    }
}

} // verus!
