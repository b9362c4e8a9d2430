use vstd::prelude::*;
use crate::bytes::{append_bytes, append_le, copy_bytes, le_bytes};
use crate::holder::{holder_key, holder_wf, HolderView, TokenHolder};

verus! {

/// One operation of the ledger, as it is recorded.
#[derive(Debug)]
pub enum TxRecord {
    /// caller, owner, spender, value, fee, timestamp
    Approve(TokenHolder, TokenHolder, TokenHolder, u128, u128, u64),
    /// caller, from, to, value, fee, timestamp
    Transfer(TokenHolder, TokenHolder, TokenHolder, u128, u128, u64),
    /// caller, from, value, timestamp
    Burn(TokenHolder, TokenHolder, u128, u64),
    /// caller, to, value, timestamp
    Mint(TokenHolder, TokenHolder, u128, u64),
}

pub enum RecordView {
    Approve(HolderView, HolderView, HolderView, u128, u128, u64),
    Transfer(HolderView, HolderView, HolderView, u128, u128, u64),
    Burn(HolderView, HolderView, u128, u64),
    Mint(HolderView, HolderView, u128, u64),
}

impl View for TxRecord {
    type V = RecordView;

    open spec fn view(&self) -> RecordView {
        match self {
            TxRecord::Approve(c, o, s, v, f, t) => RecordView::Approve(c@, o@, s@, *v, *f, *t),
            TxRecord::Transfer(c, a, b, v, f, t) => RecordView::Transfer(c@, a@, b@, *v, *f, *t),
            TxRecord::Burn(c, a, v, t) => RecordView::Burn(c@, a@, *v, *t),
            TxRecord::Mint(c, a, v, t) => RecordView::Mint(c@, a@, *v, *t),
        }
    }
}

pub open spec fn amount_bytes(n: u128) -> Seq<u8> {
    le_bytes(n as nat, 16)
}

pub open spec fn time_bytes(n: u64) -> Seq<u8> {
    le_bytes(n as nat, 8)
}

/// The serialized form of a record: a kind byte, then each field in order
/// (holders in their canonical form, integers little-endian).
pub open spec fn record_bytes(r: RecordView) -> Seq<u8> {
    match r {
        RecordView::Approve(c, o, s, v, f, t) => seq![0u8] + holder_key(c) + holder_key(o)
            + holder_key(s) + amount_bytes(v) + amount_bytes(f) + time_bytes(t),
        RecordView::Transfer(c, a, b, v, f, t) => seq![1u8] + holder_key(c) + holder_key(a)
            + holder_key(b) + amount_bytes(v) + amount_bytes(f) + time_bytes(t),
        RecordView::Burn(c, a, v, t) => seq![2u8] + holder_key(c) + holder_key(a)
            + amount_bytes(v) + time_bytes(t),
        RecordView::Mint(c, a, v, t) => seq![3u8] + holder_key(c) + holder_key(a)
            + amount_bytes(v) + time_bytes(t),
    }
}

pub open spec fn record_wf(r: RecordView) -> bool {
    match r {
        RecordView::Approve(c, o, s, _, _, _) => holder_wf(c) && holder_wf(o) && holder_wf(s),
        RecordView::Transfer(c, a, b, _, _, _) => holder_wf(c) && holder_wf(a) && holder_wf(b),
        RecordView::Burn(c, a, _, _) => holder_wf(c) && holder_wf(a),
        RecordView::Mint(c, a, _, _) => holder_wf(c) && holder_wf(a),
    }
}

/// The SHA-256 digest of `data`.
pub uninterp spec fn sha256_of(data: Seq<u8>) -> Seq<u8>;

/// Relies on sha2's `Sha256::digest`: the SHA-256 digest of the bytes, which is
/// 32 bytes long.
#[verifier::external_body]
pub(crate) fn sha256(data: &Vec<u8>) -> (r: Vec<u8>)
    ensures
        r@ == sha256_of(data@),
        r@.len() == 32,
{
    <sha2::Sha256 as sha2::Digest>::digest(data).to_vec()
}

/// The parent hash of the block at height 0.
pub open spec fn genesis_hash() -> Seq<u8> {
    Seq::new(32, |i: int| 0u8)
}

pub fn genesis() -> (r: Vec<u8>)
    ensures
        r@ == genesis_hash(),
{
    let mut v: Vec<u8> = Vec::new();
    let mut i: usize = 0;
    while i < 32
        invariant
            i <= 32,
            v@ =~= Seq::new(i as nat, |j: int| 0u8),
        decreases 32 - i,
    {
        v.push(0u8);
        i += 1;
    }
    v
}

/// What a block's hash is computed over: parent hash, record, height.
pub open spec fn block_preimage(parent: Seq<u8>, r: RecordView, height: u64) -> Seq<u8> {
    parent + record_bytes(r) + time_bytes(height)
}

pub open spec fn block_hash_of(parent: Seq<u8>, r: RecordView, height: u64) -> Seq<u8> {
    sha256_of(block_preimage(parent, r, height))
}

/// A recorded operation, chained to its predecessor.
#[derive(Debug)]
pub struct Block {
    pub height: u64,
    pub parent_hash: Vec<u8>,
    pub record: TxRecord,
    pub hash: Vec<u8>,
}

pub struct BlockView {
    pub height: u64,
    pub parent_hash: Seq<u8>,
    pub record: RecordView,
    pub hash: Seq<u8>,
}

impl View for Block {
    type V = BlockView;

    open spec fn view(&self) -> BlockView {
        BlockView {
            height: self.height,
            parent_hash: self.parent_hash@,
            record: self.record@,
            hash: self.hash@,
        }
    }
}

impl TxRecord {
    pub open spec fn wf(&self) -> bool {
        record_wf(self@)
    }

    pub fn copy(&self) -> (r: TxRecord)
        ensures
            r@ == self@,
    {
        match self {
            TxRecord::Approve(c, o, s, v, f, t) => TxRecord::Approve(c.copy(), o.copy(), s.copy(), *v, *f, *t),
            TxRecord::Transfer(c, a, b, v, f, t) => TxRecord::Transfer(c.copy(), a.copy(), b.copy(), *v, *f, *t),
            TxRecord::Burn(c, a, v, t) => TxRecord::Burn(c.copy(), a.copy(), *v, *t),
            TxRecord::Mint(c, a, v, t) => TxRecord::Mint(c.copy(), a.copy(), *v, *t),
        }
    }

    /// Appends the serialized form of this record to `out`.
    pub fn encode_into(&self, out: &mut Vec<u8>)
        requires
            self.wf(),
        ensures
            final(out)@ == old(out)@ + record_bytes(self@),
    {
        let ghost start = out@;
        match self {
            TxRecord::Approve(c, o, s, v, f, t) => {
                out.push(0u8);
                c.append_key(out);
                o.append_key(out);
                s.append_key(out);
                append_le(out, *v, 16);
                append_le(out, *f, 16);
                append_le(out, *t as u128, 8);
            },
            TxRecord::Transfer(c, a, b, v, f, t) => {
                out.push(1u8);
                c.append_key(out);
                a.append_key(out);
                b.append_key(out);
                append_le(out, *v, 16);
                append_le(out, *f, 16);
                append_le(out, *t as u128, 8);
            },
            TxRecord::Burn(c, a, v, t) => {
                out.push(2u8);
                c.append_key(out);
                a.append_key(out);
                append_le(out, *v, 16);
                append_le(out, *t as u128, 8);
            },
            TxRecord::Mint(c, a, v, t) => {
                out.push(3u8);
                c.append_key(out);
                a.append_key(out);
                append_le(out, *v, 16);
                append_le(out, *t as u128, 8);
            },
        }
        assert(out@ =~= start + record_bytes(self@));
    }

    pub fn encode(&self) -> (r: Vec<u8>)
        requires
            self.wf(),
        ensures
            r@ == record_bytes(self@),
    {
        let mut out: Vec<u8> = Vec::new();
        self.encode_into(&mut out);
        assert(out@ =~= record_bytes(self@));
        out
    }
}

impl Block {
    /// Seals `record` at `height` under `parent`.
    pub fn seal(parent: &Vec<u8>, record: TxRecord, height: u64) -> (r: Block)
        requires
            record.wf(),
        ensures
            r@ == (BlockView {
                height,
                parent_hash: parent@,
                record: record@,
                hash: block_hash_of(parent@, record@, height),
            }),
    {
        let mut data = copy_bytes(parent);
        record.encode_into(&mut data);
        append_le(&mut data, height as u128, 8);
        assert(data@ =~= block_preimage(parent@, record@, height));
        let hash = sha256(&data);
        Block { height, parent_hash: copy_bytes(parent), record, hash }
    }

    pub fn copy(&self) -> (r: Block)
        ensures
            r@ == self@,
    {
        Block {
            height: self.height,
            parent_hash: copy_bytes(&self.parent_hash),
            record: self.record.copy(),
            hash: copy_bytes(&self.hash),
        }
    }
}

} // verus!
