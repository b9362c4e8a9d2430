use vstd::prelude::*;
use crate::bytes::{append_bytes, copy_bytes};

verus! {

/// Who can hold tokens: an account identifier (32 bytes), a user principal, or a
/// canister (a principal in the opaque-id class, whose last byte is 1).
#[derive(Debug)]
pub enum TokenHolder {
    Account(Vec<u8>),
    Principal(Vec<u8>),
    Canister(Vec<u8>),
}

pub enum HolderView {
    Account(Seq<u8>),
    Principal(Seq<u8>),
    Canister(Seq<u8>),
}

impl View for TokenHolder {
    type V = HolderView;

    open spec fn view(&self) -> HolderView {
        match self {
            TokenHolder::Account(b) => HolderView::Account(b@),
            TokenHolder::Principal(b) => HolderView::Principal(b@),
            TokenHolder::Canister(b) => HolderView::Canister(b@),
        }
    }
}

pub const ACCOUNT_ID_LEN: usize = 32;
pub const MAX_PRINCIPAL_LEN: usize = 29;
pub const OPAQUE_ID_TAG: u8 = 1;

/// Principals in the opaque-id class are canisters.
pub open spec fn is_opaque(b: Seq<u8>) -> bool {
    b.len() > 0 && b.last() == OPAQUE_ID_TAG
}

pub open spec fn holder_wf(h: HolderView) -> bool {
    match h {
        HolderView::Account(b) => b.len() == ACCOUNT_ID_LEN,
        HolderView::Principal(b) => b.len() <= MAX_PRINCIPAL_LEN && !is_opaque(b),
        HolderView::Canister(b) => b.len() <= MAX_PRINCIPAL_LEN && is_opaque(b),
    }
}

pub open spec fn holder_tag(h: HolderView) -> u8 {
    match h {
        HolderView::Account(_) => 0,
        HolderView::Principal(_) => 1,
        HolderView::Canister(_) => 2,
    }
}

pub open spec fn holder_bytes(h: HolderView) -> Seq<u8> {
    match h {
        HolderView::Account(b) => b,
        HolderView::Principal(b) => b,
        HolderView::Canister(b) => b,
    }
}

/// The canonical byte form of a holder: its variant tag, its length, its bytes.
pub open spec fn holder_key(h: HolderView) -> Seq<u8> {
    seq![holder_tag(h), holder_bytes(h).len() as u8] + holder_bytes(h)
}

/// The key of an (owner, spender) pair.
pub open spec fn pair_key(a: HolderView, b: HolderView) -> Seq<u8> {
    holder_key(a) + holder_key(b)
}

/// Distinct holders have distinct keys.
pub proof fn lemma_key_injective(a: HolderView, b: HolderView)
    requires
        holder_key(a) == holder_key(b),
    ensures
        a == b,
{
    let ka = holder_key(a);
    let kb = holder_key(b);
    assert(ka[0] == holder_tag(a) && kb[0] == holder_tag(b));
    assert(holder_bytes(a) =~= ka.subrange(2, ka.len() as int));
    assert(holder_bytes(b) =~= kb.subrange(2, kb.len() as int));
}

/// Distinct pairs have distinct keys.
pub proof fn lemma_pair_key_injective(a1: HolderView, b1: HolderView, a2: HolderView, b2: HolderView)
    requires
        holder_wf(a1),
        holder_wf(b1),
        holder_wf(a2),
        holder_wf(b2),
        pair_key(a1, b1) == pair_key(a2, b2),
    ensures
        a1 == a2,
        b1 == b2,
{
    let k1 = pair_key(a1, b1);
    let k2 = pair_key(a2, b2);
    assert(k1[1] == holder_key(a1)[1]);
    assert(k2[1] == holder_key(a2)[1]);
    assert(holder_bytes(a1).len() == holder_bytes(a2).len());
    let n = holder_key(a1).len() as int;
    assert(holder_key(a1) =~= k1.subrange(0, n));
    assert(holder_key(a2) =~= k2.subrange(0, n));
    lemma_key_injective(a1, a2);
    assert(holder_key(b1) =~= k1.subrange(n, k1.len() as int));
    assert(holder_key(b2) =~= k2.subrange(n, k2.len() as int));
    lemma_key_injective(b1, b2);
}

impl TokenHolder {
    /// Reads back a holder from its canonical byte form.
    pub fn from_key(k: &Vec<u8>) -> (r: Option<TokenHolder>)
        ensures
            r matches Some(h) ==> holder_key(h@) == k@,
            r is None ==> forall|h: HolderView| holder_wf(h) ==> holder_key(h) != k@,
    {
        if k.len() < 2 || k[1] as usize != k.len() - 2 || k[0] > 2 {
            return None;
        }
        let b = crate::bytes::tail_bytes(k, 2);
        let r = if k[0] == 0 {
            TokenHolder::Account(b)
        } else if k[0] == 1 {
            TokenHolder::Principal(b)
        } else {
            TokenHolder::Canister(b)
        };
        assert(holder_key(r@) =~= k@);
        Some(r)
    }

    pub open spec fn wf(&self) -> bool {
        holder_wf(self@)
    }

    pub fn copy(&self) -> (r: TokenHolder)
        ensures
            r@ == self@,
    {
        match self {
            TokenHolder::Account(b) => TokenHolder::Account(copy_bytes(b)),
            TokenHolder::Principal(b) => TokenHolder::Principal(copy_bytes(b)),
            TokenHolder::Canister(b) => TokenHolder::Canister(copy_bytes(b)),
        }
    }

    fn tag(&self) -> (r: u8)
        ensures
            r == holder_tag(self@),
    {
        match self {
            TokenHolder::Account(_) => 0,
            TokenHolder::Principal(_) => 1,
            TokenHolder::Canister(_) => 2,
        }
    }

    pub fn bytes(&self) -> (r: &Vec<u8>)
        ensures
            r@ == holder_bytes(self@),
    {
        match self {
            TokenHolder::Account(b) => b,
            TokenHolder::Principal(b) => b,
            TokenHolder::Canister(b) => b,
        }
    }

    /// Appends the canonical byte form of this holder to `v`.
    pub fn append_key(&self, v: &mut Vec<u8>)
        requires
            self.wf(),
        ensures
            final(v)@ == old(v)@ + holder_key(self@),
    {
        let b = self.bytes();
        v.push(self.tag());
        v.push(b.len() as u8);
        let ghost mid = v@;
        append_bytes(v, b);
        assert(old(v)@ + holder_key(self@) =~= mid + b@);
    }

    pub fn key(&self) -> (r: Vec<u8>)
        requires
            self.wf(),
        ensures
            r@ == holder_key(self@),
    {
        let mut v: Vec<u8> = Vec::new();
        self.append_key(&mut v);
        assert(v@ =~= holder_key(self@));
        v
    }

    /// The key of the pair (`self`, `other`).
    pub fn pair_key(&self, other: &TokenHolder) -> (r: Vec<u8>)
        requires
            self.wf(),
            other.wf(),
        ensures
            r@ == pair_key(self@, other@),
    {
        let mut v: Vec<u8> = Vec::new();
        self.append_key(&mut v);
        other.append_key(&mut v);
        assert(v@ =~= pair_key(self@, other@));
        v
    }

    pub fn same_as(&self, other: &TokenHolder) -> (r: bool)
        requires
            self.wf(),
            other.wf(),
        ensures
            r == (self@ == other@),
    {
        let a = self.key();
        let b = other.key();
        proof {
            if a@ == b@ {
                lemma_key_injective(self@, other@);
            }
        }
        crate::bytes::bytes_eq(&a, &b)
    }
}

} // verus!
