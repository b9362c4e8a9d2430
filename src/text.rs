use vstd::prelude::*;
use crate::ledger::TxReceipt;
use crate::holder::{holder_bytes, holder_wf, is_opaque, HolderView, TokenHolder, ACCOUNT_ID_LEN, MAX_PRINCIPAL_LEN, OPAQUE_ID_TAG};

verus! {

/// The value of a hexadecimal digit of either case, or -1.
pub open spec fn hex_val(c: char) -> int {
    if c == '0' { 0 } else if c == '1' { 1 } else if c == '2' { 2 } else if c == '3' { 3 }
    else if c == '4' { 4 } else if c == '5' { 5 } else if c == '6' { 6 } else if c == '7' { 7 }
    else if c == '8' { 8 } else if c == '9' { 9 }
    else if c == 'a' || c == 'A' { 10 } else if c == 'b' || c == 'B' { 11 }
    else if c == 'c' || c == 'C' { 12 } else if c == 'd' || c == 'D' { 13 }
    else if c == 'e' || c == 'E' { 14 } else if c == 'f' || c == 'F' { 15 }
    else { -1 }
}

/// The lower-case digit for `n < 16`.
pub open spec fn hex_digit(n: int) -> char {
    if n == 0 { '0' } else if n == 1 { '1' } else if n == 2 { '2' } else if n == 3 { '3' }
    else if n == 4 { '4' } else if n == 5 { '5' } else if n == 6 { '6' } else if n == 7 { '7' }
    else if n == 8 { '8' } else if n == 9 { '9' } else if n == 10 { 'a' } else if n == 11 { 'b' }
    else if n == 12 { 'c' } else if n == 13 { 'd' } else if n == 14 { 'e' } else { 'f' }
}

/// Two lower-case digits per byte, high digit first.
pub open spec fn hex_text(b: Seq<u8>) -> Seq<char> {
    Seq::new(2 * b.len(), |i: int| hex_digit(if i % 2 == 0 { (b[i / 2] / 16) as int } else { (b[i / 2] % 16) as int }))
}

/// `s` is a hexadecimal spelling (of either case) of `b`.
pub open spec fn hex_decodes(s: Seq<char>, b: Seq<u8>) -> bool {
    &&& s.len() == 2 * b.len()
    &&& forall|i: int| 0 <= i < b.len() ==> hex_val(#[trigger] s[2 * i]) == b[i] / 16 && hex_val(s[2 * i + 1]) == b[i] % 16
}

proof fn lemma_hex_text_decodes(b: Seq<u8>)
    ensures
        hex_decodes(hex_text(b), b),
{
    assert forall|i: int| 0 <= i < b.len() implies hex_val(#[trigger] hex_text(b)[2 * i]) == b[i] / 16
        && hex_val(hex_text(b)[2 * i + 1]) == b[i] % 16 by {
        assert((2 * i) / 2 == i && (2 * i) % 2 == 0);
        assert((2 * i + 1) / 2 == i && (2 * i + 1) % 2 == 1);
    }
}

proof fn lemma_hex_unique(s: Seq<char>, a: Seq<u8>, b: Seq<u8>)
    requires
        hex_decodes(s, a),
        hex_decodes(s, b),
    ensures
        a == b,
{
    assert forall|i: int| 0 <= i < a.len() implies a[i] == b[i] by {
        assert(hex_val(s[2 * i]) == a[i] / 16);
    }
    assert(a =~= b);
}

/// `x` is `y`, or its upper-case form when `y` is an ASCII lower-case letter.
pub open spec fn char_eq_ignoring_case(x: char, y: char) -> bool {
    x == y || (65 <= (x as u32) <= 90 && (y as u32) == (x as u32) + 32)
}

/// `s` spells `t` with any of `t`'s ASCII letters in upper case.
pub open spec fn eq_ignoring_case(s: Seq<char>, t: Seq<char>) -> bool {
    s.len() == t.len() && forall|i: int| 0 <= i < s.len() ==> char_eq_ignoring_case(#[trigger] s[i], t[i])
}

/// The textual form of the principal with bytes `b`: a checksum and the bytes in
/// lower-case base 32, in dash-separated groups of five.
pub uninterp spec fn principal_text(b: Seq<u8>) -> Seq<char>;

/// Relies on `Principal::to_text` (candid, from ic_principal): the textual form of
/// the principal; for at most 29 bytes it is at most 63 characters long, and no
/// other principal has it. `from_slice` panics beyond 29 bytes.
#[verifier::external_body]
fn principal_to_text(b: &Vec<u8>) -> (r: String)
    requires
        b@.len() <= MAX_PRINCIPAL_LEN,
    ensures
        r@ == principal_text(b@),
        r@.len() <= 63,
        forall|c: Seq<u8>| c.len() <= MAX_PRINCIPAL_LEN && principal_text(c) == r@ ==> c == b@,
{
    candid::Principal::from_slice(b.as_slice()).to_text()
}

/// Relies on `Principal::from_text` (candid, from ic_principal): it accepts the
/// textual form of a principal of at most 29 bytes, its letters in either case,
/// and nothing else, and returns that principal's bytes.
#[verifier::external_body]
fn principal_from_text(s: &str) -> (r: Option<Vec<u8>>)
    ensures
        r matches Some(v) ==> v@.len() <= MAX_PRINCIPAL_LEN && eq_ignoring_case(s@, principal_text(v@))
            && s@.len() <= 63,
        r matches Some(v) ==> forall|c: Seq<u8>| c.len() <= MAX_PRINCIPAL_LEN
            && eq_ignoring_case(s@, principal_text(c)) ==> c == v@,
        r is None ==> forall|c: Seq<u8>| c.len() <= MAX_PRINCIPAL_LEN ==> !eq_ignoring_case(s@, principal_text(c)),
{
    match candid::Principal::from_text(s) {
        Ok(p) => Some(p.as_slice().to_vec()),
        Err(_) => None,
    }
}

/// Relies on `hex::encode`: two lower-case digits per byte, high digit first.
#[verifier::external_body]
fn hex_encode(b: &Vec<u8>) -> (r: String)
    ensures
        r@ == hex_text(b@),
{
    hex::encode(b)
}

/// Relies on `hex::decode`: it accepts an even number of digits of either case and
/// nothing else, and returns the bytes they spell.
#[verifier::external_body]
fn hex_decode(s: &str) -> (r: Option<Vec<u8>>)
    ensures
        r matches Some(v) ==> hex_decodes(s@, v@),
        r is None ==> forall|b: Seq<u8>| !hex_decodes(s@, b),
{
    match hex::decode(s) {
        Ok(v) => Some(v),
        Err(_) => None,
    }
}

/// The canonical text of a holder: lower-case hex for an account, the principal's
/// textual form otherwise.
pub open spec fn holder_text(h: HolderView) -> Seq<char> {
    match h {
        HolderView::Account(b) => hex_text(b),
        HolderView::Principal(b) => principal_text(b),
        HolderView::Canister(b) => principal_text(b),
    }
}

/// `s` spells some principal of at most 29 bytes.
pub open spec fn is_principal_text(s: Seq<char>) -> bool {
    exists|c: Seq<u8>| c.len() <= MAX_PRINCIPAL_LEN && eq_ignoring_case(s, principal_text(c))
}

/// `s` reads as the holder `h`: a principal's text first (a canister when the
/// principal is opaque), else 64 hex digits of an account identifier.
pub open spec fn reads_as(s: Seq<char>, h: HolderView) -> bool {
    match h {
        HolderView::Account(b) => !is_principal_text(s) && b.len() == ACCOUNT_ID_LEN && hex_decodes(s, b),
        HolderView::Principal(b) => b.len() <= MAX_PRINCIPAL_LEN && !is_opaque(b)
            && eq_ignoring_case(s, principal_text(b)),
        HolderView::Canister(b) => b.len() <= MAX_PRINCIPAL_LEN && is_opaque(b)
            && eq_ignoring_case(s, principal_text(b)),
    }
}

#[derive(Debug, Clone, Copy, PartialEq, Eq, Structural)]
pub enum HolderParseError {
    InvalidFormat,
}

impl TokenHolder {
    /// Reads a holder from its text.
    pub fn from_str(s: &str) -> (r: Result<TokenHolder, HolderParseError>)
        ensures
            r matches Ok(h) ==> h.wf() && reads_as(s@, h@),
            r is Err ==> forall|h: HolderView| !reads_as(s@, h),
            forall|h: HolderView| holder_wf(h) && s@ == holder_text(h) ==> (r matches Ok(x) && x@ == h),
    {
        proof {
            assert forall|h: HolderView| holder_wf(h) && s@ == holder_text(h) implies
                match h { HolderView::Account(_) => s@.len() == 64, _ => eq_ignoring_case(s@, holder_text(h)) } by {
                if let HolderView::Account(b) = h {
                    assert(hex_text(b).len() == 64);
                }
            }
        }
        match principal_from_text(s) {
            Some(b) => {
                let opaque = b.len() > 0 && b[b.len() - 1] == OPAQUE_ID_TAG;
                assert(opaque == is_opaque(b@));
                if opaque {
                    Ok(TokenHolder::Canister(b))
                } else {
                    Ok(TokenHolder::Principal(b))
                }
            },
            None => {
                proof {
                    assert forall|h: HolderView| holder_wf(h) && s@ == holder_text(h) implies h is Account by {}
                    assert forall|h: HolderView| holder_wf(h) && s@ == holder_text(h) implies
                        hex_decodes(s@, holder_bytes(h)) by {
                        lemma_hex_text_decodes(holder_bytes(h));
                    }
                }
                match hex_decode(s) {
                    Some(b) => {
                        if b.len() == ACCOUNT_ID_LEN {
                            proof {
                                assert forall|h: HolderView| holder_wf(h) && s@ == holder_text(h) implies h == HolderView::Account(b@) by {
                                    lemma_hex_unique(s@, b@, holder_bytes(h));
                                }
                            }
                            Ok(TokenHolder::Account(b))
                        } else {
                            proof {
                                assert forall|h: HolderView| !reads_as(s@, h) by {
                                    if let HolderView::Account(c) = h {
                                        if hex_decodes(s@, c) { lemma_hex_unique(s@, b@, c); }
                                    }
                                }
                                assert forall|h: HolderView| !(holder_wf(h) && s@ == holder_text(h)) by {
                                    if holder_wf(h) && s@ == holder_text(h) {
                                        lemma_hex_unique(s@, b@, holder_bytes(h));
                                    }
                                }
                            }
                            Err(HolderParseError::InvalidFormat)
                        }
                    },
                    None => Err(HolderParseError::InvalidFormat),
                }
            },
        }
    }

    /// The holder for a principal: a canister when the principal is opaque.
    pub fn from_principal(b: Vec<u8>) -> (r: TokenHolder)
        requires
            b@.len() <= MAX_PRINCIPAL_LEN,
        ensures
            r.wf(),
            r@ == if is_opaque(b@) { HolderView::Canister(b@) } else { HolderView::Principal(b@) },
    {
        if b.len() > 0 && b[b.len() - 1] == OPAQUE_ID_TAG {
            TokenHolder::Canister(b)
        } else {
            TokenHolder::Principal(b)
        }
    }

    /// The canonical text of this holder.
    pub fn to_text(&self) -> (r: String)
        requires
            self.wf(),
        ensures
            r@ == holder_text(self@),
    {
        match self {
            TokenHolder::Account(b) => hex_encode(b),
            TokenHolder::Principal(b) => principal_to_text(b),
            TokenHolder::Canister(b) => principal_to_text(b),
        }
    }
}

impl TxReceipt {
    /// The transaction id shown to callers: the record's hash in hex.
    pub fn tx_id(&self) -> (r: String)
        ensures
            r@ == hex_text(self.tx_hash@),
    {
        hex_encode(&self.tx_hash)
    }
}

} // verus!
