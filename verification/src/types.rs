//! Plain values for what the contracts read on chain: account addresses, token
//! identifiers and token payments. Amounts are numbers of any size.
use vstd::prelude::*;
use crate::bignat::BigNat;

verus! {

broadcast use vstd::array::group_array_axioms;

/// Amount of tokens (EGLD or ESDT), counted in the smallest denomination; of any size.
pub type Amount = BigNat;

/// Identifier handed out by an address-to-id registry; 0 means "no id".
pub type AddressId = u64;

/// Byte length of an account address.
pub const ADDRESS_LEN: usize = 32;

/// A 32-byte account or contract address.
#[derive(Clone, Copy, Debug, PartialEq, Eq, Hash)]
pub struct Address {
    pub bytes: [u8; 32],
}

/// The address whose bytes are all zero.
pub closed spec fn zero_address() -> Address {
    choose|a: Address| a.spec_is_zero()
}

impl Address {
    /// All 32 bytes are zero.
    pub open spec fn spec_is_zero(&self) -> bool {
        forall|i: int| 0 <= i < 32 ==> #[trigger] self.bytes@[i] == 0u8
    }

    pub fn from_bytes(bytes: [u8; 32]) -> (r: Address)
        ensures
            r.bytes == bytes,
    {
        Address { bytes }
    }

    /// The zero address.
    pub fn zero() -> (r: Address)
        ensures
            r.spec_is_zero(),
            r == zero_address(),
    {
        let r = Address { bytes: [0u8; 32] };
        assert(r.bytes@ =~= Seq::new(32, |i: int| 0u8));
        assert(r.spec_is_zero());
        proof {
            let z = zero_address();
            assert(z.spec_is_zero());
            assert(z.bytes =~= r.bytes);
        }
        r
    }

    pub fn is_zero(&self) -> (b: bool)
        ensures
            b == self.spec_is_zero(),
    {
        let mut i: usize = 0;
        while i < ADDRESS_LEN
            invariant
                i <= 32,
                self.bytes@.len() == 32,
                forall|j: int| 0 <= j < i ==> #[trigger] self.bytes@[j] == 0u8,
            decreases 32 - i,
        {
            if self.bytes[i] != 0 {
                return false;
            }
            i = i + 1;
        }
        true
    }

    /// Byte-wise equality.
    pub fn same(&self, other: &Address) -> (b: bool)
        ensures
            b == (*self == *other),
    {
        let mut i: usize = 0;
        while i < ADDRESS_LEN
            invariant
                i <= 32,
                self.bytes@.len() == 32,
                other.bytes@.len() == 32,
                forall|j: int| 0 <= j < i ==> #[trigger] self.bytes@[j] == other.bytes@[j],
            decreases 32 - i,
        {
            if self.bytes[i] != other.bytes[i] {
                assert(self.bytes@[i as int] != other.bytes@[i as int]);
                return false;
            }
            i = i + 1;
        }
        assert(self.bytes =~= other.bytes);
        true
    }
}

/// An EGLD-or-ESDT token identifier; `Esdt` holds the identifier's bytes.
#[derive(Clone, Debug, PartialEq, Eq)]
pub enum TokenId {
    Egld,
    Esdt(Vec<u8>),
}

impl View for TokenId {
    /// `None` for EGLD, the identifier bytes for an ESDT.
    type V = Option<Seq<u8>>;

    open spec fn view(&self) -> Option<Seq<u8>> {
        match self {
            TokenId::Egld => None,
            TokenId::Esdt(b) => Some(b@),
        }
    }
}

/// Byte-wise equality of two byte strings.
pub fn bytes_equal(a: &Vec<u8>, b: &Vec<u8>) -> (r: bool)
    ensures
        r == (a@ == b@),
{
    if a.len() != b.len() {
        return false;
    }
    let mut i: usize = 0;
    while i < a.len()
        invariant
            a@.len() == b@.len(),
            i <= a@.len(),
            forall|j: int| 0 <= j < i ==> #[trigger] a@[j] == b@[j],
        decreases a@.len() - i,
    {
        if a[i] != b[i] {
            assert(a@[i as int] != b@[i as int]);
            return false;
        }
        i = i + 1;
    }
    assert(a@ =~= b@);
    true
}

/// A copy of a byte string with the same contents.
pub fn copy_bytes(a: &Vec<u8>) -> (r: Vec<u8>)
    ensures
        r@ == a@,
{
    let mut r: Vec<u8> = Vec::new();
    let mut i: usize = 0;
    while i < a.len()
        invariant
            i <= a@.len(),
            r@ =~= a@.subrange(0, i as int),
        decreases a@.len() - i,
    {
        r.push(a[i]);
        i = i + 1;
    }
    assert(a@.subrange(0, a@.len() as int) =~= a@);
    r
}

/// `c` is an upper-case ASCII letter or an ASCII digit.
pub open spec fn is_upper_alnum(c: u8) -> bool {
    (65 <= c && c <= 90) || (48 <= c && c <= 57)
}

/// `c` is a lower-case ASCII letter or an ASCII digit.
pub open spec fn is_lower_alnum(c: u8) -> bool {
    (97 <= c && c <= 122) || (48 <= c && c <= 57)
}

/// A well-formed ESDT identifier: a ticker of 3 to 10 upper-case letters or digits,
/// a dash, then 6 lower-case letters or digits.
pub open spec fn valid_esdt_identifier(s: Seq<u8>) -> bool {
    &&& 10 <= s.len() <= 17
    &&& forall|i: int| 0 <= i < s.len() - 7 ==> is_upper_alnum(#[trigger] s[i])
    &&& s[s.len() - 7] == 45u8
    &&& forall|i: int| s.len() - 6 <= i < s.len() ==> is_lower_alnum(#[trigger] s[i])
}

/// Checks an ESDT identifier's format.
pub fn is_valid_esdt_identifier(s: &Vec<u8>) -> (r: bool)
    ensures
        r == valid_esdt_identifier(s@),
{
    let len = s.len();
    if len < 10 || len > 17 {
        return false;
    }
    let ticker_len = len - 7;
    let mut i: usize = 0;
    while i < ticker_len
        invariant
            len == s@.len(),
            10 <= len <= 17,
            ticker_len == len - 7,
            i <= ticker_len,
            forall|j: int| 0 <= j < i ==> is_upper_alnum(#[trigger] s@[j]),
        decreases ticker_len - i,
    {
        let c = s[i];
        if !((65 <= c && c <= 90) || (48 <= c && c <= 57)) {
            assert(!is_upper_alnum(s@[i as int]));
            return false;
        }
        i = i + 1;
    }
    if s[ticker_len] != 45 {
        return false;
    }
    let mut k: usize = len - 6;
    while k < len
        invariant
            len == s@.len(),
            10 <= len <= 17,
            len - 6 <= k <= len,
            forall|j: int| len - 6 <= j < k ==> is_lower_alnum(#[trigger] s@[j]),
        decreases len - k,
    {
        let c = s[k];
        if !((97 <= c && c <= 122) || (48 <= c && c <= 57)) {
            assert(!is_lower_alnum(s@[k as int]));
            return false;
        }
        k = k + 1;
    }
    true
}

impl TokenId {
    pub fn egld() -> (r: TokenId)
        ensures
            r@ is None,
    {
        TokenId::Egld
    }

    pub fn esdt(bytes: Vec<u8>) -> (r: TokenId)
        ensures
            r@ == Some(bytes@),
    {
        TokenId::Esdt(bytes)
    }

    pub fn is_egld(&self) -> (b: bool)
        ensures
            b == (self@ is None),
    {
        match self {
            TokenId::Egld => true,
            TokenId::Esdt(_) => false,
        }
    }

    /// Equality of the two identifiers.
    pub fn same(&self, other: &TokenId) -> (b: bool)
        ensures
            b == (self@ == other@),
    {
        match (self, other) {
            (TokenId::Egld, TokenId::Egld) => true,
            (TokenId::Esdt(a), TokenId::Esdt(b)) => bytes_equal(a, b),
            _ => false,
        }
    }

    /// A copy with the same identifier.
    pub fn duplicate(&self) -> (r: TokenId)
        ensures
            r@ == self@,
    {
        match self {
            TokenId::Egld => TokenId::Egld,
            TokenId::Esdt(b) => TokenId::Esdt(copy_bytes(b)),
        }
    }

    /// EGLD is valid; an ESDT identifier must be well formed.
    pub fn is_valid(&self) -> (b: bool)
        ensures
            b == token_is_valid(self@),
    {
        match self {
            TokenId::Egld => true,
            TokenId::Esdt(bytes) => is_valid_esdt_identifier(bytes),
        }
    }
}

/// Validity of an EGLD-or-ESDT identifier.
pub open spec fn token_is_valid(t: Option<Seq<u8>>) -> bool {
    match t {
        None => true,
        Some(s) => valid_esdt_identifier(s),
    }
}

/// A payment of an ESDT token.
#[derive(Clone, Debug, PartialEq, Eq)]
pub struct EsdtTokenPayment {
    pub token_identifier: Vec<u8>,
    pub token_nonce: u64,
    pub amount: Amount,
}

impl View for EsdtTokenPayment {
    type V = (Seq<u8>, u64, nat);

    open spec fn view(&self) -> (Seq<u8>, u64, nat) {
        (self.token_identifier@, self.token_nonce, self.amount@)
    }
}

impl EsdtTokenPayment {
    pub fn new(token_identifier: Vec<u8>, token_nonce: u64, amount: Amount) -> (r: EsdtTokenPayment)
        ensures
            r@ == (token_identifier@, token_nonce, amount@),
    {
        EsdtTokenPayment { token_identifier, token_nonce, amount }
    }

    /// A copy with the same token, nonce and amount.
    pub fn duplicate(&self) -> (r: EsdtTokenPayment)
        ensures
            r@ == self@,
    {
        EsdtTokenPayment {
            token_identifier: copy_bytes(&self.token_identifier),
            token_nonce: self.token_nonce,
            amount: self.amount.dup(),
        }
    }
}

/// A payment of EGLD or of an ESDT token.
#[derive(Clone, Debug, PartialEq, Eq)]
pub struct EgldOrEsdtTokenPayment {
    pub token_identifier: TokenId,
    pub token_nonce: u64,
    pub amount: Amount,
}

impl View for EgldOrEsdtTokenPayment {
    type V = (Option<Seq<u8>>, u64, nat);

    open spec fn view(&self) -> (Option<Seq<u8>>, u64, nat) {
        (self.token_identifier@, self.token_nonce, self.amount@)
    }
}

impl EgldOrEsdtTokenPayment {
    pub fn new(token_identifier: TokenId, token_nonce: u64, amount: Amount) -> (r: EgldOrEsdtTokenPayment)
        ensures
            r@ == (token_identifier@, token_nonce, amount@),
    {
        EgldOrEsdtTokenPayment { token_identifier, token_nonce, amount }
    }
}

} // verus!
