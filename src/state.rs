use vstd::prelude::*;

verus! {

/// A 32-byte account identifier, ordered byte by byte.
#[derive(Debug, Clone, Copy, Eq)]
pub struct Key {
    pub bytes: [u8; 32],
}

impl View for Key {
    type V = Seq<u8>;

    open spec fn view(&self) -> Seq<u8> {
        self.bytes@
    }
}

impl PartialEq for Key {
    fn eq(&self, other: &Key) -> (r: bool) {
        let mut i: usize = 0;
        while i < 32
            invariant
                0 <= i <= 32,
                self@.len() == 32,
                other@.len() == 32,
                forall|j: int| 0 <= j < i ==> self@[j] == other@[j],
            decreases 32 - i,
        {
            if self.bytes[i] != other.bytes[i] {
                return false;
            }
            i = i + 1;
        }
        assert(self@ =~= other@);
        true
    }
}

impl vstd::std_specs::cmp::PartialEqSpecImpl for Key {
    open spec fn obeys_eq_spec() -> bool {
        true
    }

    open spec fn eq_spec(&self, other: &Key) -> bool {
        self@ == other@
    }
}

/// `a` comes strictly before `b` in lexicographic byte order.
pub open spec fn key_lt(a: Seq<u8>, b: Seq<u8>) -> bool {
    exists|i: int|
        0 <= i < a.len() && i < b.len() && a[i] < b[i] && forall|j: int| 0 <= j < i ==> a[j] == b[j]
}

impl Key {
    pub open spec fn spec_lt(&self, other: &Key) -> bool {
        key_lt(self.bytes@, other.bytes@)
    }

    /// Whether this key comes strictly before `other` in byte order.
    pub fn precedes(&self, other: &Key) -> (r: bool)
        ensures
            r == self.spec_lt(other),
    {
        let mut i: usize = 0;
        while i < 32
            invariant
                0 <= i <= 32,
                self.bytes@.len() == 32,
                other.bytes@.len() == 32,
                forall|j: int| 0 <= j < i ==> self.bytes@[j] == other.bytes@[j],
            decreases 32 - i,
        {
            let x = self.bytes[i];
            let y = other.bytes[i];
            if x != y {
                assert(x < y ==> self.spec_lt(other)) by {
                    if x < y {
                        assert(self.bytes@[i as int] < other.bytes@[i as int]);
                    }
                }
                return x < y;
            }
            i = i + 1;
        }
        false
    }
}

/// Byte order on keys is asymmetric.
pub proof fn lemma_key_lt_asymmetric(a: Key, b: Key)
    ensures
        a.spec_lt(&b) ==> !b.spec_lt(&a),
        !a.spec_lt(&a),
{
    if a.spec_lt(&b) && b.spec_lt(&a) {
        let i = choose|i: int|
            0 <= i < a.bytes@.len() && i < b.bytes@.len() && a.bytes@[i] < b.bytes@[i]
                && forall|j: int| 0 <= j < i ==> a.bytes@[j] == b.bytes@[j];
        let k = choose|k: int|
            0 <= k < b.bytes@.len() && k < a.bytes@.len() && b.bytes@[k] < a.bytes@[k]
                && forall|j: int| 0 <= j < k ==> b.bytes@[j] == a.bytes@[j];
        if i < k {
            assert(b.bytes@[i] == a.bytes@[i]);
        } else if k < i {
            assert(a.bytes@[k] == b.bytes@[k]);
        }
    }
}

/// The fee a new pool charges, in basis points.
pub const DEFAULT_FEE_BPS: u16 = 30;

/// The persistent record of one pool: which pair it trades, where its reserves sit, which
/// token represents its shares, and its fee. Reserves and LP supply are never cached here.
#[derive(Debug, Clone, Copy)]
pub struct Pool {
    pub token_mint_a: Key,
    pub token_mint_b: Key,
    pub vault_a: Key,
    pub vault_b: Key,
    pub lp_mint: Key,
    pub fee_bps: u16,
    pub bump: u8,
}

impl Pool {
    /// The mints are distinct and in canonical order, and the fee is below one whole.
    pub open spec fn wf(&self) -> bool {
        self.token_mint_a.spec_lt(&self.token_mint_b) && self.fee_bps < 10_000
    }
}

/// The admin record of the program.
#[derive(Debug, Clone, Copy)]
pub struct Config {
    pub admin: Key,
    pub bump: u8,
}

/// What the custody collaborator reports of a token account.
#[derive(Debug, Clone, Copy)]
pub struct TokenAccount {
    pub key: Key,
    pub mint: Key,
    pub owner: Key,
    pub amount: u64,
}

/// What the custody collaborator reports of a token mint.
#[derive(Debug, Clone, Copy)]
pub struct Mint {
    pub key: Key,
    pub supply: u64,
    pub mint_authority: Option<Key>,
}

/// A token account holds tokens of `mint` and is owned by `owner`.
pub open spec fn account_is(acct: TokenAccount, mint: Key, owner: Key) -> bool {
    acct.mint@ == mint@ && acct.owner@ == owner@
}

/// Only `authority` may mint tokens of `mint`.
pub open spec fn minted_by(mint: Mint, authority: Key) -> bool {
    match mint.mint_authority {
        Some(k) => k@ == authority@,
        None => false,
    }
}

/// Whether `acct` holds tokens of `mint` and is owned by `owner`.
pub fn check_account(acct: &TokenAccount, mint: &Key, owner: &Key) -> (r: bool)
    ensures
        r == account_is(*acct, *mint, *owner),
{
    acct.mint == *mint && acct.owner == *owner
}

/// Whether only `authority` may mint tokens of `mint`.
pub fn check_mint_authority(mint: &Mint, authority: &Key) -> (r: bool)
    ensures
        r == minted_by(*mint, *authority),
{
    match &mint.mint_authority {
        Some(k) => *k == *authority,
        None => false,
    }
}

} // verus!
