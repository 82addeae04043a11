use vstd::prelude::*;

verus! {

/// Every way an operation of the pool can fail.
#[derive(Debug, Clone, Copy, PartialEq, Eq, Structural)]
pub enum AmmError {
    IdenticalMints,
    InvalidMintOrder,
    ZeroLiquidity,
    InsufficientLiquidity,
    SlippageExceeded,
    MathOverflow,
    InvalidVault,
    InvalidLpMint,
    PoolAlreadyExists,
    Unauthorized,
    PoolNotReady,
}

/// The text that describes each error.
pub open spec fn error_message(e: AmmError) -> Seq<char> {
    match e {
        AmmError::IdenticalMints => "Token mints must be different"@,
        AmmError::InvalidMintOrder => "Token mints must be in canonical order"@,
        AmmError::ZeroLiquidity => "Liquidity amount cannot be zero"@,
        AmmError::InsufficientLiquidity => "Pool has insufficient liquidity"@,
        AmmError::SlippageExceeded => "Slippage tolerance exceeded"@,
        AmmError::MathOverflow => "Math operation overflow"@,
        AmmError::InvalidVault => "Invalid vault account"@,
        AmmError::InvalidLpMint => "Invalid LP mint"@,
        AmmError::PoolAlreadyExists => "Pool already exists for this token pair"@,
        AmmError::Unauthorized => "Account is not owned by the expected authority"@,
        AmmError::PoolNotReady => "Pool is not initialized"@,
    }
}

impl AmmError {
    /// A stable, human-readable message for the error.
    pub fn message(&self) -> (r: &'static str)
        ensures
            r@ == error_message(*self),
    {
        match self {
            AmmError::IdenticalMints => "Token mints must be different",
            AmmError::InvalidMintOrder => "Token mints must be in canonical order",
            AmmError::ZeroLiquidity => "Liquidity amount cannot be zero",
            AmmError::InsufficientLiquidity => "Pool has insufficient liquidity",
            AmmError::SlippageExceeded => "Slippage tolerance exceeded",
            AmmError::MathOverflow => "Math operation overflow",
            AmmError::InvalidVault => "Invalid vault account",
            AmmError::InvalidLpMint => "Invalid LP mint",
            AmmError::PoolAlreadyExists => "Pool already exists for this token pair",
            AmmError::Unauthorized => "Account is not owned by the expected authority",
            AmmError::PoolNotReady => "Pool is not initialized",
        }
    }
}

/// Each error has a message of its own: no two errors share a text.
pub proof fn lemma_error_messages_distinct(e1: AmmError, e2: AmmError)
    ensures
        e1 != e2 ==> error_message(e1) != error_message(e2),
{
    if e1 != e2 {
        reveal_strlit("Token mints must be different");
        reveal_strlit("Token mints must be in canonical order");
        reveal_strlit("Liquidity amount cannot be zero");
        reveal_strlit("Pool has insufficient liquidity");
        reveal_strlit("Slippage tolerance exceeded");
        reveal_strlit("Math operation overflow");
        reveal_strlit("Invalid vault account");
        reveal_strlit("Invalid LP mint");
        reveal_strlit("Pool already exists for this token pair");
        reveal_strlit("Account is not owned by the expected authority");
        reveal_strlit("Pool is not initialized");
        assert(error_message(e1).len() != error_message(e2).len() || error_message(e1)[0]
            != error_message(e2)[0]);
    }
}

} // verus!
