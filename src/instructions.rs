use vstd::prelude::*;
use crate::error::AmmError;
use crate::liquidity::{
    compute_mint_amount, compute_withdraw_amounts, lemma_root_of_product_fits, mint_amount_result, withdraw_result,
};
use crate::math::{amount_out_result, floor_sqrt, get_amount_out};
use crate::state::{
    account_is, check_account, check_mint_authority, minted_by, Config, Key, Mint, Pool, TokenAccount,
    DEFAULT_FEE_BPS,
};

verus! {

/// One token movement that the custody collaborator is to carry out. An operation yields
/// these in order; the surrounding transaction applies all of them or none.
#[derive(Debug, Clone, Copy, PartialEq, Eq)]
pub enum Directive {
    /// Move `amount` tokens from account `from` to account `to`, authorized by `authority`.
    Transfer { from: Key, to: Key, authority: Key, amount: u64 },
    /// Create `amount` tokens of `mint` in account `to`, authorized by `authority`.
    MintTo { mint: Key, to: Key, authority: Key, amount: u64 },
    /// Destroy `amount` tokens of `mint` held in account `from`, authorized by `authority`.
    Burn { mint: Key, from: Key, authority: Key, amount: u64 },
}

/// The executable outcome `r` is the planned outcome `s`.
pub open spec fn plan_is(r: Result<Vec<Directive>, AmmError>, s: Result<Seq<Directive>, AmmError>) -> bool {
    match s {
        Ok(ds) => r is Ok && r->Ok_0@ == ds,
        Err(e) => r == Err::<Vec<Directive>, AmmError>(e),
    }
}

/// What the admin supplies to create the program's config record.
#[derive(Debug, Clone, Copy)]
pub struct InitializeConfig {
    pub admin: Key,
    pub bump: u8,
}

/// Creates the config record.
pub fn initialize_config(ctx: &InitializeConfig) -> (r: Config)
    ensures
        r.admin == ctx.admin,
        r.bump == ctx.bump,
{
    Config { admin: ctx.admin, bump: ctx.bump }
}

/// The accounts that creating a pool looks at. `pool_key` is the address derived for the
/// pair, and `existing_pool` the record already stored there, if any.
#[derive(Debug, Clone, Copy)]
pub struct InitializePool {
    pub pool_key: Key,
    pub existing_pool: Option<Pool>,
    pub bump: u8,
    pub token_mint_a: Key,
    pub token_mint_b: Key,
    pub vault_a: TokenAccount,
    pub vault_b: TokenAccount,
    pub lp_mint: Mint,
}

/// What `initialize_pool` returns.
pub open spec fn initialize_pool_result(ctx: InitializePool) -> Result<Pool, AmmError> {
    if ctx.token_mint_a@ == ctx.token_mint_b@ {
        Err(AmmError::IdenticalMints)
    } else if !ctx.token_mint_a.spec_lt(&ctx.token_mint_b) {
        Err(AmmError::InvalidMintOrder)
    } else if ctx.existing_pool is Some {
        Err(AmmError::PoolAlreadyExists)
    } else if !account_is(ctx.vault_a, ctx.token_mint_a, ctx.pool_key) || !account_is(
        ctx.vault_b,
        ctx.token_mint_b,
        ctx.pool_key,
    ) {
        Err(AmmError::InvalidVault)
    } else if !minted_by(ctx.lp_mint, ctx.pool_key) {
        Err(AmmError::InvalidLpMint)
    } else {
        Ok(
            Pool {
                token_mint_a: ctx.token_mint_a,
                token_mint_b: ctx.token_mint_b,
                vault_a: ctx.vault_a.key,
                vault_b: ctx.vault_b.key,
                lp_mint: ctx.lp_mint.key,
                fee_bps: DEFAULT_FEE_BPS,
                bump: ctx.bump,
            },
        )
    }
}

/// Creates the record of a pool for a pair of mints given in canonical order.
pub fn initialize_pool(ctx: &InitializePool) -> (r: Result<Pool, AmmError>)
    ensures
        r == initialize_pool_result(*ctx),
        r is Ok ==> r->Ok_0.wf(),
{
    if ctx.token_mint_a == ctx.token_mint_b {
        return Err(AmmError::IdenticalMints);
    }
    if !ctx.token_mint_a.precedes(&ctx.token_mint_b) {
        return Err(AmmError::InvalidMintOrder);
    }
    if ctx.existing_pool.is_some() {
        return Err(AmmError::PoolAlreadyExists);
    }
    if !check_account(&ctx.vault_a, &ctx.token_mint_a, &ctx.pool_key) || !check_account(
        &ctx.vault_b,
        &ctx.token_mint_b,
        &ctx.pool_key,
    ) {
        return Err(AmmError::InvalidVault);
    }
    if !check_mint_authority(&ctx.lp_mint, &ctx.pool_key) {
        return Err(AmmError::InvalidLpMint);
    }
    Ok(
        Pool {
            token_mint_a: ctx.token_mint_a,
            token_mint_b: ctx.token_mint_b,
            vault_a: ctx.vault_a.key,
            vault_b: ctx.vault_b.key,
            lp_mint: ctx.lp_mint.key,
            fee_bps: DEFAULT_FEE_BPS,
            bump: ctx.bump,
        },
    )
}

/// Mints given out of canonical order are refused.
pub proof fn lemma_mints_out_of_order_refused(ctx: InitializePool)
    requires
        ctx.token_mint_b.spec_lt(&ctx.token_mint_a),
    ensures
        initialize_pool_result(ctx) == Err::<Pool, AmmError>(AmmError::InvalidMintOrder),
{
    crate::state::lemma_key_lt_asymmetric(ctx.token_mint_b, ctx.token_mint_a);
}

/// Once a pool has been created for a pair, creating it again at the same address is
/// refused, whatever accounts come with the second request.
pub proof fn lemma_pool_created_once(first: InitializePool, second: InitializePool)
    requires
        initialize_pool_result(first) is Ok,
        second.token_mint_a == first.token_mint_a,
        second.token_mint_b == first.token_mint_b,
        second.existing_pool == Some(initialize_pool_result(first)->Ok_0),
    ensures
        initialize_pool_result(second) == Err::<Pool, AmmError>(AmmError::PoolAlreadyExists),
{
}

/// The first failure among the links between a pool record and the vault and LP-mint
/// accounts supplied with it.
pub open spec fn pool_link_error(
    pool: Pool,
    pool_key: Key,
    vault_a: TokenAccount,
    vault_b: TokenAccount,
    lp_mint: Mint,
) -> Option<AmmError> {
    if vault_a.key@ != pool.vault_a@ || !account_is(vault_a, pool.token_mint_a, pool_key) {
        Some(AmmError::InvalidVault)
    } else if vault_b.key@ != pool.vault_b@ || !account_is(vault_b, pool.token_mint_b, pool_key) {
        Some(AmmError::InvalidVault)
    } else if lp_mint.key@ != pool.lp_mint@ || !minted_by(lp_mint, pool_key) {
        Some(AmmError::InvalidLpMint)
    } else {
        None
    }
}

/// Checks that the vaults and the LP mint are the pool's own.
pub fn check_pool_links(
    pool: &Pool,
    pool_key: &Key,
    vault_a: &TokenAccount,
    vault_b: &TokenAccount,
    lp_mint: &Mint,
) -> (r: Result<(), AmmError>)
    ensures
        r == (match pool_link_error(*pool, *pool_key, *vault_a, *vault_b, *lp_mint) {
            Some(e) => Err(e),
            None => Ok(()),
        }),
{
    if vault_a.key != pool.vault_a || !check_account(vault_a, &pool.token_mint_a, pool_key) {
        return Err(AmmError::InvalidVault);
    }
    if vault_b.key != pool.vault_b || !check_account(vault_b, &pool.token_mint_b, pool_key) {
        return Err(AmmError::InvalidVault);
    }
    if lp_mint.key != pool.lp_mint || !check_mint_authority(lp_mint, pool_key) {
        return Err(AmmError::InvalidLpMint);
    }
    Ok(())
}

/// The failure, if any, of a user's account that should hold `mint` and be owned by `user`:
/// `wrong_mint` for another mint, `Unauthorized` for another owner.
pub open spec fn user_account_error(acct: TokenAccount, mint: Key, user: Key, wrong_mint: AmmError) -> Option<
    AmmError,
> {
    if acct.mint@ != mint@ {
        Some(wrong_mint)
    } else if acct.owner@ != user@ {
        Some(AmmError::Unauthorized)
    } else {
        None
    }
}

/// Checks a user's account as `user_account_error` says.
pub fn check_user_account(acct: &TokenAccount, mint: &Key, user: &Key, wrong_mint: AmmError) -> (r:
    Result<(), AmmError>)
    ensures
        r == (match user_account_error(*acct, *mint, *user, wrong_mint) {
            Some(e) => Err(e),
            None => Ok(()),
        }),
{
    if acct.mint != *mint {
        return Err(wrong_mint);
    }
    if acct.owner != *user {
        return Err(AmmError::Unauthorized);
    }
    Ok(())
}

/// `first` if it names a failure, else `second`.
pub open spec fn first_error(first: Option<AmmError>, second: Option<AmmError>) -> Option<AmmError> {
    if first is Some {
        first
    } else {
        second
    }
}

/// The accounts that adding liquidity looks at, as the custody collaborator reports them.
#[derive(Debug, Clone, Copy)]
pub struct AddLiquidity {
    pub pool: Pool,
    pub pool_key: Key,
    pub user: Key,
    pub vault_a: TokenAccount,
    pub vault_b: TokenAccount,
    pub lp_mint: Mint,
    pub user_token_a: TokenAccount,
    pub user_token_b: TokenAccount,
    pub user_lp: TokenAccount,
}

/// The first failure among the accounts supplied to add liquidity.
pub open spec fn add_liquidity_accounts_error(ctx: AddLiquidity) -> Option<AmmError> {
    first_error(
        pool_link_error(ctx.pool, ctx.pool_key, ctx.vault_a, ctx.vault_b, ctx.lp_mint),
        first_error(
            user_account_error(ctx.user_token_a, ctx.pool.token_mint_a, ctx.user, AmmError::InvalidVault),
            first_error(
                user_account_error(ctx.user_token_b, ctx.pool.token_mint_b, ctx.user, AmmError::InvalidVault),
                user_account_error(ctx.user_lp, ctx.pool.lp_mint, ctx.user, AmmError::InvalidLpMint),
            ),
        ),
    )
}

/// What `add_liquidity` does: pull both amounts from the user into the vaults, then mint
/// the LP tokens that the deposit earns to the user, under the pool's authority.
pub open spec fn add_liquidity_plan(ctx: AddLiquidity, amount_a: u64, amount_b: u64, min_lp_tokens: u64) -> Result<
    Seq<Directive>,
    AmmError,
> {
    if amount_a == 0 || amount_b == 0 {
        Err(AmmError::ZeroLiquidity)
    } else if add_liquidity_accounts_error(ctx) is Some {
        Err(add_liquidity_accounts_error(ctx)->0)
    } else {
        match mint_amount_result(
            amount_a,
            amount_b,
            ctx.vault_a.amount,
            ctx.vault_b.amount,
            ctx.lp_mint.supply,
        ) {
            Err(e) => Err(e),
            Ok(lp) => if lp < min_lp_tokens {
                Err(AmmError::SlippageExceeded)
            } else {
                Ok(
                    seq![
                        Directive::Transfer {
                            from: ctx.user_token_a.key,
                            to: ctx.vault_a.key,
                            authority: ctx.user,
                            amount: amount_a,
                        },
                        Directive::Transfer {
                            from: ctx.user_token_b.key,
                            to: ctx.vault_b.key,
                            authority: ctx.user,
                            amount: amount_b,
                        },
                        Directive::MintTo {
                            mint: ctx.lp_mint.key,
                            to: ctx.user_lp.key,
                            authority: ctx.pool_key,
                            amount: lp,
                        },
                    ],
                )
            },
        }
    }
}

/// Deposits `amount_a` and `amount_b` into the pool for at least `min_lp_tokens` LP tokens,
/// and returns the token movements that carry it out.
pub fn add_liquidity(ctx: &AddLiquidity, amount_a: u64, amount_b: u64, min_lp_tokens: u64) -> (r: Result<
    Vec<Directive>,
    AmmError,
>)
    ensures
        plan_is(r, add_liquidity_plan(*ctx, amount_a, amount_b, min_lp_tokens)),
{
    if amount_a == 0 || amount_b == 0 {
        return Err(AmmError::ZeroLiquidity);
    }
    match check_pool_links(&ctx.pool, &ctx.pool_key, &ctx.vault_a, &ctx.vault_b, &ctx.lp_mint) {
        Err(e) => return Err(e),
        Ok(()) => {},
    }
    match check_user_account(&ctx.user_token_a, &ctx.pool.token_mint_a, &ctx.user, AmmError::InvalidVault) {
        Err(e) => return Err(e),
        Ok(()) => {},
    }
    match check_user_account(&ctx.user_token_b, &ctx.pool.token_mint_b, &ctx.user, AmmError::InvalidVault) {
        Err(e) => return Err(e),
        Ok(()) => {},
    }
    match check_user_account(&ctx.user_lp, &ctx.pool.lp_mint, &ctx.user, AmmError::InvalidLpMint) {
        Err(e) => return Err(e),
        Ok(()) => {},
    }
    let lp_tokens = match compute_mint_amount(
        amount_a,
        amount_b,
        ctx.vault_a.amount,
        ctx.vault_b.amount,
        ctx.lp_mint.supply,
    ) {
        Ok(v) => v,
        Err(e) => return Err(e),
    };
    if lp_tokens < min_lp_tokens {
        return Err(AmmError::SlippageExceeded);
    }
    let mut plan: Vec<Directive> = Vec::new();
    plan.push(
        Directive::Transfer {
            from: ctx.user_token_a.key,
            to: ctx.vault_a.key,
            authority: ctx.user,
            amount: amount_a,
        },
    );
    plan.push(
        Directive::Transfer {
            from: ctx.user_token_b.key,
            to: ctx.vault_b.key,
            authority: ctx.user,
            amount: amount_b,
        },
    );
    plan.push(
        Directive::MintTo {
            mint: ctx.lp_mint.key,
            to: ctx.user_lp.key,
            authority: ctx.pool_key,
            amount: lp_tokens,
        },
    );
    proof {
        assert(plan@ =~= add_liquidity_plan(*ctx, amount_a, amount_b, min_lp_tokens)->Ok_0);
    }
    Ok(plan)
}

/// The accounts that removing liquidity looks at, as the custody collaborator reports them.
#[derive(Debug, Clone, Copy)]
pub struct RemoveLiquidity {
    pub pool: Pool,
    pub pool_key: Key,
    pub user: Key,
    pub vault_a: TokenAccount,
    pub vault_b: TokenAccount,
    pub lp_mint: Mint,
    pub user_lp: TokenAccount,
    pub user_token_a: TokenAccount,
    pub user_token_b: TokenAccount,
}

/// The first failure among the accounts supplied to remove liquidity.
pub open spec fn remove_liquidity_accounts_error(ctx: RemoveLiquidity) -> Option<AmmError> {
    first_error(
        pool_link_error(ctx.pool, ctx.pool_key, ctx.vault_a, ctx.vault_b, ctx.lp_mint),
        first_error(
            user_account_error(ctx.user_lp, ctx.pool.lp_mint, ctx.user, AmmError::InvalidLpMint),
            first_error(
                user_account_error(ctx.user_token_a, ctx.pool.token_mint_a, ctx.user, AmmError::InvalidVault),
                user_account_error(ctx.user_token_b, ctx.pool.token_mint_b, ctx.user, AmmError::InvalidVault),
            ),
        ),
    )
}

/// What `remove_liquidity` does: burn the user's LP tokens, then pay out the user's share
/// of each reserve from the vaults, under the pool's authority.
pub open spec fn remove_liquidity_plan(ctx: RemoveLiquidity, lp_amount: u64) -> Result<Seq<Directive>, AmmError> {
    if lp_amount == 0 {
        Err(AmmError::ZeroLiquidity)
    } else if remove_liquidity_accounts_error(ctx) is Some {
        Err(remove_liquidity_accounts_error(ctx)->0)
    } else {
        match withdraw_result(lp_amount, ctx.vault_a.amount, ctx.vault_b.amount, ctx.lp_mint.supply) {
            Err(e) => Err(e),
            Ok(amounts) => Ok(
                seq![
                    Directive::Burn {
                        mint: ctx.lp_mint.key,
                        from: ctx.user_lp.key,
                        authority: ctx.user,
                        amount: lp_amount,
                    },
                    Directive::Transfer {
                        from: ctx.vault_a.key,
                        to: ctx.user_token_a.key,
                        authority: ctx.pool_key,
                        amount: amounts.0,
                    },
                    Directive::Transfer {
                        from: ctx.vault_b.key,
                        to: ctx.user_token_b.key,
                        authority: ctx.pool_key,
                        amount: amounts.1,
                    },
                ],
            ),
        }
    }
}

/// Redeems `lp_amount` LP tokens for the user's share of both reserves, and returns the
/// token movements that carry it out.
pub fn remove_liquidity(ctx: &RemoveLiquidity, lp_amount: u64) -> (r: Result<Vec<Directive>, AmmError>)
    ensures
        plan_is(r, remove_liquidity_plan(*ctx, lp_amount)),
{
    if lp_amount == 0 {
        return Err(AmmError::ZeroLiquidity);
    }
    match check_pool_links(&ctx.pool, &ctx.pool_key, &ctx.vault_a, &ctx.vault_b, &ctx.lp_mint) {
        Err(e) => return Err(e),
        Ok(()) => {},
    }
    match check_user_account(&ctx.user_lp, &ctx.pool.lp_mint, &ctx.user, AmmError::InvalidLpMint) {
        Err(e) => return Err(e),
        Ok(()) => {},
    }
    match check_user_account(&ctx.user_token_a, &ctx.pool.token_mint_a, &ctx.user, AmmError::InvalidVault) {
        Err(e) => return Err(e),
        Ok(()) => {},
    }
    match check_user_account(&ctx.user_token_b, &ctx.pool.token_mint_b, &ctx.user, AmmError::InvalidVault) {
        Err(e) => return Err(e),
        Ok(()) => {},
    }
    let (amount_a, amount_b) = match compute_withdraw_amounts(
        lp_amount,
        ctx.vault_a.amount,
        ctx.vault_b.amount,
        ctx.lp_mint.supply,
    ) {
        Ok(v) => v,
        Err(e) => return Err(e),
    };
    let mut plan: Vec<Directive> = Vec::new();
    plan.push(
        Directive::Burn { mint: ctx.lp_mint.key, from: ctx.user_lp.key, authority: ctx.user, amount: lp_amount },
    );
    plan.push(
        Directive::Transfer {
            from: ctx.vault_a.key,
            to: ctx.user_token_a.key,
            authority: ctx.pool_key,
            amount: amount_a,
        },
    );
    plan.push(
        Directive::Transfer {
            from: ctx.vault_b.key,
            to: ctx.user_token_b.key,
            authority: ctx.pool_key,
            amount: amount_b,
        },
    );
    proof {
        assert(plan@ =~= remove_liquidity_plan(*ctx, lp_amount)->Ok_0);
    }
    Ok(plan)
}

/// The accounts that a swap looks at. The direction is the one in which `vault_input`
/// receives and `vault_output` pays.
#[derive(Debug, Clone, Copy)]
pub struct Swap {
    pub pool: Pool,
    pub pool_key: Key,
    pub user: Key,
    pub user_input: TokenAccount,
    pub user_output: TokenAccount,
    pub vault_input: TokenAccount,
    pub vault_output: TokenAccount,
}

/// The first failure among the accounts supplied to a swap: the vaults must be the pool's
/// two distinct vaults, the user's accounts the user's own, and each side's mints must match
/// the direction that the input vault picks.
pub open spec fn swap_accounts_error(ctx: Swap) -> Option<AmmError> {
    let pool = ctx.pool;
    if ctx.vault_input.owner@ != ctx.pool_key@ || ctx.vault_output.owner@ != ctx.pool_key@
        || ctx.vault_input.key@ == ctx.vault_output.key@ {
        Some(AmmError::InvalidVault)
    } else if ctx.user_input.owner@ != ctx.user@ || ctx.user_output.owner@ != ctx.user@ {
        Some(AmmError::Unauthorized)
    } else if ctx.vault_input.key@ == pool.vault_a@ {
        if ctx.vault_output.key@ != pool.vault_b@ || ctx.user_input.mint@ != pool.token_mint_a@
            || ctx.user_output.mint@ != pool.token_mint_b@ {
            Some(AmmError::InvalidVault)
        } else {
            None
        }
    } else if ctx.vault_input.key@ == pool.vault_b@ {
        if ctx.vault_output.key@ != pool.vault_a@ || ctx.user_input.mint@ != pool.token_mint_b@
            || ctx.user_output.mint@ != pool.token_mint_a@ {
            Some(AmmError::InvalidVault)
        } else {
            None
        }
    } else {
        Some(AmmError::InvalidVault)
    }
}

/// What `swap` does: price the input against the live reserves, hold the output to the
/// caller's minimum and below the whole output reserve, then pull the input from the user
/// and pay the output from the vault under the pool's authority.
pub open spec fn swap_plan(ctx: Swap, amount_in: u64, minimum_amount_out: u64) -> Result<Seq<Directive>, AmmError> {
    let reserve_in = ctx.vault_input.amount;
    let reserve_out = ctx.vault_output.amount;
    if amount_in == 0 {
        Err(AmmError::ZeroLiquidity)
    } else if swap_accounts_error(ctx) is Some {
        Err(swap_accounts_error(ctx)->0)
    } else if reserve_in == 0 || reserve_out == 0 {
        Err(AmmError::InsufficientLiquidity)
    } else {
        match amount_out_result(amount_in, reserve_in, reserve_out, ctx.pool.fee_bps) {
            Err(e) => Err(e),
            Ok(out) => if out < minimum_amount_out {
                Err(AmmError::SlippageExceeded)
            } else if out >= reserve_out {
                Err(AmmError::InsufficientLiquidity)
            } else {
                Ok(
                    seq![
                        Directive::Transfer {
                            from: ctx.user_input.key,
                            to: ctx.vault_input.key,
                            authority: ctx.user,
                            amount: amount_in,
                        },
                        Directive::Transfer {
                            from: ctx.vault_output.key,
                            to: ctx.user_output.key,
                            authority: ctx.pool_key,
                            amount: out,
                        },
                    ],
                )
            },
        }
    }
}

/// Checks the accounts of a swap as `swap_accounts_error` says.
fn check_swap_accounts(ctx: &Swap) -> (r: Result<(), AmmError>)
    ensures
        r == (match swap_accounts_error(*ctx) {
            Some(e) => Err(e),
            None => Ok(()),
        }),
{
    let pool = &ctx.pool;
    if ctx.vault_input.owner != ctx.pool_key || ctx.vault_output.owner != ctx.pool_key
        || ctx.vault_input.key == ctx.vault_output.key {
        return Err(AmmError::InvalidVault);
    }
    if ctx.user_input.owner != ctx.user || ctx.user_output.owner != ctx.user {
        return Err(AmmError::Unauthorized);
    }
    if ctx.vault_input.key == pool.vault_a {
        if ctx.vault_output.key != pool.vault_b || ctx.user_input.mint != pool.token_mint_a
            || ctx.user_output.mint != pool.token_mint_b {
            return Err(AmmError::InvalidVault);
        }
        Ok(())
    } else if ctx.vault_input.key == pool.vault_b {
        if ctx.vault_output.key != pool.vault_a || ctx.user_input.mint != pool.token_mint_b
            || ctx.user_output.mint != pool.token_mint_a {
            return Err(AmmError::InvalidVault);
        }
        Ok(())
    } else {
        Err(AmmError::InvalidVault)
    }
}

/// Swaps `amount_in` of the input vault's token for at least `minimum_amount_out` of the
/// other, and returns the token movements that carry it out.
pub fn swap(ctx: &Swap, amount_in: u64, minimum_amount_out: u64) -> (r: Result<Vec<Directive>, AmmError>)
    ensures
        plan_is(r, swap_plan(*ctx, amount_in, minimum_amount_out)),
{
    if amount_in == 0 {
        return Err(AmmError::ZeroLiquidity);
    }
    match check_swap_accounts(ctx) {
        Err(e) => return Err(e),
        Ok(()) => {},
    }
    let reserve_in = ctx.vault_input.amount;
    let reserve_out = ctx.vault_output.amount;
    if reserve_in == 0 || reserve_out == 0 {
        return Err(AmmError::InsufficientLiquidity);
    }
    let amount_out = match get_amount_out(amount_in, reserve_in, reserve_out, ctx.pool.fee_bps) {
        Ok(v) => v,
        Err(e) => return Err(e),
    };
    if amount_out < minimum_amount_out {
        return Err(AmmError::SlippageExceeded);
    }
    if amount_out >= reserve_out {
        return Err(AmmError::InsufficientLiquidity);
    }
    let mut plan: Vec<Directive> = Vec::new();
    plan.push(
        Directive::Transfer {
            from: ctx.user_input.key,
            to: ctx.vault_input.key,
            authority: ctx.user,
            amount: amount_in,
        },
    );
    plan.push(
        Directive::Transfer {
            from: ctx.vault_output.key,
            to: ctx.user_output.key,
            authority: ctx.pool_key,
            amount: amount_out,
        },
    );
    proof {
        assert(plan@ =~= swap_plan(*ctx, amount_in, minimum_amount_out)->Ok_0);
    }
    Ok(plan)
}

/// The number of tokens that a directive moves, creates or destroys.
pub open spec fn directive_amount(d: Directive) -> u64 {
    match d {
        Directive::Transfer { amount, .. } => amount,
        Directive::MintTo { amount, .. } => amount,
        Directive::Burn { amount, .. } => amount,
    }
}

/// Once a swap's movements are applied, the product of the two vault balances is no
/// smaller than before, and larger when the pool charges a fee.
pub proof fn lemma_swap_keeps_product(ctx: Swap, amount_in: u64, minimum_amount_out: u64)
    requires
        swap_plan(ctx, amount_in, minimum_amount_out) is Ok,
    ensures
        ({
            let plan = swap_plan(ctx, amount_in, minimum_amount_out)->Ok_0;
            let reserve_in = ctx.vault_input.amount as int;
            let reserve_out = ctx.vault_output.amount as int;
            let paid_in = directive_amount(plan[0]) as int;
            let paid_out = directive_amount(plan[1]) as int;
            let after = (reserve_in + paid_in) * (reserve_out - paid_out);
            paid_in == amount_in && 0 <= paid_out < reserve_out && after >= reserve_in * reserve_out && (
            ctx.pool.fee_bps > 0 ==> after > reserve_in * reserve_out)
        }),
{
    crate::math::lemma_swap_invariant_growth(
        amount_in,
        ctx.vault_input.amount,
        ctx.vault_output.amount,
        ctx.pool.fee_bps,
    );
}

/// On a pool with no LP supply, adding liquidity with well-linked accounts mints the floor
/// square root of the product of the two amounts to the user, whatever the vaults hold.
pub proof fn lemma_add_liquidity_bootstrap(ctx: AddLiquidity, amount_a: u64, amount_b: u64, min_lp_tokens: u64)
    requires
        add_liquidity_accounts_error(ctx) is None,
        ctx.lp_mint.supply == 0,
        amount_a > 0,
        amount_b > 0,
        min_lp_tokens <= floor_sqrt(((amount_a as int) * (amount_b as int)) as nat),
    ensures
        add_liquidity_plan(ctx, amount_a, amount_b, min_lp_tokens) is Ok,
        add_liquidity_plan(ctx, amount_a, amount_b, min_lp_tokens)->Ok_0[2] == (Directive::MintTo {
            mint: ctx.lp_mint.key,
            to: ctx.user_lp.key,
            authority: ctx.pool_key,
            amount: floor_sqrt(((amount_a as int) * (amount_b as int)) as nat) as u64,
        }),
{
    let a = amount_a as int;
    let b = amount_b as int;
    lemma_root_of_product_fits(amount_a, amount_b);
    let r = floor_sqrt((a * b) as nat) as int;
    assert(a * b >= 1) by (nonlinear_arith)
        requires
            a >= 1,
            b >= 1,
    ;
    assert(crate::math::is_floor_sqrt(r, a * b));
    assert(r != 0) by (nonlinear_arith)
        requires
            a * b < (r + 1) * (r + 1),
            a * b >= 1,
            r >= 0,
    ;
    assert(mint_amount_result(amount_a, amount_b, ctx.vault_a.amount, ctx.vault_b.amount, 0) == Ok::<
        u64,
        AmmError,
    >(r as u64));
    assert(!((r as u64) < min_lp_tokens));
    let plan = add_liquidity_plan(ctx, amount_a, amount_b, min_lp_tokens)->Ok_0;
    assert(plan.len() == 3);
}

/// On a fresh pool with empty vaults, adding liquidity and then, with well-linked accounts,
/// redeeming every LP token that the deposit minted pays back exactly the deposit.
pub proof fn lemma_fresh_pool_round_trip(
    deposit: AddLiquidity,
    amount_a: u64,
    amount_b: u64,
    min_lp_tokens: u64,
    withdrawal: RemoveLiquidity,
)
    requires
        deposit.vault_a.amount == 0,
        deposit.vault_b.amount == 0,
        deposit.lp_mint.supply == 0,
        add_liquidity_plan(deposit, amount_a, amount_b, min_lp_tokens) is Ok,
        remove_liquidity_accounts_error(withdrawal) is None,
        withdrawal.vault_a.amount == amount_a,
        withdrawal.vault_b.amount == amount_b,
        withdrawal.lp_mint.supply == directive_amount(
            add_liquidity_plan(deposit, amount_a, amount_b, min_lp_tokens)->Ok_0[2],
        ),
    ensures
        ({
            let lp = withdrawal.lp_mint.supply;
            let back = remove_liquidity_plan(withdrawal, lp);
            back is Ok && directive_amount(back->Ok_0[1]) == amount_a && directive_amount(back->Ok_0[2])
                == amount_b
        }),
{
    let lp = mint_amount_result(amount_a, amount_b, 0, 0, 0)->Ok_0;
    let plan = add_liquidity_plan(deposit, amount_a, amount_b, min_lp_tokens)->Ok_0;
    assert(plan.len() == 3);
    assert(withdrawal.lp_mint.supply == lp);
    crate::liquidity::lemma_deposit_withdraw_round_trip(amount_a, amount_b, 0, 0, 0);
    let back = remove_liquidity_plan(withdrawal, lp)->Ok_0;
    assert(back.len() == 3);
}

} // verus!
