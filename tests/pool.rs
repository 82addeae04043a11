use amm::{
    add_liquidity, initialize_config, initialize_pool, remove_liquidity, swap, AddLiquidity, AmmError, Directive,
    InitializeConfig, InitializePool, Key, Mint, Pool, RemoveLiquidity, Swap, TokenAccount, DEFAULT_FEE_BPS,
};

fn key(n: u8) -> Key {
    Key { bytes: [n; 32] }
}

const MINT_A: u8 = 10;
const MINT_B: u8 = 20;
const VAULT_A: u8 = 30;
const VAULT_B: u8 = 31;
const LP_MINT: u8 = 40;
const POOL: u8 = 50;
const USER: u8 = 60;
const USER_A: u8 = 61;
const USER_B: u8 = 62;
const USER_LP: u8 = 63;

fn account(k: u8, mint: u8, owner: u8, amount: u64) -> TokenAccount {
    TokenAccount { key: key(k), mint: key(mint), owner: key(owner), amount }
}

fn lp_mint(supply: u64) -> Mint {
    Mint { key: key(LP_MINT), supply, mint_authority: Some(key(POOL)) }
}

fn init_ctx() -> InitializePool {
    InitializePool {
        pool_key: key(POOL),
        existing_pool: None,
        bump: 254,
        token_mint_a: key(MINT_A),
        token_mint_b: key(MINT_B),
        vault_a: account(VAULT_A, MINT_A, POOL, 0),
        vault_b: account(VAULT_B, MINT_B, POOL, 0),
        lp_mint: lp_mint(0),
    }
}

fn pool() -> Pool {
    initialize_pool(&init_ctx()).unwrap()
}

fn add_ctx(reserve_a: u64, reserve_b: u64, supply: u64) -> AddLiquidity {
    AddLiquidity {
        pool: pool(),
        pool_key: key(POOL),
        user: key(USER),
        vault_a: account(VAULT_A, MINT_A, POOL, reserve_a),
        vault_b: account(VAULT_B, MINT_B, POOL, reserve_b),
        lp_mint: lp_mint(supply),
        user_token_a: account(USER_A, MINT_A, USER, 1_000_000),
        user_token_b: account(USER_B, MINT_B, USER, 1_000_000),
        user_lp: account(USER_LP, LP_MINT, USER, 0),
    }
}

fn remove_ctx(reserve_a: u64, reserve_b: u64, supply: u64) -> RemoveLiquidity {
    RemoveLiquidity {
        pool: pool(),
        pool_key: key(POOL),
        user: key(USER),
        vault_a: account(VAULT_A, MINT_A, POOL, reserve_a),
        vault_b: account(VAULT_B, MINT_B, POOL, reserve_b),
        lp_mint: lp_mint(supply),
        user_lp: account(USER_LP, LP_MINT, USER, supply),
        user_token_a: account(USER_A, MINT_A, USER, 0),
        user_token_b: account(USER_B, MINT_B, USER, 0),
    }
}

fn swap_a_to_b(reserve_a: u64, reserve_b: u64) -> Swap {
    Swap {
        pool: pool(),
        pool_key: key(POOL),
        user: key(USER),
        user_input: account(USER_A, MINT_A, USER, 1_000),
        user_output: account(USER_B, MINT_B, USER, 0),
        vault_input: account(VAULT_A, MINT_A, POOL, reserve_a),
        vault_output: account(VAULT_B, MINT_B, POOL, reserve_b),
    }
}

#[test]
fn key_byte_order() {
    assert!(key(1).precedes(&key(2)));
    assert!(!key(2).precedes(&key(1)));
    assert!(!key(3).precedes(&key(3)));
    let mut early = [7u8; 32];
    let mut late = [7u8; 32];
    early[31] = 1;
    late[31] = 2;
    late[0] = 6;
    assert!(late_first(&early, &late));
    assert!(key(3) == key(3));
    assert!(Key { bytes: early } != Key { bytes: late });
}

fn late_first(early: &[u8; 32], late: &[u8; 32]) -> bool {
    Key { bytes: *late }.precedes(&Key { bytes: *early })
}

#[test]
fn config_records_admin() {
    let c = initialize_config(&InitializeConfig { admin: key(1), bump: 3 });
    assert!(c.admin == key(1));
    assert_eq!(c.bump, 3);
}

#[test]
fn initialize_writes_record() {
    let p = pool();
    assert!(p.token_mint_a == key(MINT_A));
    assert!(p.token_mint_b == key(MINT_B));
    assert!(p.vault_a == key(VAULT_A));
    assert!(p.vault_b == key(VAULT_B));
    assert!(p.lp_mint == key(LP_MINT));
    assert_eq!(p.fee_bps, DEFAULT_FEE_BPS);
    assert_eq!(p.fee_bps, 30);
    assert_eq!(p.bump, 254);
}

#[test]
fn initialize_refuses_identical_mints() {
    let mut ctx = init_ctx();
    ctx.token_mint_b = key(MINT_A);
    assert_eq!(initialize_pool(&ctx).unwrap_err(), AmmError::IdenticalMints);
}

#[test]
fn initialize_refuses_reversed_mints() {
    let mut ctx = init_ctx();
    ctx.token_mint_a = key(MINT_B);
    ctx.token_mint_b = key(MINT_A);
    ctx.vault_a = account(VAULT_A, MINT_B, POOL, 0);
    ctx.vault_b = account(VAULT_B, MINT_A, POOL, 0);
    assert_eq!(initialize_pool(&ctx).unwrap_err(), AmmError::InvalidMintOrder);
}

#[test]
fn initialize_twice_refused() {
    let first = init_ctx();
    let created = initialize_pool(&first).unwrap();
    let mut second = init_ctx();
    second.existing_pool = Some(created);
    assert_eq!(initialize_pool(&second).unwrap_err(), AmmError::PoolAlreadyExists);
}

#[test]
fn initialize_refuses_bad_vaults_and_lp_mint() {
    let mut ctx = init_ctx();
    ctx.vault_a = account(VAULT_A, MINT_B, POOL, 0);
    assert_eq!(initialize_pool(&ctx).unwrap_err(), AmmError::InvalidVault);
    let mut ctx = init_ctx();
    ctx.vault_b = account(VAULT_B, MINT_B, USER, 0);
    assert_eq!(initialize_pool(&ctx).unwrap_err(), AmmError::InvalidVault);
    let mut ctx = init_ctx();
    ctx.lp_mint.mint_authority = None;
    assert_eq!(initialize_pool(&ctx).unwrap_err(), AmmError::InvalidLpMint);
    let mut ctx = init_ctx();
    ctx.lp_mint.mint_authority = Some(key(USER));
    assert_eq!(initialize_pool(&ctx).unwrap_err(), AmmError::InvalidLpMint);
}

#[test]
fn add_liquidity_bootstrap_plan() {
    let plan = add_liquidity(&add_ctx(0, 0, 0), 1000, 4000, 2000).unwrap();
    assert_eq!(
        plan,
        vec![
            Directive::Transfer { from: key(USER_A), to: key(VAULT_A), authority: key(USER), amount: 1000 },
            Directive::Transfer { from: key(USER_B), to: key(VAULT_B), authority: key(USER), amount: 4000 },
            Directive::MintTo { mint: key(LP_MINT), to: key(USER_LP), authority: key(POOL), amount: 2000 },
        ]
    );
}

#[test]
fn add_liquidity_keeps_excess_as_donation() {
    let plan = add_liquidity(&add_ctx(1000, 2000, 500), 100, 300, 0).unwrap();
    assert_eq!(plan[1], Directive::Transfer { from: key(USER_B), to: key(VAULT_B), authority: key(USER), amount: 300 });
    assert_eq!(plan[2], Directive::MintTo { mint: key(LP_MINT), to: key(USER_LP), authority: key(POOL), amount: 50 });
}

#[test]
fn add_liquidity_errors() {
    assert_eq!(add_liquidity(&add_ctx(0, 0, 0), 0, 4000, 0), Err(AmmError::ZeroLiquidity));
    assert_eq!(add_liquidity(&add_ctx(0, 0, 0), 1000, 4000, 2001), Err(AmmError::SlippageExceeded));
    let mut ctx = add_ctx(0, 0, 0);
    ctx.vault_a.key = key(99);
    assert_eq!(add_liquidity(&ctx, 1000, 4000, 0), Err(AmmError::InvalidVault));
    let mut ctx = add_ctx(0, 0, 0);
    ctx.lp_mint.mint_authority = Some(key(USER));
    assert_eq!(add_liquidity(&ctx, 1000, 4000, 0), Err(AmmError::InvalidLpMint));
    let mut ctx = add_ctx(0, 0, 0);
    ctx.user_token_b.owner = key(99);
    assert_eq!(add_liquidity(&ctx, 1000, 4000, 0), Err(AmmError::Unauthorized));
    let mut ctx = add_ctx(0, 0, 0);
    ctx.user_lp.mint = key(MINT_A);
    assert_eq!(add_liquidity(&ctx, 1000, 4000, 0), Err(AmmError::InvalidLpMint));
    assert_eq!(add_liquidity(&add_ctx(0, 2000, 500), 100, 300, 0), Err(AmmError::MathOverflow));
}

#[test]
fn remove_liquidity_plan() {
    let plan = remove_liquidity(&remove_ctx(100, 200, 100), 10).unwrap();
    assert_eq!(
        plan,
        vec![
            Directive::Burn { mint: key(LP_MINT), from: key(USER_LP), authority: key(USER), amount: 10 },
            Directive::Transfer { from: key(VAULT_A), to: key(USER_A), authority: key(POOL), amount: 10 },
            Directive::Transfer { from: key(VAULT_B), to: key(USER_B), authority: key(POOL), amount: 20 },
        ]
    );
}

#[test]
fn remove_liquidity_errors() {
    assert_eq!(remove_liquidity(&remove_ctx(100, 200, 100), 0), Err(AmmError::ZeroLiquidity));
    assert_eq!(remove_liquidity(&remove_ctx(100, 200, 100), 101), Err(AmmError::InsufficientLiquidity));
    assert_eq!(remove_liquidity(&remove_ctx(100, 200, 0), 1), Err(AmmError::InsufficientLiquidity));
    assert_eq!(remove_liquidity(&remove_ctx(5, 1000, 100), 1), Err(AmmError::InsufficientLiquidity));
    let mut ctx = remove_ctx(100, 200, 100);
    ctx.vault_b.owner = key(USER);
    assert_eq!(remove_liquidity(&ctx, 10), Err(AmmError::InvalidVault));
    let mut ctx = remove_ctx(100, 200, 100);
    ctx.user_lp.owner = key(99);
    assert_eq!(remove_liquidity(&ctx, 10), Err(AmmError::Unauthorized));
}

#[test]
fn swap_concrete_scenario() {
    let plan = swap(&swap_a_to_b(1000, 4000), 100, 362).unwrap();
    assert_eq!(
        plan,
        vec![
            Directive::Transfer { from: key(USER_A), to: key(VAULT_A), authority: key(USER), amount: 100 },
            Directive::Transfer { from: key(VAULT_B), to: key(USER_B), authority: key(POOL), amount: 362 },
        ]
    );
}

#[test]
fn swap_other_direction() {
    let ctx = Swap {
        pool: pool(),
        pool_key: key(POOL),
        user: key(USER),
        user_input: account(USER_B, MINT_B, USER, 1_000),
        user_output: account(USER_A, MINT_A, USER, 0),
        vault_input: account(VAULT_B, MINT_B, POOL, 4000),
        vault_output: account(VAULT_A, MINT_A, POOL, 1000),
    };
    let plan = swap(&ctx, 400, 0).unwrap();
    assert_eq!(plan[1], Directive::Transfer { from: key(VAULT_A), to: key(USER_A), authority: key(POOL), amount: 90 });
}

#[test]
fn swap_errors() {
    assert_eq!(swap(&swap_a_to_b(1000, 4000), 0, 0), Err(AmmError::ZeroLiquidity));
    assert_eq!(swap(&swap_a_to_b(1000, 4000), 100, 363), Err(AmmError::SlippageExceeded));
    assert_eq!(swap(&swap_a_to_b(0, 4000), 100, 0), Err(AmmError::InsufficientLiquidity));
    assert_eq!(swap(&swap_a_to_b(u64::MAX, u64::MAX), u64::MAX, 0), Err(AmmError::MathOverflow));
    let mut ctx = swap_a_to_b(1000, 4000);
    ctx.vault_output = ctx.vault_input;
    assert_eq!(swap(&ctx, 100, 0), Err(AmmError::InvalidVault));
    let mut ctx = swap_a_to_b(1000, 4000);
    ctx.vault_input.key = key(99);
    assert_eq!(swap(&ctx, 100, 0), Err(AmmError::InvalidVault));
    let mut ctx = swap_a_to_b(1000, 4000);
    ctx.user_output.mint = key(MINT_A);
    assert_eq!(swap(&ctx, 100, 0), Err(AmmError::InvalidVault));
    let mut ctx = swap_a_to_b(1000, 4000);
    ctx.user_input.owner = key(99);
    assert_eq!(swap(&ctx, 100, 0), Err(AmmError::Unauthorized));
}

#[test]
fn error_messages_distinct() {
    let all = [
        AmmError::IdenticalMints,
        AmmError::InvalidMintOrder,
        AmmError::ZeroLiquidity,
        AmmError::InsufficientLiquidity,
        AmmError::SlippageExceeded,
        AmmError::MathOverflow,
        AmmError::InvalidVault,
        AmmError::InvalidLpMint,
        AmmError::PoolAlreadyExists,
        AmmError::Unauthorized,
        AmmError::PoolNotReady,
    ];
    for (i, a) in all.iter().enumerate() {
        for b in all.iter().skip(i + 1) {
            assert_ne!(a.message(), b.message());
        }
    }
    assert_eq!(AmmError::MathOverflow.message(), "Math operation overflow");
}

#[test]
fn add_liquidity_bootstrap_ignores_vault_balances() {
    let plan = add_liquidity(&add_ctx(5, 7, 0), 1000, 4000, 0).unwrap();
    assert_eq!(plan[2], Directive::MintTo { mint: key(LP_MINT), to: key(USER_LP), authority: key(POOL), amount: 2000 });
}

#[test]
fn fresh_pool_round_trip_through_instructions() {
    let plan = add_liquidity(&add_ctx(0, 0, 0), 1000, 4000, 0).unwrap();
    let lp = match plan[2] {
        Directive::MintTo { amount, .. } => amount,
        _ => panic!("expected a mint"),
    };
    let back = remove_liquidity(&remove_ctx(1000, 4000, lp), lp).unwrap();
    assert_eq!(back[1], Directive::Transfer { from: key(VAULT_A), to: key(USER_A), authority: key(POOL), amount: 1000 });
    assert_eq!(back[2], Directive::Transfer { from: key(VAULT_B), to: key(USER_B), authority: key(POOL), amount: 4000 });
}
