//! The accounting core of a constant-product market maker: checked fixed-point arithmetic,
//! swap pricing, liquidity minting and redemption, and the validation and planning of the
//! four pool operations. Every function is pure; token movements come out as directives
//! for a custody layer to carry out.
pub mod error;
pub mod instructions;
pub mod liquidity;
pub mod math;
pub mod state;

pub use error::AmmError;
pub use instructions::{
    add_liquidity, initialize_config, initialize_pool, remove_liquidity, swap, AddLiquidity, Directive,
    InitializeConfig, InitializePool, RemoveLiquidity, Swap,
};
pub use liquidity::{compute_mint_amount, compute_withdraw_amounts};
pub use math::{checked_mul_div, get_amount_out, integer_sqrt, quote};
pub use state::{Config, Key, Mint, Pool, TokenAccount, DEFAULT_FEE_BPS};
