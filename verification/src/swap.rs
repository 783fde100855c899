//! The liquidity pool: reserves of two tokens, shares of the providers, and
//! swaps priced by the constant-product rule.
//!
//! [`PoolState`] is the pool as a mathematical value and [`Market`] is the
//! pool together with the two ledgers it trades. The spec functions of
//! `Market` say what every operation does; [`SwapContract`] is the executable
//! pool, and each of its operations is proved to take the same step.

use crate::math::{amount_out, amount_out_result, fits_i128, floor_sqrt, is_floor_sqrt, lemma_amount_out_bounds, lemma_floor_sqrt_exists, lemma_redeem_bounds, lemma_round_trip};
use crate::sum::{amount_of, amounts, collect, credit, lemma_total_bounds, lemma_total_credit, lemma_total_empty, non_negative, recorded, total};
use crate::token::{TokenContract, TokenState};
use crate::types::{Address, Context, ContractError};
use std::collections::HashMap;
use vstd::prelude::*;

verus! {

broadcast use vstd::std_specs::hash::group_hash_axioms;

/// What `initialize` fixes for the life of the pool.
#[derive(Clone, Copy, Debug, PartialEq, Eq, Structural)]
pub struct PoolConfig {
    pub admin: Address,
    pub token_a: Address,
    pub token_b: Address,
}

/// The payload of a swap event.
#[derive(Clone, Copy, Debug, PartialEq, Eq, Structural)]
pub struct SwapEvent {
    pub user: Address,
    pub token_in: Address,
    pub token_out: Address,
    pub amount_in: i128,
    pub amount_out: i128,
}

/// The payload of an event on added or removed liquidity.
#[derive(Clone, Copy, Debug, PartialEq, Eq, Structural)]
pub struct LiquidityEvent {
    pub provider: Address,
    pub amount_a: i128,
    pub amount_b: i128,
    pub shares: i128,
}

/// What the pool reports of a completed operation.
#[derive(Clone, Copy, Debug, PartialEq, Eq, Structural)]
pub enum PoolEvent {
    Swap(SwapEvent),
    AddLiquidity(LiquidityEvent),
    RemoveLiquidity(LiquidityEvent),
}

/// The pool as a mathematical value.
pub struct PoolState {
    /// `None` until `initialize` has run.
    pub config: Option<PoolConfig>,
    /// The fee in basis points, taken from the input of every swap.
    pub fee_bps: u32,
    pub reserve_a: int,
    pub reserve_b: int,
    pub total_shares: int,
    /// The recorded shares. A provider without a record holds none.
    pub shares: Map<Address, int>,
    /// The events of all completed operations, oldest first.
    pub events: Seq<PoolEvent>,
}

impl PoolState {
    /// A pool that has never been touched.
    pub open spec fn empty() -> PoolState {
        PoolState {
            config: None,
            fee_bps: 30,
            reserve_a: 0,
            reserve_b: 0,
            total_shares: 0,
            shares: Map::empty(),
            events: Seq::empty(),
        }
    }

    /// The pool's invariant: no provider holds a negative number of shares,
    /// the total is the sum of what the providers hold, and the pool either
    /// is empty (no shares, no reserves) or is funded on both sides. In a
    /// funded pool no share computation divides by zero.
    pub open spec fn wf(self) -> bool {
        &&& self.shares.dom().finite()
        &&& non_negative(self.shares)
        &&& self.total_shares == total(self.shares)
        &&& 0 <= self.total_shares <= i128::MAX
        &&& 0 <= self.reserve_a <= i128::MAX
        &&& 0 <= self.reserve_b <= i128::MAX
        &&& self.total_shares == 0 ==> self.reserve_a == 0 && self.reserve_b == 0
        &&& self.total_shares > 0 ==> self.reserve_a > 0 && self.reserve_b > 0
        &&& self.config is None ==> self.total_shares == 0
    }

    /// The shares of `provider`.
    pub open spec fn shares_of(self, provider: Address) -> int {
        amount_of(self.shares, provider)
    }

    /// The pool that persisted records describe: `None` where the shares
    /// describe no record or the pool would break its invariant. No event
    /// is pending on it.
    pub open spec fn restored(
        config: Option<PoolConfig>,
        fee_bps: u32,
        reserve_a: i128,
        reserve_b: i128,
        shares: Seq<(Address, i128)>,
    ) -> Option<PoolState> {
        match recorded(shares) {
            None => None,
            Some(m) => {
                let pool = PoolState {
                    config,
                    fee_bps,
                    reserve_a: reserve_a as int,
                    reserve_b: reserve_b as int,
                    total_shares: total(m),
                    shares: m,
                    events: Seq::empty(),
                };
                if pool.wf() {
                    Some(pool)
                } else {
                    None
                }
            },
        }
    }

    /// `initialize`: fails once the pool is configured; else records the
    /// configuration and the fee, with reserves and shares at zero.
    pub open spec fn initialize(
        self,
        admin: Address,
        token_a: Address,
        token_b: Address,
        fee_bps: u32,
    ) -> Result<PoolState, ContractError> {
        if self.config is Some {
            Err(ContractError::AlreadyInitialized)
        } else {
            Ok(
                PoolState {
                    config: Some(PoolConfig { admin, token_a, token_b }),
                    fee_bps,
                    reserve_a: 0,
                    reserve_b: 0,
                    total_shares: 0,
                    ..self
                },
            )
        }
    }

    /// The shares that a deposit of `amount_a` and `amount_b` mints. The
    /// first deposit mints the integer square root of the product of the
    /// amounts. A later one mints in proportion to the scarcer side, each
    /// division rounding down.
    pub open spec fn shares_to_mint(self, amount_a: i128, amount_b: i128) -> Result<
        i128,
        ContractError,
    > {
        if self.total_shares == 0 {
            if !fits_i128(amount_a * amount_b) {
                Err(ContractError::ArithmeticOverflow)
            } else {
                Ok(floor_sqrt(amount_a * amount_b) as i128)
            }
        } else if !fits_i128(amount_a * self.total_shares) || !fits_i128(
            amount_b * self.total_shares,
        ) {
            Err(ContractError::ArithmeticOverflow)
        } else {
            let shares_a = amount_a * self.total_shares / self.reserve_a;
            let shares_b = amount_b * self.total_shares / self.reserve_b;
            Ok(
                (if shares_a <= shares_b {
                    shares_a
                } else {
                    shares_b
                }) as i128,
            )
        }
    }

    /// The amounts of the two tokens that `shares` redeem, each rounded
    /// down.
    pub open spec fn amounts_to_redeem(self, shares: i128) -> Result<(i128, i128), ContractError> {
        if !fits_i128(shares * self.reserve_a) || !fits_i128(shares * self.reserve_b) {
            Err(ContractError::ArithmeticOverflow)
        } else {
            Ok(
                (
                    (shares * self.reserve_a / self.total_shares) as i128,
                    (shares * self.reserve_b / self.total_shares) as i128,
                ),
            )
        }
    }

    /// The quote for `amount_in` of token A (`a_for_b`) or of token B: zero
    /// while a reserve is zero.
    pub open spec fn price(self, a_for_b: bool, amount_in: i128) -> Result<i128, ContractError> {
        if self.reserve_a == 0 || self.reserve_b == 0 {
            Ok(0)
        } else if a_for_b {
            amount_out_result(amount_in as int, self.reserve_a, self.reserve_b, self.fee_bps as int)
        } else {
            amount_out_result(amount_in as int, self.reserve_b, self.reserve_a, self.fee_bps as int)
        }
    }

    /// On a valid pool a deposit of positive amounts mints a number of
    /// shares that is not negative, and the first deposit mints at least
    /// one share: the integer square root of the product of the amounts.
    pub proof fn lemma_shares_to_mint(self, amount_a: i128, amount_b: i128)
        requires
            self.wf(),
            amount_a > 0,
            amount_b > 0,
        ensures
            self.shares_to_mint(amount_a, amount_b) matches Ok(shares) ==> {
                &&& 0 <= shares
                &&& self.total_shares == 0 ==> shares >= 1 && is_floor_sqrt(
                    shares as int,
                    amount_a * amount_b,
                )
                &&& self.total_shares > 0 ==> shares <= amount_a * self.total_shares
                    / self.reserve_a && shares <= amount_b * self.total_shares / self.reserve_b
            },
    {
        if self.total_shares == 0 {
            let product = amount_a * amount_b;
            assert(product >= 1) by (nonlinear_arith)
                requires
                    product == amount_a * amount_b,
                    amount_a > 0,
                    amount_b > 0,
            ;
            lemma_floor_sqrt_exists(product);
            let root = floor_sqrt(product);
            assert(root <= product && root >= 1) by (nonlinear_arith)
                requires
                    0 <= root,
                    root * root <= product < (root + 1) * (root + 1),
                    product >= 1,
            ;
        } else {
            let t = self.total_shares;
            lemma_quotient_bounds(amount_a * t, self.reserve_a);
            lemma_quotient_bounds(amount_b * t, self.reserve_b);
            assert(amount_a * t >= 0 && amount_b * t >= 0) by (nonlinear_arith)
                requires
                    amount_a > 0,
                    amount_b > 0,
                    t > 0,
            ;
        }
    }

    /// On a valid pool, redeeming shares that exist pays no more than the
    /// reserves hold and no more than the shares' part of each reserve. It
    /// leaves both reserves funded unless every share is redeemed, and then
    /// pays both reserves out in full.
    pub proof fn lemma_amounts_to_redeem(self, shares: i128)
        requires
            self.wf(),
            0 < shares <= self.total_shares,
        ensures
            self.amounts_to_redeem(shares) matches Ok((amount_a, amount_b)) ==> {
                &&& amount_a == shares * self.reserve_a / self.total_shares
                &&& amount_b == shares * self.reserve_b / self.total_shares
                &&& 0 <= amount_a <= self.reserve_a
                &&& 0 <= amount_b <= self.reserve_b
                &&& amount_a * self.total_shares <= shares * self.reserve_a
                &&& amount_b * self.total_shares <= shares * self.reserve_b
                &&& shares < self.total_shares ==> amount_a < self.reserve_a && amount_b
                    < self.reserve_b
                &&& shares == self.total_shares ==> amount_a == self.reserve_a && amount_b
                    == self.reserve_b
            },
    {
        lemma_redeem_bounds(shares as int, self.reserve_a, self.total_shares);
        lemma_redeem_bounds(shares as int, self.reserve_b, self.total_shares);
    }

    /// On a funded pool a quote for a positive input that succeeds is the
    /// constant-product quote, pays out less than the output reserve, and
    /// does not lower the product of the reserves.
    pub proof fn lemma_price(self, a_for_b: bool, amount_in: i128)
        requires
            self.wf(),
            amount_in > 0,
            self.reserve_a > 0,
            self.reserve_b > 0,
        ensures
            self.price(a_for_b, amount_in) matches Ok(out) ==> {
                let reserve_in = if a_for_b {
                    self.reserve_a
                } else {
                    self.reserve_b
                };
                let reserve_out = if a_for_b {
                    self.reserve_b
                } else {
                    self.reserve_a
                };
                &&& out == amount_out(amount_in as int, reserve_in, reserve_out, self.fee_bps as int)
                &&& 0 <= out < reserve_out
                &&& (reserve_in + amount_in) * (reserve_out - out) >= reserve_in * reserve_out
            },
    {
        if self.price(a_for_b, amount_in) is Ok {
            if a_for_b {
                lemma_amount_out_bounds(
                    amount_in as int,
                    self.reserve_a,
                    self.reserve_b,
                    self.fee_bps as int,
                );
            } else {
                lemma_amount_out_bounds(
                    amount_in as int,
                    self.reserve_b,
                    self.reserve_a,
                    self.fee_bps as int,
                );
            }
        }
    }
}

/// A quotient of a natural number by a positive one lies between zero and
/// the number.
proof fn lemma_quotient_bounds(n: int, d: int) by (nonlinear_arith)
    requires
        0 <= n,
        0 < d,
    ensures
        0 <= n / d <= n,
{
}

/// The pool together with the ledgers of its two tokens.
pub struct Market {
    pub pool: PoolState,
    pub token_a: TokenState,
    pub token_b: TokenState,
}

impl Market {
    /// The pool and both ledgers are valid.
    pub open spec fn wf(self) -> bool {
        self.pool.wf() && self.token_a.wf() && self.token_b.wf()
    }

    /// `add_liquidity`: the caller must be `provider` and both amounts
    /// positive. It computes the shares, fails where they are fewer than
    /// `min_shares`, pulls both amounts from the provider into the pool by
    /// `transfer_from` on token A, then on token B, and adds the amounts to
    /// the reserves and the shares to the provider and to the total.
    pub open spec fn add_liquidity(
        self,
        ctx: Context,
        provider: Address,
        amount_a: i128,
        amount_b: i128,
        min_shares: i128,
    ) -> Result<(Market, i128), ContractError> {
        let pool = self.pool;
        if ctx.caller != provider {
            Err(ContractError::Unauthorized)
        } else if amount_a <= 0 || amount_b <= 0 {
            Err(ContractError::NonPositiveAmount)
        } else if pool.config is None {
            Err(ContractError::NotInitialized)
        } else {
            match pool.shares_to_mint(amount_a, amount_b) {
                Err(e) => Err(e),
                Ok(shares) => if shares < min_shares {
                    Err(ContractError::InsufficientShares)
                } else {
                    match (
                        self.token_a.transfer_from(
                            nested(ctx, pool.config->Some_0.token_a),
                            ctx.contract,
                            provider,
                            ctx.contract,
                            amount_a,
                        ),
                        self.token_b.transfer_from(
                            nested(ctx, pool.config->Some_0.token_b),
                            ctx.contract,
                            provider,
                            ctx.contract,
                            amount_b,
                        ),
                    ) {
                        (Err(e), _) => Err(e),
                        (Ok(_), Err(e)) => Err(e),
                        (Ok(token_a), Ok(token_b)) => if !fits_i128(pool.reserve_a + amount_a)
                            || !fits_i128(pool.reserve_b + amount_b) || !fits_i128(
                            pool.total_shares + shares,
                        ) {
                            Err(ContractError::ArithmeticOverflow)
                        } else {
                            Ok(
                                (
                                    Market {
                                        pool: PoolState {
                                            reserve_a: pool.reserve_a + amount_a,
                                            reserve_b: pool.reserve_b + amount_b,
                                            total_shares: pool.total_shares + shares,
                                            shares: credit(pool.shares, provider, shares as int),
                                            events: pool.events.push(
                                                PoolEvent::AddLiquidity(
                                                    LiquidityEvent {
                                                        provider,
                                                        amount_a,
                                                        amount_b,
                                                        shares,
                                                    },
                                                ),
                                            ),
                                            ..pool
                                        },
                                        token_a,
                                        token_b,
                                    },
                                    shares,
                                ),
                            )
                        },
                    }
                },
            }
        }
    }

    /// `remove_liquidity`: the caller must be `provider`, the shares
    /// positive and held by the provider. It computes the two amounts, fails
    /// where one is below its minimum, takes the amounts off the reserves
    /// and the shares off the provider and the total, and pays the provider
    /// by `transfer` on token A, then on token B.
    pub open spec fn remove_liquidity(
        self,
        ctx: Context,
        provider: Address,
        shares: i128,
        min_amount_a: i128,
        min_amount_b: i128,
    ) -> Result<(Market, (i128, i128)), ContractError> {
        let pool = self.pool;
        if ctx.caller != provider {
            Err(ContractError::Unauthorized)
        } else if shares <= 0 {
            Err(ContractError::NonPositiveAmount)
        } else if pool.shares_of(provider) < shares {
            Err(ContractError::InsufficientShareBalance)
        } else if pool.config is None {
            Err(ContractError::NotInitialized)
        } else {
            match pool.amounts_to_redeem(shares) {
                Err(e) => Err(e),
                Ok((amount_a, amount_b)) => if amount_a < min_amount_a || amount_b < min_amount_b {
                    Err(ContractError::SlippageExceeded)
                } else {
                    match (
                        self.token_a.transfer(
                            nested(ctx, pool.config->Some_0.token_a),
                            ctx.contract,
                            provider,
                            amount_a,
                        ),
                        self.token_b.transfer(
                            nested(ctx, pool.config->Some_0.token_b),
                            ctx.contract,
                            provider,
                            amount_b,
                        ),
                    ) {
                        (Err(e), _) => Err(e),
                        (Ok(_), Err(e)) => Err(e),
                        (Ok(token_a), Ok(token_b)) => Ok(
                            (
                                Market {
                                    pool: PoolState {
                                        reserve_a: pool.reserve_a - amount_a,
                                        reserve_b: pool.reserve_b - amount_b,
                                        total_shares: pool.total_shares - shares,
                                        shares: credit(pool.shares, provider, -(shares as int)),
                                        events: pool.events.push(
                                            PoolEvent::RemoveLiquidity(
                                                LiquidityEvent {
                                                    provider,
                                                    amount_a,
                                                    amount_b,
                                                    shares,
                                                },
                                            ),
                                        ),
                                        ..pool
                                    },
                                    token_a,
                                    token_b,
                                },
                                (amount_a, amount_b),
                            ),
                        ),
                    }
                },
            }
        }
    }

    /// `swap_a_for_b`: the caller must be `user` and `amount_in` positive;
    /// it fails with `PoolEmpty` while a reserve is zero. It quotes the
    /// output, fails where that is below `min_amount_out`, pulls the input
    /// from the user by `transfer_from` on token A, adds it to reserve A and
    /// takes the output off reserve B, and pays the user by `transfer` on
    /// token B.
    pub open spec fn swap_a_for_b(
        self,
        ctx: Context,
        user: Address,
        amount_in: i128,
        min_amount_out: i128,
    ) -> Result<(Market, i128), ContractError> {
        let pool = self.pool;
        if ctx.caller != user {
            Err(ContractError::Unauthorized)
        } else if amount_in <= 0 {
            Err(ContractError::NonPositiveAmount)
        } else if pool.config is None {
            Err(ContractError::NotInitialized)
        } else if pool.reserve_a == 0 || pool.reserve_b == 0 {
            Err(ContractError::PoolEmpty)
        } else {
            match pool.price(true, amount_in) {
                Err(e) => Err(e),
                Ok(out) => if out < min_amount_out {
                    Err(ContractError::SlippageExceeded)
                } else {
                    match self.token_a.transfer_from(
                        nested(ctx, pool.config->Some_0.token_a),
                        ctx.contract,
                        user,
                        ctx.contract,
                        amount_in,
                    ) {
                        Err(e) => Err(e),
                        Ok(token_a) => if !fits_i128(pool.reserve_a + amount_in) {
                            Err(ContractError::ArithmeticOverflow)
                        } else {
                            match self.token_b.transfer(
                                nested(ctx, pool.config->Some_0.token_b),
                                ctx.contract,
                                user,
                                out,
                            ) {
                                Err(e) => Err(e),
                                Ok(token_b) => Ok(
                                    (
                                        Market {
                                            pool: PoolState {
                                                reserve_a: pool.reserve_a + amount_in,
                                                reserve_b: pool.reserve_b - out,
                                                events: pool.events.push(
                                                    PoolEvent::Swap(
                                                        SwapEvent {
                                                            user,
                                                            token_in: pool.config->Some_0.token_a,
                                                            token_out: pool.config->Some_0.token_b,
                                                            amount_in,
                                                            amount_out: out,
                                                        },
                                                    ),
                                                ),
                                                ..pool
                                            },
                                            token_a,
                                            token_b,
                                        },
                                        out,
                                    ),
                                ),
                            }
                        },
                    }
                },
            }
        }
    }

    /// `swap_b_for_a`: as `swap_a_for_b`, with the two tokens and the two
    /// reserves in each other's place.
    pub open spec fn swap_b_for_a(
        self,
        ctx: Context,
        user: Address,
        amount_in: i128,
        min_amount_out: i128,
    ) -> Result<(Market, i128), ContractError> {
        match self.mirror().swap_a_for_b(ctx, user, amount_in, min_amount_out) {
            Err(e) => Err(e),
            Ok((next, out)) => Ok((next.mirror(), out)),
        }
    }

    /// The same market with token A and token B in each other's place.
    pub open spec fn mirror(self) -> Market {
        Market {
            pool: PoolState {
                config: match self.pool.config {
                    Some(c) => Some(
                        PoolConfig { admin: c.admin, token_a: c.token_b, token_b: c.token_a },
                    ),
                    None => None,
                },
                reserve_a: self.pool.reserve_b,
                reserve_b: self.pool.reserve_a,
                ..self.pool
            },
            token_a: self.token_b,
            token_b: self.token_a,
        }
    }
    /// Every operation that completes on a valid market leaves a valid
    /// market: in the pool the total of the shares is still the sum of what
    /// the providers hold, and in each ledger the total supply is still the
    /// sum of the balances.
    pub proof fn lemma_steps_preserve_wf(
        self,
        ctx: Context,
        who: Address,
        x: i128,
        y: i128,
        z: i128,
    )
        requires
            self.wf(),
        ensures
            self.add_liquidity(ctx, who, x, y, z) matches Ok((next, _)) ==> next.wf(),
            self.remove_liquidity(ctx, who, x, y, z) matches Ok((next, _)) ==> next.wf(),
            self.swap_a_for_b(ctx, who, x, y) matches Ok((next, _)) ==> next.wf(),
            self.swap_b_for_a(ctx, who, x, y) matches Ok((next, _)) ==> next.wf(),
    {
        self.lemma_add_liquidity_preserves_wf(ctx, who, x, y, z);
        self.lemma_remove_liquidity_preserves_wf(ctx, who, x, y, z);
        self.lemma_swap_preserves_wf(ctx, who, x, y);
        self.mirror().lemma_swap_preserves_wf(ctx, who, x, y);
    }

    proof fn lemma_add_liquidity_preserves_wf(
        self,
        ctx: Context,
        provider: Address,
        amount_a: i128,
        amount_b: i128,
        min_shares: i128,
    )
        requires
            self.wf(),
        ensures
            self.add_liquidity(ctx, provider, amount_a, amount_b, min_shares) matches Ok((next, _))
                ==> next.wf(),
    {
        if self.add_liquidity(ctx, provider, amount_a, amount_b, min_shares) is Ok {
            let pool = self.pool;
            let config = pool.config->Some_0;
            let shares = pool.shares_to_mint(amount_a, amount_b)->Ok_0;
            pool.lemma_shares_to_mint(amount_a, amount_b);
            self.token_a.lemma_steps_preserve_wf(
                nested(ctx, config.token_a),
                ctx.contract,
                provider,
                ctx.contract,
                amount_a,
                0,
                0,
                Seq::empty(),
                Seq::empty(),
            );
            self.token_b.lemma_steps_preserve_wf(
                nested(ctx, config.token_b),
                ctx.contract,
                provider,
                ctx.contract,
                amount_b,
                0,
                0,
                Seq::empty(),
                Seq::empty(),
            );
            lemma_total_credit(pool.shares, provider, shares as int);
            lemma_total_bounds(pool.shares, provider);
        }
    }

    proof fn lemma_remove_liquidity_preserves_wf(
        self,
        ctx: Context,
        provider: Address,
        shares: i128,
        min_amount_a: i128,
        min_amount_b: i128,
    )
        requires
            self.wf(),
        ensures
            self.remove_liquidity(ctx, provider, shares, min_amount_a, min_amount_b) matches Ok(
                (next, _),
            ) ==> next.wf(),
    {
        if self.remove_liquidity(ctx, provider, shares, min_amount_a, min_amount_b) is Ok {
            let pool = self.pool;
            let config = pool.config->Some_0;
            let (amount_a, amount_b) = pool.amounts_to_redeem(shares)->Ok_0;
            lemma_total_bounds(pool.shares, provider);
            pool.lemma_amounts_to_redeem(shares);
            self.token_a.lemma_steps_preserve_wf(
                nested(ctx, config.token_a),
                ctx.contract,
                provider,
                provider,
                amount_a,
                0,
                0,
                Seq::empty(),
                Seq::empty(),
            );
            self.token_b.lemma_steps_preserve_wf(
                nested(ctx, config.token_b),
                ctx.contract,
                provider,
                provider,
                amount_b,
                0,
                0,
                Seq::empty(),
                Seq::empty(),
            );
            lemma_total_credit(pool.shares, provider, -(shares as int));
        }
    }

    proof fn lemma_swap_preserves_wf(self, ctx: Context, user: Address, amount_in: i128, min_amount_out: i128)
        requires
            self.wf(),
        ensures
            self.swap_a_for_b(ctx, user, amount_in, min_amount_out) matches Ok((next, _))
                ==> next.wf() && next.mirror().wf(),
    {
        if self.swap_a_for_b(ctx, user, amount_in, min_amount_out) is Ok {
            let pool = self.pool;
            let config = pool.config->Some_0;
            let out = pool.price(true, amount_in)->Ok_0;
            pool.lemma_price(true, amount_in);
            self.token_a.lemma_steps_preserve_wf(
                nested(ctx, config.token_a),
                ctx.contract,
                user,
                ctx.contract,
                amount_in,
                0,
                0,
                Seq::empty(),
                Seq::empty(),
            );
            self.token_b.lemma_steps_preserve_wf(
                nested(ctx, config.token_b),
                ctx.contract,
                user,
                user,
                out,
                0,
                0,
                Seq::empty(),
                Seq::empty(),
            );
        }
    }

    /// A swap that completes does not lower the product of the reserves: the
    /// fee stays in the pool.
    pub proof fn lemma_swap_keeps_product(
        self,
        ctx: Context,
        user: Address,
        amount_in: i128,
        min_amount_out: i128,
    )
        requires
            self.wf(),
        ensures
            self.swap_a_for_b(ctx, user, amount_in, min_amount_out) matches Ok((next, _))
                ==> next.pool.reserve_a * next.pool.reserve_b >= self.pool.reserve_a
                * self.pool.reserve_b,
            self.swap_b_for_a(ctx, user, amount_in, min_amount_out) matches Ok((next, _))
                ==> next.pool.reserve_a * next.pool.reserve_b >= self.pool.reserve_a
                * self.pool.reserve_b,
    {
        let (a, b) = (self.pool.reserve_a, self.pool.reserve_b);
        if self.swap_a_for_b(ctx, user, amount_in, min_amount_out) is Ok {
            self.pool.lemma_price(true, amount_in);
        }
        if self.swap_b_for_a(ctx, user, amount_in, min_amount_out) is Ok {
            self.pool.lemma_price(false, amount_in);
            let next = self.swap_b_for_a(ctx, user, amount_in, min_amount_out)->Ok_0.0;
            let (na, nb) = (next.pool.reserve_a, next.pool.reserve_b);
            assert(na * nb >= a * b) by (nonlinear_arith)
                requires
                    nb * na >= b * a,
            ;
        }
    }

    /// A provider who adds liquidity and at once removes all the shares that
    /// the deposit minted gets back no more than was deposited.
    pub proof fn lemma_add_then_remove(
        self,
        ctx: Context,
        provider: Address,
        amount_a: i128,
        amount_b: i128,
        min_shares: i128,
        later: Context,
        min_amount_a: i128,
        min_amount_b: i128,
    )
        requires
            self.wf(),
        ensures
            self.add_liquidity(ctx, provider, amount_a, amount_b, min_shares) matches Ok(
                (funded, shares),
            ) ==> (funded.remove_liquidity(later, provider, shares, min_amount_a, min_amount_b)
                matches Ok((_, (back_a, back_b))) ==> back_a <= amount_a && back_b <= amount_b),
    {
        if self.add_liquidity(ctx, provider, amount_a, amount_b, min_shares) is Ok {
            let (funded, shares) = self.add_liquidity(
                ctx,
                provider,
                amount_a,
                amount_b,
                min_shares,
            )->Ok_0;
            if funded.remove_liquidity(later, provider, shares, min_amount_a, min_amount_b) is Ok {
                let pool = self.pool;
                self.lemma_add_liquidity_preserves_wf(ctx, provider, amount_a, amount_b, min_shares);
                pool.lemma_shares_to_mint(amount_a, amount_b);
                funded.pool.lemma_amounts_to_redeem(shares);
                if pool.total_shares > 0 {
                    lemma_round_trip(
                        amount_a as int,
                        pool.reserve_a,
                        pool.total_shares,
                        shares as int,
                    );
                    lemma_round_trip(
                        amount_b as int,
                        pool.reserve_b,
                        pool.total_shares,
                        shares as int,
                    );
                }
            }
        }
    }

    /// What the ledger of token A holds for the identity `pool` beyond
    /// reserve A.
    pub open spec fn surplus_a(self, pool: Address) -> int {
        self.token_a.balance(pool) - self.pool.reserve_a
    }

    /// What the ledger of token B holds for the identity `pool` beyond
    /// reserve B.
    pub open spec fn surplus_b(self, pool: Address) -> int {
        self.token_b.balance(pool) - self.pool.reserve_b
    }

    /// The reserves follow the ledgers: an operation that completes for
    /// someone other than the pool itself changes each reserve by exactly
    /// what it moves into or out of the pool's balance on that ledger.
    pub proof fn lemma_reserves_follow_ledgers(
        self,
        ctx: Context,
        who: Address,
        x: i128,
        y: i128,
        z: i128,
    )
        requires
            self.wf(),
            who != ctx.contract,
        ensures
            self.add_liquidity(ctx, who, x, y, z) matches Ok((next, _)) ==> next.surplus_a(
                ctx.contract,
            ) == self.surplus_a(ctx.contract) && next.surplus_b(ctx.contract) == self.surplus_b(
                ctx.contract,
            ),
            self.remove_liquidity(ctx, who, x, y, z) matches Ok((next, _)) ==> next.surplus_a(
                ctx.contract,
            ) == self.surplus_a(ctx.contract) && next.surplus_b(ctx.contract) == self.surplus_b(
                ctx.contract,
            ),
            self.swap_a_for_b(ctx, who, x, y) matches Ok((next, _)) ==> next.surplus_a(
                ctx.contract,
            ) == self.surplus_a(ctx.contract) && next.surplus_b(ctx.contract) == self.surplus_b(
                ctx.contract,
            ),
            self.swap_b_for_a(ctx, who, x, y) matches Ok((next, _)) ==> next.surplus_a(
                ctx.contract,
            ) == self.surplus_a(ctx.contract) && next.surplus_b(ctx.contract) == self.surplus_b(
                ctx.contract,
            ),
    {
        if self.remove_liquidity(ctx, who, x, y, z) is Ok {
            lemma_total_bounds(self.pool.shares, who);
            self.pool.lemma_amounts_to_redeem(x);
        }
        if self.swap_a_for_b(ctx, who, x, y) is Ok {
            self.pool.lemma_price(true, x);
        }
        if self.swap_b_for_a(ctx, who, x, y) is Ok {
            self.pool.lemma_price(false, x);
        }
    }

    /// A swap on a pool with a zero reserve fails with `PoolEmpty`, whatever
    /// the amounts, once the caller is the user, the input is positive and
    /// the pool is configured.
    pub proof fn lemma_swap_on_empty_pool(
        self,
        ctx: Context,
        user: Address,
        amount_in: i128,
        min_amount_out: i128,
    )
        requires
            self.pool.reserve_a == 0 || self.pool.reserve_b == 0,
            ctx.caller == user,
            amount_in > 0,
            self.pool.config is Some,
        ensures
            self.swap_a_for_b(ctx, user, amount_in, min_amount_out) == Err::<
                (Market, i128),
                ContractError,
            >(ContractError::PoolEmpty),
            self.swap_b_for_a(ctx, user, amount_in, min_amount_out) == Err::<
                (Market, i128),
                ContractError,
            >(ContractError::PoolEmpty),
    {
    }
}

/// The context in which the pool, invoked under `ctx`, calls the ledger at
/// `token`: the pool itself is the caller.
pub open spec fn nested(ctx: Context, token: Address) -> Context {
    Context { caller: ctx.contract, contract: token, sequence: ctx.sequence }
}

/// A constant-product pool over two token ledgers.
pub struct SwapContract {
    config: Option<PoolConfig>,
    fee_bps: u32,
    reserve_a: i128,
    reserve_b: i128,
    total_shares: i128,
    shares: HashMap<Address, i128>,
    events: Vec<PoolEvent>,
}

impl View for SwapContract {
    type V = PoolState;

    closed spec fn view(&self) -> PoolState {
        PoolState {
            config: self.config,
            fee_bps: self.fee_bps,
            reserve_a: self.reserve_a as int,
            reserve_b: self.reserve_b as int,
            total_shares: self.total_shares as int,
            shares: amounts(self.shares@),
            events: self.events@,
        }
    }
}

impl SwapContract {
    /// A pool that has never been touched: not configured, a fee of 30
    /// basis points, no reserves and no shares.
    pub fn new() -> (r: SwapContract)
        ensures
            r@ == PoolState::empty(),
            r@.wf(),
    {
        let r = SwapContract {
            config: None,
            fee_bps: 30,
            reserve_a: 0,
            reserve_b: 0,
            total_shares: 0,
            shares: HashMap::new(),
            events: Vec::new(),
        };
        proof {
            lemma_total_empty();
            assert(r@.shares =~= Map::<Address, int>::empty());
            assert(r@.events =~= Seq::<PoolEvent>::empty());
        }
        r
    }

    /// Rebuilds a pool from persisted records: its configuration, its fee,
    /// its reserves and the shares per provider. The total of the shares is
    /// the sum of what the providers hold.
    pub fn restore(
        config: Option<PoolConfig>,
        fee_bps: u32,
        reserve_a: i128,
        reserve_b: i128,
        shares: &Vec<(Address, i128)>,
    ) -> (r: Option<SwapContract>)
        ensures
            match PoolState::restored(config, fee_bps, reserve_a, reserve_b, shares@) {
                Some(state) => r matches Some(pool) && pool@ == state && state.wf(),
                None => r is None,
            },
    {
        let (stored, total_shares): (HashMap<Address, i128>, i128) = match collect(shares) {
            Some(v) => v,
            None => {
                return None;
            },
        };
        proof {
            lemma_total_bounds(amounts(stored@), 0);
        }
        if reserve_a < 0 || reserve_b < 0 {
            return None;
        }
        if total_shares == 0 && (reserve_a != 0 || reserve_b != 0) {
            return None;
        }
        if total_shares > 0 && (reserve_a == 0 || reserve_b == 0) {
            return None;
        }
        if config.is_none() && total_shares != 0 {
            return None;
        }
        let pool = SwapContract {
            config,
            fee_bps,
            reserve_a,
            reserve_b,
            total_shares,
            shares: stored,
            events: Vec::new(),
        };
        proof {
            assert(pool@.events =~= Seq::<PoolEvent>::empty());
        }
        Some(pool)
    }

    /// Configures the pool with its admin, its two tokens and its fee, once.
    pub fn initialize(
        &mut self,
        admin: Address,
        token_a: Address,
        token_b: Address,
        fee_bps: u32,
    ) -> (r: Result<(), ContractError>)
        requires
            old(self)@.wf(),
        ensures
            final(self)@.wf(),
            match old(self)@.initialize(admin, token_a, token_b, fee_bps) {
                Ok(next) => r is Ok && final(self)@ == next,
                Err(e) => r == Err::<(), ContractError>(e) && final(self)@ == old(self)@,
            },
    {
        if self.config.is_some() {
            return Err(ContractError::AlreadyInitialized);
        }
        self.config = Some(PoolConfig { admin, token_a, token_b });
        self.reserve_a = 0;
        self.reserve_b = 0;
        self.total_shares = 0;
        self.fee_bps = fee_bps;
        Ok(())
    }

    /// The shares that a deposit mints.
    fn shares_to_mint(&self, amount_a: i128, amount_b: i128) -> (r: Result<i128, ContractError>)
        requires
            self@.wf(),
            amount_a > 0,
            amount_b > 0,
        ensures
            r == self@.shares_to_mint(amount_a, amount_b),
    {
        proof {
            self@.lemma_shares_to_mint(amount_a, amount_b);
        }
        if self.total_shares == 0 {
            match amount_a.checked_mul(amount_b) {
                Some(product) => Self::sqrt(product),
                None => Err(ContractError::ArithmeticOverflow),
            }
        } else {
            let scaled_a: i128 = match amount_a.checked_mul(self.total_shares) {
                Some(v) => v,
                None => {
                    return Err(ContractError::ArithmeticOverflow);
                },
            };
            let scaled_b: i128 = match amount_b.checked_mul(self.total_shares) {
                Some(v) => v,
                None => {
                    return Err(ContractError::ArithmeticOverflow);
                },
            };
            proof {
                lemma_quotient_bounds(scaled_a as int, self.reserve_a as int);
                lemma_quotient_bounds(scaled_b as int, self.reserve_b as int);
            }
            let shares_a: i128 = scaled_a / self.reserve_a;
            let shares_b: i128 = scaled_b / self.reserve_b;
            if shares_a <= shares_b {
                Ok(shares_a)
            } else {
                Ok(shares_b)
            }
        }
    }

    /// The amounts that `shares` redeem.
    fn amounts_to_redeem(&self, shares: i128) -> (r: Result<(i128, i128), ContractError>)
        requires
            self@.wf(),
            0 < shares <= self@.total_shares,
        ensures
            r == self@.amounts_to_redeem(shares),
    {
        proof {
            self@.lemma_amounts_to_redeem(shares);
        }
        let scaled_a: i128 = match shares.checked_mul(self.reserve_a) {
            Some(v) => v,
            None => {
                return Err(ContractError::ArithmeticOverflow);
            },
        };
        let scaled_b: i128 = match shares.checked_mul(self.reserve_b) {
            Some(v) => v,
            None => {
                return Err(ContractError::ArithmeticOverflow);
            },
        };
        proof {
            lemma_quotient_bounds(scaled_a as int, self.total_shares as int);
            lemma_quotient_bounds(scaled_b as int, self.total_shares as int);
        }
        Ok((scaled_a / self.total_shares, scaled_b / self.total_shares))
    }

    /// Adds `delta` to the recorded shares of `provider`.
    fn credit_shares(&mut self, provider: Address, delta: i128)
        requires
            i128::MIN <= old(self)@.shares_of(provider) + delta <= i128::MAX,
        ensures
            final(self)@ == (PoolState {
                shares: credit(old(self)@.shares, provider, delta as int),
                ..old(self)@
            }),
    {
        let held: i128 = self.get_shares(provider);
        self.shares.insert(provider, held + delta);
        assert(self@.shares =~= credit(old(self)@.shares, provider, delta as int));
    }

    /// Deposits `amount_a` of token A and `amount_b` of token B for
    /// `provider` and returns the shares minted. The pool needs an allowance
    /// from the provider on both ledgers.
    pub fn add_liquidity(
        &mut self,
        ctx: &Context,
        token_a: &mut TokenContract,
        token_b: &mut TokenContract,
        provider: Address,
        amount_a: i128,
        amount_b: i128,
        min_shares: i128,
    ) -> (r: Result<i128, ContractError>)
        requires
            old(self)@.wf(),
            old(token_a)@.wf(),
            old(token_b)@.wf(),
        ensures
            final(self)@.wf(),
            final(token_a)@.wf(),
            final(token_b)@.wf(),
            match (Market {
                pool: old(self)@,
                token_a: old(token_a)@,
                token_b: old(token_b)@,
            }).add_liquidity(*ctx, provider, amount_a, amount_b, min_shares) {
                Ok((next, shares)) => r == Ok::<i128, ContractError>(shares) && (Market {
                    pool: final(self)@,
                    token_a: final(token_a)@,
                    token_b: final(token_b)@,
                }) == next,
                Err(e) => r == Err::<i128, ContractError>(e) && final(self)@ == old(self)@
                    && final(token_a)@ == old(token_a)@ && final(token_b)@ == old(token_b)@,
            },
    {
        let ghost before = Market { pool: self@, token_a: token_a@, token_b: token_b@ };
        if ctx.caller != provider {
            return Err(ContractError::Unauthorized);
        }
        if amount_a <= 0 || amount_b <= 0 {
            return Err(ContractError::NonPositiveAmount);
        }
        let config: PoolConfig = match self.config {
            Some(c) => c,
            None => {
                return Err(ContractError::NotInitialized);
            },
        };
        let shares: i128 = match self.shares_to_mint(amount_a, amount_b) {
            Ok(v) => v,
            Err(e) => {
                return Err(e);
            },
        };
        if shares < min_shares {
            return Err(ContractError::InsufficientShares);
        }
        let pool: Address = ctx.contract;
        let ctx_a = Context { caller: pool, contract: config.token_a, sequence: ctx.sequence };
        let ctx_b = Context { caller: pool, contract: config.token_b, sequence: ctx.sequence };
        match token_a.check_transfer_from(&ctx_a, pool, provider, pool, amount_a) {
            Ok(()) => {},
            Err(e) => {
                return Err(e);
            },
        }
        match token_b.check_transfer_from(&ctx_b, pool, provider, pool, amount_b) {
            Ok(()) => {},
            Err(e) => {
                return Err(e);
            },
        }
        let reserve_a: i128 = match self.reserve_a.checked_add(amount_a) {
            Some(v) => v,
            None => {
                return Err(ContractError::ArithmeticOverflow);
            },
        };
        let reserve_b: i128 = match self.reserve_b.checked_add(amount_b) {
            Some(v) => v,
            None => {
                return Err(ContractError::ArithmeticOverflow);
            },
        };
        let total_shares: i128 = match self.total_shares.checked_add(shares) {
            Some(v) => v,
            None => {
                return Err(ContractError::ArithmeticOverflow);
            },
        };
        proof {
            before.lemma_steps_preserve_wf(*ctx, provider, amount_a, amount_b, min_shares);
            before.pool.lemma_shares_to_mint(amount_a, amount_b);
            lemma_total_bounds(before.pool.shares, provider);
        }
        let _ = token_a.transfer_from(&ctx_a, pool, provider, pool, amount_a);
        let _ = token_b.transfer_from(&ctx_b, pool, provider, pool, amount_b);
        self.reserve_a = reserve_a;
        self.reserve_b = reserve_b;
        self.total_shares = total_shares;
        self.credit_shares(provider, shares);
        self.events.push(
            PoolEvent::AddLiquidity(LiquidityEvent { provider, amount_a, amount_b, shares }),
        );
        Ok(shares)
    }

    /// Redeems `shares` of `provider` and returns the amounts of token A and
    /// token B paid out.
    pub fn remove_liquidity(
        &mut self,
        ctx: &Context,
        token_a: &mut TokenContract,
        token_b: &mut TokenContract,
        provider: Address,
        shares: i128,
        min_amount_a: i128,
        min_amount_b: i128,
    ) -> (r: Result<(i128, i128), ContractError>)
        requires
            old(self)@.wf(),
            old(token_a)@.wf(),
            old(token_b)@.wf(),
        ensures
            final(self)@.wf(),
            final(token_a)@.wf(),
            final(token_b)@.wf(),
            match (Market {
                pool: old(self)@,
                token_a: old(token_a)@,
                token_b: old(token_b)@,
            }).remove_liquidity(*ctx, provider, shares, min_amount_a, min_amount_b) {
                Ok((next, amounts)) => r == Ok::<(i128, i128), ContractError>(amounts) && (Market {
                    pool: final(self)@,
                    token_a: final(token_a)@,
                    token_b: final(token_b)@,
                }) == next,
                Err(e) => r == Err::<(i128, i128), ContractError>(e) && final(self)@ == old(self)@
                    && final(token_a)@ == old(token_a)@ && final(token_b)@ == old(token_b)@,
            },
    {
        let ghost before = Market { pool: self@, token_a: token_a@, token_b: token_b@ };
        if ctx.caller != provider {
            return Err(ContractError::Unauthorized);
        }
        if shares <= 0 {
            return Err(ContractError::NonPositiveAmount);
        }
        if self.get_shares(provider) < shares {
            return Err(ContractError::InsufficientShareBalance);
        }
        let config: PoolConfig = match self.config {
            Some(c) => c,
            None => {
                return Err(ContractError::NotInitialized);
            },
        };
        proof {
            lemma_total_bounds(before.pool.shares, provider);
        }
        let (amount_a, amount_b): (i128, i128) = match self.amounts_to_redeem(shares) {
            Ok(v) => v,
            Err(e) => {
                return Err(e);
            },
        };
        if amount_a < min_amount_a || amount_b < min_amount_b {
            return Err(ContractError::SlippageExceeded);
        }
        let pool: Address = ctx.contract;
        let ctx_a = Context { caller: pool, contract: config.token_a, sequence: ctx.sequence };
        let ctx_b = Context { caller: pool, contract: config.token_b, sequence: ctx.sequence };
        match token_a.check_transfer(&ctx_a, pool, provider, amount_a) {
            Ok(()) => {},
            Err(e) => {
                return Err(e);
            },
        }
        match token_b.check_transfer(&ctx_b, pool, provider, amount_b) {
            Ok(()) => {},
            Err(e) => {
                return Err(e);
            },
        }
        proof {
            before.lemma_steps_preserve_wf(*ctx, provider, shares, min_amount_a, min_amount_b);
            before.pool.lemma_amounts_to_redeem(shares);
        }
        self.reserve_a = self.reserve_a - amount_a;
        self.reserve_b = self.reserve_b - amount_b;
        self.total_shares = self.total_shares - shares;
        self.credit_shares(provider, -shares);
        let _ = token_a.transfer(&ctx_a, pool, provider, amount_a);
        let _ = token_b.transfer(&ctx_b, pool, provider, amount_b);
        self.events.push(
            PoolEvent::RemoveLiquidity(LiquidityEvent { provider, amount_a, amount_b, shares }),
        );
        Ok((amount_a, amount_b))
    }

    /// Swaps `amount_in` of token A for token B and returns the amount of
    /// token B paid out. The pool needs an allowance from the user on the
    /// ledger of token A.
    pub fn swap_a_for_b(
        &mut self,
        ctx: &Context,
        token_a: &mut TokenContract,
        token_b: &mut TokenContract,
        user: Address,
        amount_in: i128,
        min_amount_out: i128,
    ) -> (r: Result<i128, ContractError>)
        requires
            old(self)@.wf(),
            old(token_a)@.wf(),
            old(token_b)@.wf(),
        ensures
            final(self)@.wf(),
            final(token_a)@.wf(),
            final(token_b)@.wf(),
            match (Market {
                pool: old(self)@,
                token_a: old(token_a)@,
                token_b: old(token_b)@,
            }).swap_a_for_b(*ctx, user, amount_in, min_amount_out) {
                Ok((next, out)) => r == Ok::<i128, ContractError>(out) && (Market {
                    pool: final(self)@,
                    token_a: final(token_a)@,
                    token_b: final(token_b)@,
                }) == next,
                Err(e) => r == Err::<i128, ContractError>(e) && final(self)@ == old(self)@
                    && final(token_a)@ == old(token_a)@ && final(token_b)@ == old(token_b)@,
            },
            r is Ok ==> final(self)@.reserve_a * final(self)@.reserve_b >= old(self)@.reserve_a
                * old(self)@.reserve_b,
    {
        proof {
            (Market { pool: self@, token_a: token_a@, token_b: token_b@ }).lemma_swap_keeps_product(
                *ctx,
                user,
                amount_in,
                min_amount_out,
            );
        }
        self.swap(ctx, true, token_a, token_b, user, amount_in, min_amount_out)
    }

    /// Swaps `amount_in` of token B for token A and returns the amount of
    /// token A paid out. The pool needs an allowance from the user on the
    /// ledger of token B.
    pub fn swap_b_for_a(
        &mut self,
        ctx: &Context,
        token_a: &mut TokenContract,
        token_b: &mut TokenContract,
        user: Address,
        amount_in: i128,
        min_amount_out: i128,
    ) -> (r: Result<i128, ContractError>)
        requires
            old(self)@.wf(),
            old(token_a)@.wf(),
            old(token_b)@.wf(),
        ensures
            final(self)@.wf(),
            final(token_a)@.wf(),
            final(token_b)@.wf(),
            match (Market {
                pool: old(self)@,
                token_a: old(token_a)@,
                token_b: old(token_b)@,
            }).swap_b_for_a(*ctx, user, amount_in, min_amount_out) {
                Ok((next, out)) => r == Ok::<i128, ContractError>(out) && (Market {
                    pool: final(self)@,
                    token_a: final(token_a)@,
                    token_b: final(token_b)@,
                }) == next,
                Err(e) => r == Err::<i128, ContractError>(e) && final(self)@ == old(self)@
                    && final(token_a)@ == old(token_a)@ && final(token_b)@ == old(token_b)@,
            },
            r is Ok ==> final(self)@.reserve_a * final(self)@.reserve_b >= old(self)@.reserve_a
                * old(self)@.reserve_b,
    {
        proof {
            (Market { pool: self@, token_a: token_a@, token_b: token_b@ }).lemma_swap_keeps_product(
                *ctx,
                user,
                amount_in,
                min_amount_out,
            );
        }
        self.swap(ctx, false, token_b, token_a, user, amount_in, min_amount_out)
    }

    /// A swap in either direction: of token A for token B where `a_for_b`,
    /// else of token B for token A. `token_in` is the ledger of the token
    /// that the user pays, `token_out` that of the token that the pool pays.
    fn swap(
        &mut self,
        ctx: &Context,
        a_for_b: bool,
        token_in: &mut TokenContract,
        token_out: &mut TokenContract,
        user: Address,
        amount_in: i128,
        min_amount_out: i128,
    ) -> (r: Result<i128, ContractError>)
        requires
            old(self)@.wf(),
            old(token_in)@.wf(),
            old(token_out)@.wf(),
        ensures
            final(self)@.wf(),
            final(token_in)@.wf(),
            final(token_out)@.wf(),
            match oriented(a_for_b, old(self)@, old(token_in)@, old(token_out)@).swap_a_for_b(
                *ctx,
                user,
                amount_in,
                min_amount_out,
            ) {
                Ok((next, out)) => r == Ok::<i128, ContractError>(out) && oriented(
                    a_for_b,
                    final(self)@,
                    final(token_in)@,
                    final(token_out)@,
                ) == next,
                Err(e) => r == Err::<i128, ContractError>(e) && final(self)@ == old(self)@
                    && final(token_in)@ == old(token_in)@ && final(token_out)@ == old(token_out)@,
            },
    {
        let ghost before = oriented(a_for_b, self@, token_in@, token_out@);
        if ctx.caller != user {
            return Err(ContractError::Unauthorized);
        }
        if amount_in <= 0 {
            return Err(ContractError::NonPositiveAmount);
        }
        let config: PoolConfig = match self.config {
            Some(c) => c,
            None => {
                return Err(ContractError::NotInitialized);
            },
        };
        if self.reserve_a == 0 || self.reserve_b == 0 {
            return Err(ContractError::PoolEmpty);
        }
        let (reserve_in, reserve_out): (i128, i128) = if a_for_b {
            (self.reserve_a, self.reserve_b)
        } else {
            (self.reserve_b, self.reserve_a)
        };
        let (address_in, address_out): (Address, Address) = if a_for_b {
            (config.token_a, config.token_b)
        } else {
            (config.token_b, config.token_a)
        };
        let amount_out: i128 = match Self::get_amount_out(
            amount_in,
            reserve_in,
            reserve_out,
            self.fee_bps,
        ) {
            Ok(v) => v,
            Err(e) => {
                return Err(e);
            },
        };
        if amount_out < min_amount_out {
            return Err(ContractError::SlippageExceeded);
        }
        let pool: Address = ctx.contract;
        let ctx_in = Context { caller: pool, contract: address_in, sequence: ctx.sequence };
        let ctx_out = Context { caller: pool, contract: address_out, sequence: ctx.sequence };
        match token_in.check_transfer_from(&ctx_in, pool, user, pool, amount_in) {
            Ok(()) => {},
            Err(e) => {
                return Err(e);
            },
        }
        let funded: i128 = match reserve_in.checked_add(amount_in) {
            Some(v) => v,
            None => {
                return Err(ContractError::ArithmeticOverflow);
            },
        };
        match token_out.check_transfer(&ctx_out, pool, user, amount_out) {
            Ok(()) => {},
            Err(e) => {
                return Err(e);
            },
        }
        proof {
            before.lemma_swap_preserves_wf(*ctx, user, amount_in, min_amount_out);
            before.pool.lemma_price(true, amount_in);
        }
        let _ = token_in.transfer_from(&ctx_in, pool, user, pool, amount_in);
        if a_for_b {
            self.reserve_a = funded;
            self.reserve_b = reserve_out - amount_out;
        } else {
            self.reserve_b = funded;
            self.reserve_a = reserve_out - amount_out;
        }
        let _ = token_out.transfer(&ctx_out, pool, user, amount_out);
        self.events.push(
            PoolEvent::Swap(
                SwapEvent {
                    user,
                    token_in: address_in,
                    token_out: address_out,
                    amount_in,
                    amount_out,
                },
            ),
        );
        Ok(amount_out)
    }

    /// What `amount_in` of token A would buy of token B: zero while a
    /// reserve is zero.
    pub fn get_price_a_to_b(&self, amount_in: i128) -> (r: Result<i128, ContractError>)
        ensures
            r == self@.price(true, amount_in),
    {
        if self.reserve_a == 0 || self.reserve_b == 0 {
            return Ok(0);
        }
        Self::get_amount_out(amount_in, self.reserve_a, self.reserve_b, self.fee_bps)
    }

    /// What `amount_in` of token B would buy of token A: zero while a
    /// reserve is zero.
    pub fn get_price_b_to_a(&self, amount_in: i128) -> (r: Result<i128, ContractError>)
        ensures
            r == self@.price(false, amount_in),
    {
        if self.reserve_a == 0 || self.reserve_b == 0 {
            return Ok(0);
        }
        Self::get_amount_out(amount_in, self.reserve_b, self.reserve_a, self.fee_bps)
    }

    /// The reserves of token A and of token B.
    pub fn get_reserves(&self) -> (r: (i128, i128))
        ensures
            r.0 == self@.reserve_a,
            r.1 == self@.reserve_b,
    {
        (self.reserve_a, self.reserve_b)
    }

    /// The total of all shares.
    pub fn total_shares(&self) -> (r: i128)
        ensures
            r == self@.total_shares,
    {
        self.total_shares
    }

    /// The shares of `provider`: zero where none are recorded.
    pub fn get_shares(&self, provider: Address) -> (r: i128)
        ensures
            r == self@.shares_of(provider),
    {
        match self.shares.get(&provider) {
            Some(v) => *v,
            None => 0,
        }
    }

    /// The addresses of token A and token B, once `initialize` has run.
    pub fn get_tokens(&self) -> (r: Result<(Address, Address), ContractError>)
        ensures
            r == (match self@.config {
                Some(c) => Ok::<(Address, Address), ContractError>((c.token_a, c.token_b)),
                None => Err(ContractError::NotInitialized),
            }),
    {
        match self.config {
            Some(c) => Ok((c.token_a, c.token_b)),
            None => Err(ContractError::NotInitialized),
        }
    }

    /// The fee in basis points: 30 until `initialize` sets another.
    pub fn get_fee(&self) -> (r: u32)
        ensures
            r == self@.fee_bps,
    {
        self.fee_bps
    }

    /// Hands the events of the completed operations to the platform, oldest
    /// first, and clears the record of them.
    pub fn take_events(&mut self) -> (r: Vec<PoolEvent>)
        ensures
            r@ == old(self)@.events,
            final(self)@ == (PoolState { events: Seq::empty(), ..old(self)@ }),
            old(self)@.wf() ==> final(self)@.wf(),
    {
        let mut taken: Vec<PoolEvent> = Vec::new();
        core::mem::swap(&mut self.events, &mut taken);
        taken
    }
}

/// The market as a swap sees it. A swap of token A for token B sees the
/// market as it is; a swap of token B for token A sees its mirror image, in
/// which the token that the user pays is token A.
spec fn oriented(
    a_for_b: bool,
    pool: PoolState,
    token_in: TokenState,
    token_out: TokenState,
) -> Market {
    if a_for_b {
        Market { pool, token_a: token_in, token_b: token_out }
    } else {
        (Market { pool, token_a: token_out, token_b: token_in }).mirror()
    }
}

} // verus!
