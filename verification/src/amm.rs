//! The liquidity pool: a constant-product market maker over two token
//! ledgers, with a third ledger for the shares of its liquidity providers.
//!
//! The pool keeps the identities of its three tokens and a copy of what it
//! held of the two pooled tokens when its last operation ended. The ledgers
//! themselves belong to whoever calls: every operation is handed the ledgers
//! it works on, together with the identity of its caller and the identity
//! under which the pool holds its tokens.

use vstd::prelude::*;
use crate::erc20::{debit_outcome, transfer_from_outcome, Erc20, LedgerView};
use crate::math::{_min, _sqrt, integer_sqrt, lemma_integer_sqrt_of_square, min_nat};
use crate::types::{u256_add, u256_div, u256_lt, u256_max, u256_mul, Address, Balance, U256};

verus! {

/// Why a pool operation was refused.
#[derive(Clone, Copy, PartialEq, Eq, Structural, Debug)]
pub enum Error {
    /// A debit exceeds the balance of the account.
    InsufficientBalance,
    /// The pool is allowed less than it has to pull.
    InsufficientAllowance,
    /// The two amounts of a deposit are not in the ratio of the reserves.
    InvalidContribution,
    /// Shares are to be redeemed while none exist.
    DivisionByZero,
}

/// The pool's error for a refusal by one of its ledgers.
pub open spec fn token_error(e: crate::erc20::Error) -> Error {
    match e {
        crate::erc20::Error::InsufficientBalance => Error::InsufficientBalance,
        crate::erc20::Error::InsufficientAllowance => Error::InsufficientAllowance,
    }
}

/// The pool's outcome for the outcome of one of its ledgers.
pub open spec fn token_outcome(r: Result<(), crate::erc20::Error>) -> Result<(), Error> {
    match r {
        Ok(()) => Ok(()),
        Err(e) => Err(token_error(e)),
    }
}

/// What is left of an amount that is swapped in once the fee of 0.3% is
/// taken, rounded down.
pub open spec fn after_fee(amount: nat) -> nat {
    amount * 997 / 1000
}

/// What a swap pays out for `amount_in`, given what the pool holds of the
/// token that comes in and of the token that goes out. Nothing is paid where
/// nothing is left of the amount after the fee and the pool holds none of the
/// token that comes in.
pub open spec fn swap_output(reserve_in: nat, reserve_out: nat, amount_in: nat) -> nat {
    let net = after_fee(amount_in);
    if reserve_in + net == 0 {
        0
    } else {
        reserve_out * net / (reserve_in + net)
    }
}

/// Whether a deposit is in the ratio of the reserves. Any deposit is while
/// both reserves are zero.
pub open spec fn proportional(reserve0: nat, reserve1: nat, amount0: nat, amount1: nat) -> bool {
    (reserve0 > 0 || reserve1 > 0) ==> reserve0 * amount1 == reserve1 * amount0
}

/// The shares that a deposit earns: the rounded-down square root of the
/// product of the two amounts while no shares exist, and afterwards the
/// smaller of the two parts of the supply that the amounts are of the
/// reserves.
pub open spec fn shares_for_deposit(
    reserve0: nat,
    reserve1: nat,
    supply: nat,
    amount0: nat,
    amount1: nat,
) -> nat {
    if supply == 0 {
        integer_sqrt(amount0 * amount1)
    } else {
        min_nat(amount0 * supply / reserve0, amount1 * supply / reserve1)
    }
}

/// What `shares` out of `supply` redeem of `balance`, rounded down.
pub open spec fn redeemed(shares: nat, balance: nat, supply: nat) -> nat {
    shares * balance / supply
}

/// The state of a pool.
pub struct PoolView {
    pub lq_token_address: Address,
    pub token0_address: Address,
    pub token1_address: Address,
    pub reserve0: nat,
    pub reserve1: nat,
}

impl PoolView {
    /// The pool with other reserves.
    pub open spec fn with_reserves(self, reserve0: nat, reserve1: nat) -> PoolView {
        PoolView { reserve0, reserve1, ..self }
    }

    /// Whether a swap from the token with the given identity takes the second
    /// token in and pays the first out, and not the other way round.
    pub open spec fn swaps_from_token1(self, from_token_address: Address) -> bool {
        from_token_address == self.token1_address
    }
}

/// What a deposit returns: the pool has to be allowed to pull the first
/// amount and the caller has to hold it, then the same for the second, and
/// the two have to be in the ratio of the reserves.
pub open spec fn add_liquidity_outcome(
    pool: PoolView,
    token0: LedgerView,
    token1: LedgerView,
    caller: Address,
    self_address: Address,
    amount0: Balance,
    amount1: Balance,
) -> Result<(), Error> {
    if transfer_from_outcome(token0, self_address, caller, amount0) is Err {
        token_outcome(transfer_from_outcome(token0, self_address, caller, amount0))
    } else if transfer_from_outcome(token1, self_address, caller, amount1) is Err {
        token_outcome(transfer_from_outcome(token1, self_address, caller, amount1))
    } else if !proportional(pool.reserve0, pool.reserve1, amount0@, amount1@) {
        Err(Error::InvalidContribution)
    } else {
        Ok(())
    }
}

/// Whether the numbers that the share count of a deposit is computed from
/// fit in 256 bits, and the reserves by which they are divided are not zero.
pub open spec fn deposit_in_range(
    reserve0: nat,
    reserve1: nat,
    supply: nat,
    amount0: nat,
    amount1: nat,
) -> bool {
    &&& (reserve0 > 0 || reserve1 > 0) ==> reserve0 * amount1 <= u256_max() && reserve1 * amount0
        <= u256_max()
    &&& proportional(reserve0, reserve1, amount0, amount1) ==> if supply == 0 {
        amount0 * amount1 <= u256_max()
    } else {
        &&& reserve0 > 0
        &&& reserve1 > 0
        &&& amount0 * supply <= u256_max()
        &&& amount1 * supply <= u256_max()
        &&& supply + shares_for_deposit(reserve0, reserve1, supply, amount0, amount1)
            <= u256_max()
    }
}

/// Whether a deposit stays within 256 bits: where both pulls would go
/// through, the numbers that it computes fit.
pub open spec fn add_liquidity_in_range(
    pool: PoolView,
    token0: LedgerView,
    token1: LedgerView,
    lq_token: LedgerView,
    caller: Address,
    self_address: Address,
    amount0: Balance,
    amount1: Balance,
) -> bool {
    transfer_from_outcome(token0, self_address, caller, amount0) is Ok && transfer_from_outcome(
        token1,
        self_address,
        caller,
        amount1,
    ) is Ok ==> deposit_in_range(
        pool.reserve0,
        pool.reserve1,
        lq_token.total_supply,
        amount0@,
        amount1@,
    )
}

/// What a redemption returns: shares have to exist, and the caller has to
/// hold those that are redeemed.
pub open spec fn remove_liquidity_outcome(lq_token: LedgerView, caller: Address, shares: Balance)
    -> Result<(), Error> {
    if lq_token.total_supply == 0 {
        Err(Error::DivisionByZero)
    } else {
        token_outcome(debit_outcome(lq_token, caller, shares))
    }
}

/// Whether a redemption stays within 256 bits: where it is not refused, the
/// products of the shares with what the pool holds fit.
pub open spec fn remove_liquidity_in_range(
    token0: LedgerView,
    token1: LedgerView,
    lq_token: LedgerView,
    caller: Address,
    self_address: Address,
    shares: Balance,
) -> bool {
    remove_liquidity_outcome(lq_token, caller, shares) is Ok ==> shares@
        * token0.balances[self_address] <= u256_max() && shares@ * token1.balances[self_address]
        <= u256_max()
}

/// Whether the numbers that the price of a swap is computed from fit in 256
/// bits.
pub open spec fn pricing_in_range(reserve_in: nat, reserve_out: nat, amount_in: nat) -> bool {
    &&& amount_in * 997 <= u256_max()
    &&& reserve_out * after_fee(amount_in) <= u256_max()
    &&& reserve_in + after_fee(amount_in) <= u256_max()
}

/// Whether a swap stays within 256 bits: where it is not refused, the
/// numbers that its price is computed from fit.
pub open spec fn swap_in_range(
    token_in: LedgerView,
    token_out: LedgerView,
    caller: Address,
    self_address: Address,
    amount: Balance,
) -> bool {
    debit_outcome(token_in, caller, amount) is Ok ==> pricing_in_range(
        token_in.balances[self_address],
        token_out.balances[self_address],
        amount@,
    )
}

/// While no shares exist a deposit earns the rounded-down square root of the
/// product of its amounts, whatever the reserves; for two equal amounts that
/// is the amount.
pub proof fn lemma_first_deposit_shares(reserve0: nat, reserve1: nat, amount0: nat, amount1: nat)
    ensures
        shares_for_deposit(reserve0, reserve1, 0, amount0, amount1) == integer_sqrt(
            amount0 * amount1,
        ),
        amount0 == amount1 ==> shares_for_deposit(reserve0, reserve1, 0, amount0, amount1)
            == amount0,
{
    if amount0 == amount1 {
        lemma_integer_sqrt_of_square(amount0);
    }
}

/// All the shares redeem all that the pool holds, and no shares redeem more
/// than the pool holds.
pub proof fn lemma_redeemed_bounds(shares: nat, balance: nat, supply: nat)
    requires
        0 < supply,
        shares <= supply,
    ensures
        redeemed(shares, balance, supply) <= balance,
        redeemed(supply, balance, supply) == balance,
{
    assert(shares * balance / supply <= balance) by (nonlinear_arith)
        requires
            0 < supply,
            shares <= supply,
    ;
    assert(supply * balance / supply == balance) by (nonlinear_arith)
        requires
            0 < supply,
    ;
}

/// A swap pays out no more than the pool holds, and the product of what the
/// pool holds of the two tokens does not go down by it.
pub proof fn lemma_swap_keeps_product(reserve_in: nat, reserve_out: nat, amount_in: nat)
    ensures
        swap_output(reserve_in, reserve_out, amount_in) <= reserve_out,
        (reserve_in + amount_in) * (reserve_out - swap_output(reserve_in, reserve_out, amount_in))
            >= reserve_in * reserve_out,
{
    let net = after_fee(amount_in);
    let out = swap_output(reserve_in, reserve_out, amount_in);
    let d = reserve_in + net;
    if d == 0 {
        assert((reserve_in + amount_in) * reserve_out >= reserve_in * reserve_out)
            by (nonlinear_arith);
    } else {
        assert(out * d <= reserve_out * net && out <= reserve_out) by (nonlinear_arith)
            requires
                d > 0,
                d == reserve_in + net,
                out == reserve_out * net / d,
        ;
        assert((reserve_in + amount_in) * (reserve_out - out) >= reserve_in * reserve_out)
            by (nonlinear_arith)
            requires
                out * d <= reserve_out * net,
                out <= reserve_out,
                d == reserve_in + net,
                net <= amount_in,
        ;
    }
}

/// Swapping nothing in pays nothing out.
pub proof fn lemma_swap_of_nothing(reserve_in: nat, reserve_out: nat)
    ensures
        swap_output(reserve_in, reserve_out, 0) == 0,
        pricing_in_range(reserve_in, reserve_out, 0) <==> reserve_in <= u256_max(),
{
    assert(reserve_out * 0 == 0) by (nonlinear_arith);
    if reserve_in > 0 {
        assert(0nat / reserve_in == 0) by (nonlinear_arith)
            requires
                reserve_in > 0,
        ;
    }
}

/// A swap of nothing is never refused, pays nothing, and moves nothing: every
/// balance of either ledger stays as it was, and so do the reserves of a pool
/// whose reserves were what it held.
pub proof fn lemma_swap_of_nothing_moves_nothing(
    token_in: LedgerView,
    token_out: LedgerView,
    caller: Address,
    self_address: Address,
    amount: Balance,
    amount_out: Balance,
)
    requires
        amount@ == 0,
        amount_out@ == swap_output(
            token_in.balances[self_address],
            token_out.balances[self_address],
            amount@,
        ),
    ensures
        debit_outcome(token_in, caller, amount) is Ok,
        amount_out@ == 0,
        forall|a: Address|
            #[trigger] token_in.transfer(caller, self_address, amount).balances[a]
                == token_in.balances[a],
        forall|a: Address|
            #[trigger] token_out.transfer(self_address, caller, amount_out).balances[a]
                == token_out.balances[a],
{
    lemma_swap_of_nothing(token_in.balances[self_address], token_out.balances[self_address]);
    token_in.lemma_transfer_keeps_balances(caller, self_address, amount);
    token_out.lemma_transfer_keeps_balances(self_address, caller, amount_out);
}

/// A pool that holds none of the token that goes out pays nothing out.
pub proof fn lemma_swap_from_empty_reserve(reserve_in: nat, amount_in: nat)
    ensures
        swap_output(reserve_in, 0, amount_in) == 0,
{
    let net = after_fee(amount_in);
    assert(0 * net == 0) by (nonlinear_arith);
    if reserve_in + net > 0 {
        assert(0nat / (reserve_in + net) == 0) by (nonlinear_arith)
            requires
                reserve_in + net > 0,
        ;
    }
}

/// A liquidity pool over two tokens.
pub struct AmmContract {
    pub lq_token_address: Address,
    pub token0_address: Address,
    pub token1_address: Address,
    pub reserve0: Balance,
    pub reserve1: Balance,
}

impl View for AmmContract {
    type V = PoolView;

    open spec fn view(&self) -> PoolView {
        PoolView {
            lq_token_address: self.lq_token_address,
            token0_address: self.token0_address,
            token1_address: self.token1_address,
            reserve0: self.reserve0@,
            reserve1: self.reserve1@,
        }
    }
}

impl AmmContract {
    /// A pool over the tokens with the given identities, with no reserves.
    pub fn init(lq_token_address: Address, token0_address: Address, token1_address: Address) -> (r:
        AmmContract)
        ensures
            r@ == (PoolView {
                lq_token_address,
                token0_address,
                token1_address,
                reserve0: 0,
                reserve1: 0,
            }),
    {
        AmmContract {
            lq_token_address,
            token0_address,
            token1_address,
            reserve0: U256::zero(),
            reserve1: U256::zero(),
        }
    }

    /// Whether a deposit stays within 256 bits, which is what `add_liquidity`
    /// asks for.
    pub fn add_liquidity_fits(
        &self,
        caller: &Address,
        self_address: &Address,
        token0: &Erc20,
        token1: &Erc20,
        lq_token: &Erc20,
        amount0: Balance,
        amount1: Balance,
    ) -> (r: bool)
        ensures
            r == add_liquidity_in_range(
                self@,
                token0@,
                token1@,
                lq_token@,
                *caller,
                *self_address,
                amount0,
                amount1,
            ),
    {
        if can_transfer_from(token0, self_address, caller, &amount0).is_err() {
            return true;
        }
        if can_transfer_from(token1, self_address, caller, &amount1).is_err() {
            return true;
        }
        let reserve0 = self.reserve0;
        let reserve1 = self.reserve1;
        let total_supply = lq_token.total_supply();
        if !reserve0.is_zero() || !reserve1.is_zero() {
            if !reserve0.product_fits(&amount1) || !reserve1.product_fits(&amount0) {
                return false;
            }
            if !u256_mul(reserve0, amount1).same(&u256_mul(reserve1, amount0)) {
                return true;
            }
        }
        if total_supply.is_zero() {
            amount0.product_fits(&amount1)
        } else if reserve0.is_zero() || reserve1.is_zero() {
            false
        } else if !amount0.product_fits(&total_supply) || !amount1.product_fits(&total_supply) {
            false
        } else {
            let a = u256_div(u256_mul(amount0, total_supply), reserve0);
            let b = u256_div(u256_mul(amount1, total_supply), reserve1);
            total_supply.sum_fits(&_min(a, b))
        }
    }

    /// Whether a redemption stays within 256 bits, which is what
    /// `remove_liquidity` asks for.
    pub fn remove_liquidity_fits(
        &self,
        caller: &Address,
        self_address: &Address,
        token0: &Erc20,
        token1: &Erc20,
        lq_token: &Erc20,
        shares: Balance,
    ) -> (r: bool)
        ensures
            r == remove_liquidity_in_range(
                token0@,
                token1@,
                lq_token@,
                *caller,
                *self_address,
                shares,
            ),
    {
        if lq_token.total_supply().is_zero() || u256_lt(lq_token.balance_of(caller), shares) {
            return true;
        }
        shares.product_fits(&token0.balance_of(self_address)) && shares.product_fits(
            &token1.balance_of(self_address),
        )
    }

    /// Whether a swap stays within 256 bits, which is what `swap` asks for.
    pub fn swap_fits(
        &self,
        caller: &Address,
        self_address: &Address,
        token0: &Erc20,
        token1: &Erc20,
        amount: Balance,
        from_token_address: Address,
    ) -> (r: bool)
        ensures
            r == if self@.swaps_from_token1(from_token_address) {
                swap_in_range(token1@, token0@, *caller, *self_address, amount)
            } else {
                swap_in_range(token0@, token1@, *caller, *self_address, amount)
            },
    {
        if from_token_address == self.token1_address {
            swap_between_fits(caller, self_address, token1, token0, amount)
        } else {
            swap_between_fits(caller, self_address, token0, token1, amount)
        }
    }

    /// Pulls `amount0` of the first token and `amount1` of the second from
    /// `caller` into the pool, mints the shares that the deposit earns to
    /// `caller`, and takes what the pool then holds as its reserves. Refused,
    /// with nothing changed, where a pull is refused or the amounts are not in
    /// the ratio of the reserves as they stood before the call.
    ///
    /// The numbers that the deposit computes have to fit in 256 bits;
    /// `add_liquidity_fits` tells whether they do.
    pub fn add_liquidity(
        &mut self,
        caller: &Address,
        self_address: &Address,
        token0: &mut Erc20,
        token1: &mut Erc20,
        lq_token: &mut Erc20,
        amount0: Balance,
        amount1: Balance,
    ) -> (r: Result<Balance, Error>)
        requires
            old(token0)@.conserved(),
            old(token1)@.conserved(),
            old(lq_token)@.conserved(),
            add_liquidity_in_range(
                old(self)@,
                old(token0)@,
                old(token1)@,
                old(lq_token)@,
                *caller,
                *self_address,
                amount0,
                amount1,
            ),
        ensures
            final(token0)@.conserved(),
            final(token1)@.conserved(),
            final(lq_token)@.conserved(),
            match r {
                Ok(shares) => {
                    &&& add_liquidity_outcome(
                        old(self)@,
                        old(token0)@,
                        old(token1)@,
                        *caller,
                        *self_address,
                        amount0,
                        amount1,
                    ) is Ok
                    &&& shares@ == shares_for_deposit(
                        old(self)@.reserve0,
                        old(self)@.reserve1,
                        old(lq_token)@.total_supply,
                        amount0@,
                        amount1@,
                    )
                    &&& final(token0)@ == old(token0)@.transfer_from(
                        *self_address,
                        *caller,
                        *self_address,
                        amount0,
                    )
                    &&& final(token1)@ == old(token1)@.transfer_from(
                        *self_address,
                        *caller,
                        *self_address,
                        amount1,
                    )
                    &&& final(lq_token)@ == old(lq_token)@.mint(*caller, shares)
                    &&& final(self)@ == old(self)@.with_reserves(
                        final(token0)@.balances[*self_address],
                        final(token1)@.balances[*self_address],
                    )
                },
                Err(e) => Err::<(), Error>(e) == add_liquidity_outcome(
                    old(self)@,
                    old(token0)@,
                    old(token1)@,
                    *caller,
                    *self_address,
                    amount0,
                    amount1,
                ),
            },
            r is Err ==> {
                &&& *final(self) == *old(self)
                &&& *final(token0) == *old(token0)
                &&& *final(token1) == *old(token1)
                &&& *final(lq_token) == *old(lq_token)
            },
    {
        match can_transfer_from(token0, self_address, caller, &amount0) {
            Ok(()) => {},
            Err(e) => {
                return Err(e);
            },
        }
        match can_transfer_from(token1, self_address, caller, &amount1) {
            Ok(()) => {},
            Err(e) => {
                return Err(e);
            },
        }
        let reserve0 = self.reserve0;
        let reserve1 = self.reserve1;
        let total_supply = lq_token.total_supply();
        if !reserve0.is_zero() || !reserve1.is_zero() {
            if !u256_mul(reserve0, amount1).same(&u256_mul(reserve1, amount0)) {
                return Err(Error::InvalidContribution);
            }
        }
        let shares = if total_supply.is_zero() {
            _sqrt(u256_mul(amount0, amount1))
        } else {
            let a = u256_div(u256_mul(amount0, total_supply), reserve0);
            let b = u256_div(u256_mul(amount1, total_supply), reserve1);
            _min(a, b)
        };
        proof {
            shares.lemma_in_range();
        }
        match token0.transfer_from(self_address, caller, self_address, &amount0) {
            Ok(()) => {},
            Err(e) => {
                return Err(from_token_error(e));
            },
        }
        match token1.transfer_from(self_address, caller, self_address, &amount1) {
            Ok(()) => {},
            Err(e) => {
                return Err(from_token_error(e));
            },
        }
        lq_token.mint(caller, &shares);
        self.reserve0 = token0.balance_of(self_address);
        self.reserve1 = token1.balance_of(self_address);
        Ok(shares)
    }

    /// Burns `shares` of `caller`, pays `caller` the part of what the pool
    /// holds of either token that the shares are of all shares, rounded down,
    /// and takes what the pool then holds as its reserves. Returns the two
    /// amounts paid. Refused, with nothing changed, where no shares exist or
    /// `caller` holds fewer than `shares`.
    ///
    /// The products of the shares with what the pool holds have to fit in 256
    /// bits; `remove_liquidity_fits` tells whether they do.
    pub fn remove_liquidity(
        &mut self,
        caller: &Address,
        self_address: &Address,
        token0: &mut Erc20,
        token1: &mut Erc20,
        lq_token: &mut Erc20,
        shares: Balance,
    ) -> (r: Result<(Balance, Balance), Error>)
        requires
            old(token0)@.conserved(),
            old(token1)@.conserved(),
            old(lq_token)@.conserved(),
            remove_liquidity_in_range(
                old(token0)@,
                old(token1)@,
                old(lq_token)@,
                *caller,
                *self_address,
                shares,
            ),
        ensures
            final(token0)@.conserved(),
            final(token1)@.conserved(),
            final(lq_token)@.conserved(),
            r is Ok <==> remove_liquidity_outcome(old(lq_token)@, *caller, shares) is Ok,
            match r {
                Ok((amount0, amount1)) => {
                    &&& amount0@ == redeemed(
                        shares@,
                        old(token0)@.balances[*self_address],
                        old(lq_token)@.total_supply,
                    )
                    &&& amount1@ == redeemed(
                        shares@,
                        old(token1)@.balances[*self_address],
                        old(lq_token)@.total_supply,
                    )
                    &&& final(lq_token)@ == old(lq_token)@.burn(*caller, shares)
                    &&& final(token0)@ == old(token0)@.transfer(*self_address, *caller, amount0)
                    &&& final(token1)@ == old(token1)@.transfer(*self_address, *caller, amount1)
                    &&& final(self)@ == old(self)@.with_reserves(
                        final(token0)@.balances[*self_address],
                        final(token1)@.balances[*self_address],
                    )
                },
                Err(e) => {
                    &&& Err::<(), Error>(e) == remove_liquidity_outcome(
                        old(lq_token)@,
                        *caller,
                        shares,
                    )
                    &&& *final(self) == *old(self)
                    &&& *final(token0) == *old(token0)
                    &&& *final(token1) == *old(token1)
                    &&& *final(lq_token) == *old(lq_token)
                },
            },
    {
        let balance0 = token0.balance_of(self_address);
        let balance1 = token1.balance_of(self_address);
        let total_supply = lq_token.total_supply();
        if total_supply.is_zero() {
            return Err(Error::DivisionByZero);
        }
        if u256_lt(lq_token.balance_of(caller), shares) {
            return Err(Error::InsufficientBalance);
        }
        let amount0 = u256_div(u256_mul(shares, balance0), total_supply);
        let amount1 = u256_div(u256_mul(shares, balance1), total_supply);
        proof {
            lq_token@.lemma_balance_within_supply(*caller);
            lemma_redeemed_bounds(shares@, balance0@, total_supply@);
            lemma_redeemed_bounds(shares@, balance1@, total_supply@);
        }
        match lq_token.burn(caller, &shares) {
            Ok(()) => {},
            Err(e) => {
                return Err(from_token_error(e));
            },
        }
        match token0.transfer(self_address, caller, &amount0) {
            Ok(()) => {},
            Err(e) => {
                return Err(from_token_error(e));
            },
        }
        match token1.transfer(self_address, caller, &amount1) {
            Ok(()) => {},
            Err(e) => {
                return Err(from_token_error(e));
            },
        }
        self.reserve0 = token0.balance_of(self_address);
        self.reserve1 = token1.balance_of(self_address);
        Ok((amount0, amount1))
    }

    /// Takes `amount` of one token from `caller` into the pool, pays `caller`
    /// for it in the other token at the constant-product price after a fee of
    /// 0.3%, and takes what the pool then holds as its reserves. The token
    /// that comes in is the second where `from_token_address` is its
    /// identity, and the first otherwise. Returns the amount paid. Refused,
    /// with nothing changed, where `caller` holds less than `amount`.
    ///
    /// The numbers that the price is computed from have to fit in 256 bits;
    /// `swap_fits` tells whether they do.
    pub fn swap(
        &mut self,
        caller: &Address,
        self_address: &Address,
        token0: &mut Erc20,
        token1: &mut Erc20,
        amount: Balance,
        from_token_address: Address,
    ) -> (r: Result<Balance, Error>)
        requires
            old(token0)@.conserved(),
            old(token1)@.conserved(),
            if old(self)@.swaps_from_token1(from_token_address) {
                swap_in_range(old(token1)@, old(token0)@, *caller, *self_address, amount)
            } else {
                swap_in_range(old(token0)@, old(token1)@, *caller, *self_address, amount)
            },
        ensures
            final(token0)@.conserved(),
            final(token1)@.conserved(),
            ({
                let from1 = old(self)@.swaps_from_token1(from_token_address);
                let token_in = if from1 {
                    old(token1)@
                } else {
                    old(token0)@
                };
                let token_out = if from1 {
                    old(token0)@
                } else {
                    old(token1)@
                };
                let token_in_after = if from1 {
                    final(token1)@
                } else {
                    final(token0)@
                };
                let token_out_after = if from1 {
                    final(token0)@
                } else {
                    final(token1)@
                };
                match r {
                    Ok(amount_out) => {
                        &&& debit_outcome(token_in, *caller, amount) is Ok
                        &&& amount_out@ == swap_output(
                            token_in.balances[*self_address],
                            token_out.balances[*self_address],
                            amount@,
                        )
                        &&& token_in_after == token_in.transfer(*caller, *self_address, amount)
                        &&& token_out_after == token_out.transfer(
                            *self_address,
                            *caller,
                            amount_out,
                        )
                        &&& final(self)@ == old(self)@.with_reserves(
                            final(token0)@.balances[*self_address],
                            final(token1)@.balances[*self_address],
                        )
                        &&& final(self)@.reserve0 * final(self)@.reserve1 >= old(
                            token0
                        )@.balances[*self_address] * old(token1)@.balances[*self_address]
                    },
                    Err(e) => {
                        &&& token_outcome(debit_outcome(token_in, *caller, amount)) == Err::<
                            (),
                            Error,
                        >(e)
                        &&& *final(self) == *old(self)
                        &&& *final(token0) == *old(token0)
                        &&& *final(token1) == *old(token1)
                    },
                }
            }),
    {
        let from1 = from_token_address == self.token1_address;
        let r = if from1 {
            swap_between(caller, self_address, token1, token0, amount)
        } else {
            swap_between(caller, self_address, token0, token1, amount)
        };
        match r {
            Ok(amount_out) => {
                self.reserve0 = token0.balance_of(self_address);
                self.reserve1 = token1.balance_of(self_address);
                proof {
                    let b0 = old(token0)@.balances[*self_address];
                    let b1 = old(token1)@.balances[*self_address];
                    if from1 {
                        assert(self@.reserve1 * self@.reserve0 == self@.reserve0 * self@.reserve1)
                            by (nonlinear_arith);
                        assert(b1 * b0 == b0 * b1) by (nonlinear_arith);
                    }
                }
                Ok(amount_out)
            },
            Err(e) => Err(e),
        }
    }

    /// What the pool held of the first token when its last operation ended.
    pub fn reserve0(&self) -> (r: Balance)
        ensures
            r == self.reserve0,
            r@ == self@.reserve0,
    {
        self.reserve0
    }

    /// What the pool held of the second token when its last operation ended.
    pub fn reserve1(&self) -> (r: Balance)
        ensures
            r == self.reserve1,
            r@ == self@.reserve1,
    {
        self.reserve1
    }
}

/// The pool's error for a refusal by one of its ledgers.
fn from_token_error(e: crate::erc20::Error) -> (r: Error)
    ensures
        r == token_error(e),
{
    match e {
        crate::erc20::Error::InsufficientBalance => Error::InsufficientBalance,
        crate::erc20::Error::InsufficientAllowance => Error::InsufficientAllowance,
    }
}

/// Whether `spender` could now move `amount` of `owner` through its
/// allowance.
fn can_transfer_from(token: &Erc20, spender: &Address, owner: &Address, amount: &Balance) -> (r:
    Result<(), Error>)
    ensures
        r == token_outcome(transfer_from_outcome(token@, *spender, *owner, *amount)),
{
    if u256_lt(token.allowance(owner, spender), *amount) {
        Err(Error::InsufficientAllowance)
    } else if u256_lt(token.balance_of(owner), *amount) {
        Err(Error::InsufficientBalance)
    } else {
        Ok(())
    }
}

/// Whether a swap of `amount` of `token_in` for `token_out` stays within 256
/// bits.
fn swap_between_fits(
    caller: &Address,
    self_address: &Address,
    token_in: &Erc20,
    token_out: &Erc20,
    amount: Balance,
) -> (r: bool)
    ensures
        r == swap_in_range(token_in@, token_out@, *caller, *self_address, amount),
{
    if u256_lt(token_in.balance_of(caller), amount) {
        return true;
    }
    if !amount.product_fits(&U256::from_u128(997)) {
        return false;
    }
    let amount_in_with_fee = u256_div(
        u256_mul(amount, U256::from_u128(997)),
        U256::from_u128(1000),
    );
    token_out.balance_of(self_address).product_fits(&amount_in_with_fee) && token_in.balance_of(
        self_address,
    ).sum_fits(&amount_in_with_fee)
}

/// Takes `amount` of `token_in` from `caller` into the pool and pays `caller`
/// for it out of what the pool holds of `token_out`.
fn swap_between(
    caller: &Address,
    self_address: &Address,
    token_in: &mut Erc20,
    token_out: &mut Erc20,
    amount: Balance,
) -> (r: Result<Balance, Error>)
    requires
        old(token_in)@.conserved(),
        old(token_out)@.conserved(),
        swap_in_range(old(token_in)@, old(token_out)@, *caller, *self_address, amount),
    ensures
        final(token_in)@.conserved(),
        final(token_out)@.conserved(),
        match r {
            Ok(amount_out) => {
                &&& debit_outcome(old(token_in)@, *caller, amount) is Ok
                &&& amount_out@ == swap_output(
                    old(token_in)@.balances[*self_address],
                    old(token_out)@.balances[*self_address],
                    amount@,
                )
                &&& final(token_in)@ == old(token_in)@.transfer(*caller, *self_address, amount)
                &&& final(token_out)@ == old(token_out)@.transfer(
                    *self_address,
                    *caller,
                    amount_out,
                )
                &&& final(token_in)@.balances[*self_address] * final(
                    token_out
                )@.balances[*self_address] >= old(token_in)@.balances[*self_address] * old(
                    token_out
                )@.balances[*self_address]
            },
            Err(e) => {
                &&& token_outcome(debit_outcome(old(token_in)@, *caller, amount)) == Err::<
                    (),
                    Error,
                >(e)
                &&& *final(token_in) == *old(token_in)
                &&& *final(token_out) == *old(token_out)
            },
        },
{
    let reserve_in = token_in.balance_of(self_address);
    let reserve_out = token_out.balance_of(self_address);
    match token_in.transfer(caller, self_address, &amount) {
        Ok(()) => {},
        Err(e) => {
            return Err(from_token_error(e));
        },
    }
    let amount_in_with_fee = u256_div(
        u256_mul(amount, U256::from_u128(997)),
        U256::from_u128(1000),
    );
    let denominator = u256_add(reserve_in, amount_in_with_fee);
    let amount_out = if denominator.is_zero() {
        U256::zero()
    } else {
        u256_div(u256_mul(reserve_out, amount_in_with_fee), denominator)
    };
    proof {
        lemma_swap_keeps_product(reserve_in@, reserve_out@, amount@);
    }
    match token_out.transfer(self_address, caller, &amount_out) {
        Ok(()) => {},
        Err(e) => {
            return Err(from_token_error(e));
        },
    }
    proof {
        let rin = reserve_in@;
        let rout = reserve_out@;
        let out = amount_out@;
        if *caller == *self_address {
            assert(token_in@.balances[*self_address] == rin);
            assert(token_out@.balances[*self_address] == rout);
        } else {
            assert(token_in@.balances[*self_address] == rin + amount@);
            assert(token_out@.balances[*self_address] == rout - out);
        }
    }
    Ok(amount_out)
}

} // verus!
