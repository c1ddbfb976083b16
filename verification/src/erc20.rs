//! The fungible-token ledger: balances, allowances and total supply, with the
//! events that each operation gives rise to.
//!
//! [`LedgerView`] is the mathematical state of a ledger and says what every
//! operation does to it; [`Erc20`] is the ledger itself.

use std::collections::HashMap;
use vstd::prelude::*;
use crate::sums::{
    lemma_sum_agree, lemma_sum_bounds_one, lemma_sum_bounds_two, lemma_sum_empty,
    lemma_sum_ignores_zeros, lemma_sum_remove, sum_over,
};
use crate::types::{u256_add, u256_lt, u256_max, u256_sub, Address, Balance, U256};

verus! {

/// Why a ledger operation was refused.
#[derive(Clone, Copy, PartialEq, Eq, Structural, Debug)]
pub enum Error {
    /// The debit exceeds the balance of the account.
    InsufficientBalance,
    /// The amount exceeds what the owner allows the spender.
    InsufficientAllowance,
}

/// A change of the limit up to which `spender` may move tokens of `owner`.
#[derive(Clone, Copy, PartialEq, Eq, Debug)]
pub struct Approval {
    pub owner: Address,
    pub spender: Address,
    pub value: Balance,
}

/// A movement of tokens. Minted tokens come from nobody, burned tokens go to
/// nobody.
#[derive(Clone, Copy, PartialEq, Eq, Debug)]
pub struct Transfer {
    pub from: Option<Address>,
    pub to: Option<Address>,
    pub amount: Balance,
}

/// What a ledger reports of an operation.
#[derive(Clone, Copy, PartialEq, Eq, Debug)]
pub enum Event {
    Transfer(Transfer),
    Approval(Approval),
}

/// The state of a ledger. `balances` and `allowances` hold a value for every
/// account and every pair of accounts; an account that never received
/// anything has balance zero.
#[verifier::ext_equal]
pub struct LedgerView {
    pub name: Seq<char>,
    pub symbol: Seq<char>,
    pub decimals: u8,
    pub total_supply: nat,
    pub balances: Map<Address, nat>,
    pub allowances: Map<(Address, Address), nat>,
    pub events: Seq<Event>,
}

impl LedgerView {
    /// A ledger on which nothing has happened yet.
    pub open spec fn fresh(name: Seq<char>, symbol: Seq<char>, decimals: u8) -> LedgerView {
        LedgerView {
            name,
            symbol,
            decimals,
            total_supply: 0,
            balances: Map::total(|a: Address| 0nat),
            allowances: Map::total(|p: (Address, Address)| 0nat),
            events: Seq::empty(),
        }
    }

    /// The accounts that hold tokens.
    pub open spec fn holders(self) -> Set<Address> {
        Set::new(|a: Address| self.balances[a] > 0)
    }

    /// Finitely many accounts hold tokens, and what they hold adds up to the
    /// total supply.
    pub open spec fn conserved(self) -> bool {
        &&& self.holders().finite()
        &&& sum_over(self.balances, self.holders()) == self.total_supply
    }

    /// The ledger with `amount` more on the account `a`.
    pub open spec fn credit(self, a: Address, amount: nat) -> LedgerView {
        LedgerView { balances: self.balances.insert(a, self.balances[a] + amount), ..self }
    }

    /// The ledger with `amount` less on the account `a`.
    pub open spec fn debit(self, a: Address, amount: nat) -> LedgerView {
        LedgerView {
            balances: self.balances.insert(a, (self.balances[a] - amount) as nat),
            ..self
        }
    }

    /// The ledger with one more event at the end of its log.
    pub open spec fn report(self, event: Event) -> LedgerView {
        LedgerView { events: self.events.push(event), ..self }
    }

    /// The ledger after `amount` was minted to `to`.
    pub open spec fn mint(self, to: Address, amount: Balance) -> LedgerView {
        LedgerView {
            total_supply: self.total_supply + amount@,
            ..self.credit(to, amount@)
        }.report(Event::Transfer(Transfer { from: None, to: Some(to), amount }))
    }

    /// The ledger after `amount` was burned from `owner`.
    pub open spec fn burn(self, owner: Address, amount: Balance) -> LedgerView {
        LedgerView {
            total_supply: (self.total_supply - amount@) as nat,
            ..self.debit(owner, amount@)
        }.report(Event::Transfer(Transfer { from: Some(owner), to: None, amount }))
    }

    /// The ledger after `amount` moved from `from` to `to`. Where the two are
    /// the same account its balance stays as it was.
    pub open spec fn transfer(self, from: Address, to: Address, amount: Balance) -> LedgerView {
        self.debit(from, amount@).credit(to, amount@).report(
            Event::Transfer(Transfer { from: Some(from), to: Some(to), amount }),
        )
    }

    /// The ledger after `owner` set the limit of `spender` to `amount`.
    pub open spec fn approve(
        self,
        owner: Address,
        spender: Address,
        amount: Balance,
    ) -> LedgerView {
        LedgerView {
            allowances: self.allowances.insert((owner, spender), amount@),
            ..self
        }.report(Event::Approval(Approval { owner, spender, value: amount }))
    }

    /// The ledger after `spender` used up `amount` of the limit that `owner`
    /// set. The event reports the limit that is left.
    pub open spec fn spend_allowance(
        self,
        owner: Address,
        spender: Address,
        amount: Balance,
    ) -> LedgerView {
        let left = (self.allowances[(owner, spender)] - amount@) as nat;
        LedgerView {
            allowances: self.allowances.insert((owner, spender), left),
            ..self
        }.report(Event::Approval(Approval { owner, spender, value: U256::from_nat(left) }))
    }

    /// The ledger after `spender` moved `amount` from `owner` to `to` within
    /// the limit that `owner` set.
    pub open spec fn transfer_from(
        self,
        spender: Address,
        owner: Address,
        to: Address,
        amount: Balance,
    ) -> LedgerView {
        self.spend_allowance(owner, spender, amount).transfer(owner, to, amount)
    }

    /// The ledger with an empty log.
    pub open spec fn without_events(self) -> LedgerView {
        LedgerView { events: Seq::empty(), ..self }
    }

    /// A fresh ledger conserves its supply.
    pub proof fn lemma_fresh_conserved(name: Seq<char>, symbol: Seq<char>, decimals: u8)
        ensures
            Self::fresh(name, symbol, decimals).conserved(),
    {
        let s = Self::fresh(name, symbol, decimals);
        assert(s.holders() =~= Set::<Address>::empty());
        lemma_sum_empty(s.balances);
    }

    /// Setting the balance of one account changes the sum of all balances by
    /// as much as it changes that balance.
    pub proof fn lemma_set_balance(self, a: Address, value: nat)
        requires
            self.holders().finite(),
        ensures
            ({
                let after = LedgerView { balances: self.balances.insert(a, value), ..self };
                &&& after.holders().finite()
                &&& sum_over(after.balances, after.holders()) + self.balances[a] == sum_over(
                    self.balances,
                    self.holders(),
                ) + value
            }),
    {
        let after = LedgerView { balances: self.balances.insert(a, value), ..self };
        let all = self.holders().insert(a);
        assert(self.holders().subset_of(all));
        assert(after.holders().subset_of(all));
        lemma_sum_ignores_zeros(self.balances, all, self.holders());
        lemma_sum_ignores_zeros(after.balances, all, after.holders());
        lemma_sum_remove(self.balances, all, a);
        lemma_sum_remove(after.balances, all, a);
        lemma_sum_agree(self.balances, after.balances, all.remove(a));
    }

    /// No account holds more than the total supply.
    pub proof fn lemma_balance_within_supply(self, a: Address)
        requires
            self.conserved(),
        ensures
            self.balances[a] <= self.total_supply,
    {
        if self.holders().contains(a) {
            lemma_sum_bounds_one(self.balances, self.holders(), a);
        }
    }

    /// No two accounts together hold more than the total supply.
    pub proof fn lemma_two_balances_within_supply(self, a: Address, b: Address)
        requires
            self.conserved(),
            a != b,
        ensures
            self.balances[a] + self.balances[b] <= self.total_supply,
    {
        if self.holders().contains(a) && self.holders().contains(b) {
            lemma_sum_bounds_two(self.balances, self.holders(), a, b);
        } else {
            self.lemma_balance_within_supply(a);
            self.lemma_balance_within_supply(b);
        }
    }

    /// Minting keeps the balances adding up to the total supply.
    pub proof fn lemma_mint_conserves(self, to: Address, amount: Balance)
        requires
            self.conserved(),
        ensures
            self.mint(to, amount).conserved(),
    {
        self.lemma_set_balance(to, self.balances[to] + amount@);
    }

    /// Burning no more than the owner holds keeps the balances adding up to
    /// the total supply.
    pub proof fn lemma_burn_conserves(self, owner: Address, amount: Balance)
        requires
            self.conserved(),
            amount@ <= self.balances[owner],
        ensures
            self.burn(owner, amount).conserved(),
    {
        self.lemma_balance_within_supply(owner);
        self.lemma_set_balance(owner, (self.balances[owner] - amount@) as nat);
    }

    /// Moving no more than the sender holds keeps the balances adding up to
    /// the total supply, and leaves the total supply as it was.
    pub proof fn lemma_transfer_conserves(self, from: Address, to: Address, amount: Balance)
        requires
            self.conserved(),
            amount@ <= self.balances[from],
        ensures
            self.transfer(from, to, amount).conserved(),
            self.transfer(from, to, amount).total_supply == self.total_supply,
    {
        let mid = self.debit(from, amount@);
        self.lemma_set_balance(from, (self.balances[from] - amount@) as nat);
        mid.lemma_set_balance(to, mid.balances[to] + amount@);
    }

    /// A transfer to oneself, and a transfer of nothing, leave every balance
    /// as it was.
    pub proof fn lemma_transfer_keeps_balances(self, from: Address, to: Address, amount: Balance)
        requires
            amount@ <= self.balances[from],
            from == to || amount@ == 0,
        ensures
            forall|a: Address|
                #[trigger] self.transfer(from, to, amount).balances[a] == self.balances[a],
    {
    }

    /// Setting or spending an allowance keeps the balances adding up to the
    /// total supply.
    pub proof fn lemma_allowances_keep_balances(
        self,
        owner: Address,
        spender: Address,
        amount: Balance,
    )
        requires
            self.conserved(),
        ensures
            self.approve(owner, spender, amount).conserved(),
            self.spend_allowance(owner, spender, amount).conserved(),
    {
    }

    /// A transfer through an allowance lowers that allowance by exactly the
    /// amount moved, touches no other allowance, and keeps the balances adding
    /// up to the total supply.
    pub proof fn lemma_transfer_from_allowance(
        self,
        spender: Address,
        owner: Address,
        to: Address,
        amount: Balance,
    )
        requires
            self.conserved(),
            amount@ <= self.allowances[(owner, spender)],
            amount@ <= self.balances[owner],
        ensures
            ({
                let after = self.transfer_from(spender, owner, to, amount);
                &&& after.conserved()
                &&& after.total_supply == self.total_supply
                &&& after.allowances[(owner, spender)] + amount@ == self.allowances[(
                    owner,
                    spender,
                )]
                &&& forall|o: Address, s: Address|
                    (o, s) != (owner, spender) ==> after.allowances[(o, s)]
                        == #[trigger] self.allowances[(o, s)]
                &&& forall|o: Address, s: Address|
                    after.allowances[(o, s)] + amount@ >= #[trigger] self.allowances[(o, s)]
            }),
    {
        let mid = self.spend_allowance(owner, spender, amount);
        mid.lemma_transfer_conserves(owner, to, amount);
    }
}

/// One operation on a ledger.
pub enum Operation {
    Mint { to: Address, amount: Balance },
    Burn { owner: Address, amount: Balance },
    Transfer { from: Address, to: Address, amount: Balance },
    Approve { owner: Address, spender: Address, amount: Balance },
    TransferFrom { spender: Address, owner: Address, to: Address, amount: Balance },
}

impl LedgerView {
    /// The ledger after one operation. An operation that is refused leaves it
    /// as it was.
    pub open spec fn apply(self, op: Operation) -> LedgerView {
        match op {
            Operation::Mint { to, amount } => self.mint(to, amount),
            Operation::Burn { owner, amount } => if debit_outcome(self, owner, amount) is Ok {
                self.burn(owner, amount)
            } else {
                self
            },
            Operation::Transfer { from, to, amount } => if debit_outcome(self, from, amount)
                is Ok {
                self.transfer(from, to, amount)
            } else {
                self
            },
            Operation::Approve { owner, spender, amount } => self.approve(owner, spender, amount),
            Operation::TransferFrom { spender, owner, to, amount } => if transfer_from_outcome(
                self,
                spender,
                owner,
                amount,
            ) is Ok {
                self.transfer_from(spender, owner, to, amount)
            } else {
                self
            },
        }
    }

    /// The ledger after a sequence of operations, first to last.
    pub open spec fn apply_all(self, ops: Seq<Operation>) -> LedgerView
        decreases ops.len(),
    {
        if ops.len() == 0 {
            self
        } else {
            self.apply_all(ops.drop_last()).apply(ops.last())
        }
    }

    /// An operation keeps the balances adding up to the total supply.
    pub proof fn lemma_apply_conserves(self, op: Operation)
        requires
            self.conserved(),
        ensures
            self.apply(op).conserved(),
    {
        match op {
            Operation::Mint { to, amount } => {
                self.lemma_mint_conserves(to, amount);
            },
            Operation::Burn { owner, amount } => {
                if debit_outcome(self, owner, amount) is Ok {
                    self.lemma_burn_conserves(owner, amount);
                }
            },
            Operation::Transfer { from, to, amount } => {
                if debit_outcome(self, from, amount) is Ok {
                    self.lemma_transfer_conserves(from, to, amount);
                }
            },
            Operation::Approve { owner, spender, amount } => {
                self.lemma_allowances_keep_balances(owner, spender, amount);
            },
            Operation::TransferFrom { spender, owner, to, amount } => {
                if transfer_from_outcome(self, spender, owner, amount) is Ok {
                    self.lemma_transfer_from_allowance(spender, owner, to, amount);
                }
            },
        }
    }

    /// A sequence of operations keeps the balances adding up to the total
    /// supply.
    pub proof fn lemma_apply_all_conserves(self, ops: Seq<Operation>)
        requires
            self.conserved(),
        ensures
            self.apply_all(ops).conserved(),
        decreases ops.len(),
    {
        if ops.len() > 0 {
            self.lemma_apply_all_conserves(ops.drop_last());
            self.apply_all(ops.drop_last()).lemma_apply_conserves(ops.last());
        }
    }

    /// Whatever operations follow one another on a ledger whose balances add
    /// up to its total supply, they still do after each of them.
    pub proof fn lemma_conserved_after_every_operation(self, ops: Seq<Operation>)
        requires
            self.conserved(),
        ensures
            forall|n: int|
                0 <= n <= ops.len() ==> #[trigger] self.apply_all(ops.take(n)).conserved(),
    {
        assert forall|n: int| 0 <= n <= ops.len() implies #[trigger] self.apply_all(
            ops.take(n),
        ).conserved() by {
            self.lemma_apply_all_conserves(ops.take(n));
        }
    }
}

/// What a table holds for a key: the stored amount, or zero where the key is
/// absent.
pub open spec fn stored<K>(table: Map<K, Balance>, key: K) -> nat {
    if table.contains_key(key) {
        table[key]@
    } else {
        0
    }
}

/// The key under which the limit that `owner` sets for `spender` is kept.
pub open spec fn pair_key(owner: Address, spender: Address) -> u128 {
    (owner.id * 0x1_0000_0000_0000_0000 + spender.id) as u128
}

/// What taking `amount` from the account `from` returns: refused where the
/// account holds less.
pub open spec fn debit_outcome(ledger: LedgerView, from: Address, amount: Balance) -> Result<
    (),
    Error,
> {
    if ledger.balances[from] < amount@ {
        Err(Error::InsufficientBalance)
    } else {
        Ok(())
    }
}

/// What using up `amount` of the limit that `owner` set for `spender`
/// returns: refused where the limit is lower.
pub open spec fn allowance_outcome(
    ledger: LedgerView,
    owner: Address,
    spender: Address,
    amount: Balance,
) -> Result<(), Error> {
    if ledger.allowances[(owner, spender)] < amount@ {
        Err(Error::InsufficientAllowance)
    } else {
        Ok(())
    }
}

/// What a transfer through an allowance returns: the allowance is looked at
/// first, then the balance of the owner.
pub open spec fn transfer_from_outcome(
    ledger: LedgerView,
    spender: Address,
    owner: Address,
    amount: Balance,
) -> Result<(), Error> {
    if allowance_outcome(ledger, owner, spender, amount) is Err {
        allowance_outcome(ledger, owner, spender, amount)
    } else {
        debit_outcome(ledger, owner, amount)
    }
}

/// A fungible-token ledger.
pub struct Erc20 {
    decimals: u8,
    symbol: String,
    name: String,
    total_supply: Balance,
    balances: HashMap<u64, Balance>,
    allowances: HashMap<u128, Balance>,
    events: Vec<Event>,
}

impl View for Erc20 {
    type V = LedgerView;

    closed spec fn view(&self) -> LedgerView {
        LedgerView {
            name: self.name@,
            symbol: self.symbol@,
            decimals: self.decimals,
            total_supply: self.total_supply@,
            balances: Map::total(|a: Address| stored(self.balances@, a.id)),
            allowances: Map::total(
                |p: (Address, Address)| stored(self.allowances@, pair_key(p.0, p.1)),
            ),
            events: self.events@,
        }
    }
}

impl Erc20 {
    /// A new ledger with the given metadata. Where `initial_supply` is not
    /// zero it is minted to `caller`.
    pub fn init(
        caller: &Address,
        name: String,
        symbol: String,
        decimals: u8,
        initial_supply: &Balance,
    ) -> (r: Erc20)
        ensures
            r@.conserved(),
            initial_supply@ == 0 ==> r@ == LedgerView::fresh(name@, symbol@, decimals),
            initial_supply@ != 0 ==> r@ == LedgerView::fresh(name@, symbol@, decimals).mint(
                *caller,
                *initial_supply,
            ),
    {
        let ghost fresh = LedgerView::fresh(name@, symbol@, decimals);
        let mut ledger = Erc20 {
            decimals,
            symbol,
            name,
            total_supply: U256::zero(),
            balances: HashMap::new(),
            allowances: HashMap::new(),
            events: Vec::new(),
        };
        proof {
            assert(ledger@ =~= fresh);
            LedgerView::lemma_fresh_conserved(fresh.name, fresh.symbol, decimals);
            initial_supply.lemma_in_range();
        }
        if !initial_supply.is_zero() {
            ledger.mint(caller, initial_supply);
        }
        ledger
    }

    /// The name of the token.
    pub fn name(&self) -> (r: String)
        ensures
            r@ == self@.name,
    {
        self.name.clone()
    }

    /// The symbol of the token.
    pub fn symbol(&self) -> (r: String)
        ensures
            r@ == self@.symbol,
    {
        self.symbol.clone()
    }

    /// The number of decimal places in which amounts are shown.
    pub fn decimals(&self) -> (r: u8)
        ensures
            r == self@.decimals,
    {
        self.decimals
    }

    /// The number of tokens in existence.
    pub fn total_supply(&self) -> (r: Balance)
        ensures
            r@ == self@.total_supply,
    {
        self.total_supply
    }

    /// Moves `amount` from `caller` to `recipient`, unless `caller` holds
    /// less.
    pub fn transfer(&mut self, caller: &Address, recipient: &Address, amount: &Balance) -> (r:
        Result<(), Error>)
        requires
            old(self)@.conserved(),
        ensures
            final(self)@.conserved(),
            r == debit_outcome(old(self)@, *caller, *amount),
            r is Ok ==> final(self)@ == old(self)@.transfer(*caller, *recipient, *amount),
            r is Err ==> *final(self) == *old(self),
    {
        self.raw_transfer(caller, recipient, amount)
    }

    /// Moves `amount` from `owner` to `recipient` on behalf of `caller`, and
    /// lowers by `amount` what `owner` allows `caller`. Refused, with nothing
    /// changed, where `owner` allows `caller` less than `amount` or holds less
    /// than `amount`.
    pub fn transfer_from(
        &mut self,
        caller: &Address,
        owner: &Address,
        recipient: &Address,
        amount: &Balance,
    ) -> (r: Result<(), Error>)
        requires
            old(self)@.conserved(),
        ensures
            final(self)@.conserved(),
            r == transfer_from_outcome(old(self)@, *caller, *owner, *amount),
            r is Ok ==> final(self)@ == old(self)@.transfer_from(
                *caller,
                *owner,
                *recipient,
                *amount,
            ),
            r is Ok ==> final(self)@.allowances[(*owner, *caller)] + amount@ == old(
                self
            )@.allowances[(*owner, *caller)],
            r is Err ==> *final(self) == *old(self),
    {
        let allowance = self.allowance(owner, caller);
        if u256_lt(allowance, *amount) {
            return Err(Error::InsufficientAllowance);
        }
        let owner_balance = self.balance_of(owner);
        if u256_lt(owner_balance, *amount) {
            return Err(Error::InsufficientBalance);
        }
        proof {
            old(self)@.lemma_transfer_from_allowance(*caller, *owner, *recipient, *amount);
            old(self)@.lemma_allowances_keep_balances(*owner, *caller, *amount);
        }
        match self.spend_allowance(owner, caller, amount) {
            Ok(()) => self.raw_transfer(owner, recipient, amount),
            Err(e) => Err(e),
        }
    }

    /// Sets to `amount` what `caller` allows `spender`, whatever it was.
    pub fn approve(&mut self, caller: &Address, spender: &Address, amount: &Balance)
        requires
            old(self)@.conserved(),
        ensures
            final(self)@.conserved(),
            final(self)@ == old(self)@.approve(*caller, *spender, *amount),
    {
        self.allowances.insert(allowance_key(caller, spender), *amount);
        self.events.push(
            Event::Approval(Approval { owner: *caller, spender: *spender, value: *amount }),
        );
        proof {
            lemma_pair_key_injective();
            assert(self@ =~= old(self)@.approve(*caller, *spender, *amount));
        }
    }

    /// What `address` holds; zero for an account that the ledger never saw.
    pub fn balance_of(&self, address: &Address) -> (r: Balance)
        ensures
            r@ == self@.balances[*address],
    {
        match self.balances.get(&address.id) {
            Some(balance) => *balance,
            None => U256::zero(),
        }
    }

    /// What `owner` allows `spender`; zero where nothing was ever approved.
    pub fn allowance(&self, owner: &Address, spender: &Address) -> (r: Balance)
        ensures
            r@ == self@.allowances[(*owner, *spender)],
    {
        let key = allowance_key(owner, spender);
        match self.allowances.get(&key) {
            Some(limit) => *limit,
            None => U256::zero(),
        }
    }

    /// Whether the total supply with `amount` more tokens stays within 256
    /// bits, which is what `mint` asks for.
    pub fn mint_fits(&self, amount: &Balance) -> (r: bool)
        ensures
            r == (self@.total_supply + amount@ <= u256_max()),
    {
        self.total_supply.sum_fits(amount)
    }

    /// Creates `amount` new tokens on the account `address`. The total supply
    /// has to stay within 256 bits; `mint_fits` tells whether it does.
    pub fn mint(&mut self, address: &Address, amount: &Balance)
        requires
            old(self)@.conserved(),
            old(self)@.total_supply + amount@ <= u256_max(),
        ensures
            final(self)@.conserved(),
            final(self)@ == old(self)@.mint(*address, *amount),
    {
        let balance = self.balance_of(address);
        proof {
            old(self)@.lemma_balance_within_supply(*address);
            old(self)@.lemma_mint_conserves(*address, *amount);
        }
        self.balances.insert(address.id, u256_add(balance, *amount));
        self.total_supply = u256_add(self.total_supply, *amount);
        self.events.push(
            Event::Transfer(Transfer { from: None, to: Some(*address), amount: *amount }),
        );
        proof {
            assert(self@ =~= old(self)@.mint(*address, *amount));
        }
    }

    /// Destroys `amount` tokens of `owner`, unless `owner` holds less.
    pub fn burn(&mut self, owner: &Address, amount: &Balance) -> (r: Result<(), Error>)
        requires
            old(self)@.conserved(),
        ensures
            final(self)@.conserved(),
            r == debit_outcome(old(self)@, *owner, *amount),
            r is Ok ==> final(self)@ == old(self)@.burn(*owner, *amount),
            r is Err ==> *final(self) == *old(self),
    {
        let balance = self.balance_of(owner);
        if u256_lt(balance, *amount) {
            return Err(Error::InsufficientBalance);
        }
        proof {
            old(self)@.lemma_balance_within_supply(*owner);
            old(self)@.lemma_burn_conserves(*owner, *amount);
        }
        self.balances.insert(owner.id, u256_sub(balance, *amount));
        self.total_supply = u256_sub(self.total_supply, *amount);
        self.events.push(
            Event::Transfer(Transfer { from: Some(*owner), to: None, amount: *amount }),
        );
        proof {
            assert(self@ =~= old(self)@.burn(*owner, *amount));
        }
        Ok(())
    }

    /// The events of the operations so far, oldest first.
    pub fn events(&self) -> (r: &Vec<Event>)
        ensures
            r@ == self@.events,
    {
        &self.events
    }

    /// Hands out the events of the operations so far, oldest first, and
    /// empties the log.
    pub fn take_events(&mut self) -> (r: Vec<Event>)
        ensures
            r@ == old(self)@.events,
            final(self)@ == old(self)@.without_events(),
            old(self)@.conserved() ==> final(self)@.conserved(),
    {
        let mut taken: Vec<Event> = Vec::new();
        std::mem::swap(&mut self.events, &mut taken);
        proof {
            assert(self@ =~= old(self)@.without_events());
        }
        taken
    }

    fn raw_transfer(&mut self, owner: &Address, recipient: &Address, amount: &Balance) -> (r:
        Result<(), Error>)
        requires
            old(self)@.conserved(),
        ensures
            final(self)@.conserved(),
            r == debit_outcome(old(self)@, *owner, *amount),
            r is Ok ==> final(self)@ == old(self)@.transfer(*owner, *recipient, *amount),
            r is Err ==> *final(self) == *old(self),
    {
        let owner_balance = self.balance_of(owner);
        if u256_lt(owner_balance, *amount) {
            return Err(Error::InsufficientBalance);
        }
        self.balances.insert(owner.id, u256_sub(owner_balance, *amount));
        let recipient_balance = self.balance_of(recipient);
        proof {
            old(self)@.lemma_transfer_conserves(*owner, *recipient, *amount);
            if *owner != *recipient {
                old(self)@.lemma_two_balances_within_supply(*owner, *recipient);
            } else {
                old(self)@.lemma_balance_within_supply(*owner);
            }
            self.total_supply.lemma_in_range();
        }
        self.balances.insert(recipient.id, u256_add(recipient_balance, *amount));
        self.events.push(
            Event::Transfer(
                Transfer { from: Some(*owner), to: Some(*recipient), amount: *amount },
            ),
        );
        proof {
            assert(self@ =~= old(self)@.transfer(*owner, *recipient, *amount));
        }
        Ok(())
    }

    fn spend_allowance(&mut self, owner: &Address, spender: &Address, amount: &Balance) -> (r:
        Result<(), Error>)
        ensures
            r == allowance_outcome(old(self)@, *owner, *spender, *amount),
            r is Ok ==> final(self)@ == old(self)@.spend_allowance(*owner, *spender, *amount),
            r is Err ==> *final(self) == *old(self),
    {
        let allowance = self.allowance(owner, spender);
        if u256_lt(allowance, *amount) {
            return Err(Error::InsufficientAllowance);
        }
        let new_allowance = u256_sub(allowance, *amount);
        self.allowances.insert(allowance_key(owner, spender), new_allowance);
        self.events.push(
            Event::Approval(Approval { owner: *owner, spender: *spender, value: new_allowance }),
        );
        proof {
            lemma_pair_key_injective();
            new_allowance.lemma_from_nat_of_view();
            assert(self@ =~= old(self)@.spend_allowance(*owner, *spender, *amount));
        }
        Ok(())
    }
}

/// Different pairs of accounts have different keys.
proof fn lemma_pair_key_injective()
    ensures
        forall|o1: Address, s1: Address, o2: Address, s2: Address|
            #[trigger] pair_key(o1, s1) == #[trigger] pair_key(o2, s2) ==> o1 == o2 && s1 == s2,
{
}

/// The key under which the limit that `owner` sets for `spender` is kept.
fn allowance_key(owner: &Address, spender: &Address) -> (k: u128)
    ensures
        k == pair_key(*owner, *spender),
{
    (owner.id as u128) * 0x1_0000_0000_0000_0000u128 + (spender.id as u128)
}

} // verus!
