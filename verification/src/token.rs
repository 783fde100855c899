//! The token ledger: balances, allowances with expiration, and total supply.
//!
//! [`TokenState`] is the ledger as a mathematical value, and its spec
//! functions say what every operation does to it. [`TokenContract`] is the
//! executable ledger; each of its operations is proved to take the same step
//! as the spec function of the same name.

use crate::sum::{amount_of, amounts, collect, credit, lemma_total_bounds, lemma_total_credit, lemma_total_empty, non_negative, recorded, total};
use crate::types::{Address, Context, ContractError};
use std::collections::HashMap;
use vstd::prelude::*;

verus! {

broadcast use vstd::std_specs::hash::group_hash_axioms;

/// A spending limit that an owner grants a spender.
#[derive(Clone, Copy, Debug, PartialEq, Eq, Structural)]
pub struct Allowance {
    /// What the spender may still spend.
    pub amount: i128,
    /// The last ledger sequence at which the allowance is valid.
    pub expiration_ledger: u32,
}

/// What the ledger reports of a completed operation.
#[derive(Clone, Copy, Debug, PartialEq, Eq, Structural)]
pub enum TokenEvent {
    Mint { to: Address, amount: i128 },
    Burn { from: Address, amount: i128 },
    Transfer { from: Address, to: Address, amount: i128 },
    Approve { from: Address, spender: Address, amount: i128, expiration_ledger: u32 },
}

/// The ledger as a mathematical value.
pub struct TokenState {
    /// The identity that may mint and reassign the admin; `None` until
    /// `initialize` has run.
    pub admin: Option<Address>,
    pub decimals: u32,
    pub name: Seq<char>,
    pub symbol: Seq<char>,
    pub total_supply: int,
    /// The recorded balances. An identity without a record holds zero.
    pub balances: Map<Address, int>,
    /// The recorded allowances, by owner and spender.
    pub allowances: Map<(Address, Address), Allowance>,
    /// The events of all completed operations, oldest first.
    pub events: Seq<TokenEvent>,
}

impl TokenState {
    /// A ledger that has never been touched.
    pub open spec fn empty() -> TokenState {
        TokenState {
            admin: None,
            decimals: 7,
            name: "Stellar Swap Token"@,
            symbol: "SST"@,
            total_supply: 0,
            balances: Map::empty(),
            allowances: Map::empty(),
            events: Seq::empty(),
        }
    }

    /// The ledger's invariant: no balance is negative, and the total supply
    /// is the sum of all balances.
    pub open spec fn wf(self) -> bool {
        &&& self.balances.dom().finite()
        &&& non_negative(self.balances)
        &&& self.total_supply == total(self.balances)
        &&& self.total_supply <= i128::MAX
        &&& self.admin is None ==> self.total_supply == 0
    }

    /// The balance of `id`.
    pub open spec fn balance(self, id: Address) -> int {
        amount_of(self.balances, id)
    }

    /// An allowance from `from` to `spender` is recorded and has not expired
    /// at ledger sequence `sequence`.
    pub open spec fn allowance_is_live(self, sequence: u32, from: Address, spender: Address) -> bool {
        self.allowances.contains_key((from, spender)) && self.allowances[(
            from,
            spender,
        )].expiration_ledger >= sequence
    }

    /// What `spender` may spend of `from`'s balance at ledger sequence
    /// `sequence`: zero where no allowance is recorded or it has expired.
    pub open spec fn allowance(self, sequence: u32, from: Address, spender: Address) -> int {
        if self.allowance_is_live(sequence, from, spender) {
            self.allowances[(from, spender)].amount as int
        } else {
            0
        }
    }

    /// The allowances after `spender` has spent `amount` of what `from`
    /// granted. The expiration stays as it was.
    pub open spec fn spend(self, sequence: u32, from: Address, spender: Address, amount: int) -> Map<
        (Address, Address),
        Allowance,
    > {
        if self.allowance_is_live(sequence, from, spender) {
            let granted = self.allowances[(from, spender)];
            self.allowances.insert(
                (from, spender),
                Allowance {
                    amount: (granted.amount - amount) as i128,
                    expiration_ledger: granted.expiration_ledger,
                },
            )
        } else {
            self.allowances
        }
    }

    /// The ledger that persisted records describe: `None` where the
    /// balances describe no record, or where there is supply without an
    /// admin. No event is pending on it.
    pub open spec fn restored(
        admin: Option<Address>,
        decimals: u32,
        name: Seq<char>,
        symbol: Seq<char>,
        balances: Seq<(Address, i128)>,
        allowances: Seq<(Address, Address, Allowance)>,
    ) -> Option<TokenState> {
        match recorded(balances) {
            None => None,
            Some(m) => if admin is None && total(m) != 0 {
                None
            } else {
                Some(
                    TokenState {
                        admin,
                        decimals,
                        name,
                        symbol,
                        total_supply: total(m),
                        balances: m,
                        allowances: granted(allowances),
                        events: Seq::empty(),
                    },
                )
            },
        }
    }

    /// `initialize`: fails once an admin is set; else records the admin and
    /// the metadata and sets the supply to zero.
    pub open spec fn initialize(
        self,
        admin: Address,
        decimals: u32,
        name: Seq<char>,
        symbol: Seq<char>,
    ) -> Result<TokenState, ContractError> {
        if self.admin is Some {
            Err(ContractError::AlreadyInitialized)
        } else {
            Ok(TokenState { admin: Some(admin), decimals, name, symbol, total_supply: 0, ..self })
        }
    }

    /// `mint`: only the admin may call it, and the amount must be positive.
    /// It adds `amount` to the balance of `to` and to the total supply.
    pub open spec fn mint(self, ctx: Context, to: Address, amount: i128) -> Result<
        TokenState,
        ContractError,
    > {
        if self.admin is None {
            Err(ContractError::NotInitialized)
        } else if ctx.caller != self.admin->Some_0 {
            Err(ContractError::Unauthorized)
        } else if amount <= 0 {
            Err(ContractError::NonPositiveAmount)
        } else if self.total_supply + amount > i128::MAX {
            Err(ContractError::ArithmeticOverflow)
        } else {
            Ok(
                TokenState {
                    total_supply: self.total_supply + amount,
                    balances: credit(self.balances, to, amount as int),
                    events: self.events.push(TokenEvent::Mint { to, amount }),
                    ..self
                },
            )
        }
    }

    /// `burn`: the caller must be `from`, the amount positive and covered by
    /// the balance. It takes `amount` from the balance and the total supply.
    pub open spec fn burn(self, ctx: Context, from: Address, amount: i128) -> Result<
        TokenState,
        ContractError,
    > {
        if ctx.caller != from {
            Err(ContractError::Unauthorized)
        } else if amount <= 0 {
            Err(ContractError::NonPositiveAmount)
        } else if self.balance(from) < amount {
            Err(ContractError::InsufficientBalance)
        } else {
            Ok(
                TokenState {
                    total_supply: self.total_supply - amount,
                    balances: credit(self.balances, from, -(amount as int)),
                    events: self.events.push(TokenEvent::Burn { from, amount }),
                    ..self
                },
            )
        }
    }

    /// `burn_from`: the caller must be `spender`, and both the live
    /// allowance and the balance of `from` must cover the amount. It spends
    /// the allowance, then takes `amount` from the balance and the supply.
    /// A negative amount is refused: it would raise the allowance.
    pub open spec fn burn_from(self, ctx: Context, spender: Address, from: Address, amount: i128) -> Result<
        TokenState,
        ContractError,
    > {
        if ctx.caller != spender {
            Err(ContractError::Unauthorized)
        } else if amount < 0 {
            Err(ContractError::NegativeAmount)
        } else if self.allowance(ctx.sequence, from, spender) < amount {
            Err(ContractError::InsufficientAllowance)
        } else if self.balance(from) < amount {
            Err(ContractError::InsufficientBalance)
        } else {
            Ok(
                TokenState {
                    total_supply: self.total_supply - amount,
                    balances: credit(self.balances, from, -(amount as int)),
                    allowances: self.spend(ctx.sequence, from, spender, amount as int),
                    events: self.events.push(TokenEvent::Burn { from, amount }),
                    ..self
                },
            )
        }
    }

    /// `transfer`: the caller must be `from`, the amount positive and
    /// covered by the balance. It moves `amount` from `from` to `to`.
    pub open spec fn transfer(self, ctx: Context, from: Address, to: Address, amount: i128) -> Result<
        TokenState,
        ContractError,
    > {
        if ctx.caller != from {
            Err(ContractError::Unauthorized)
        } else if amount <= 0 {
            Err(ContractError::NonPositiveAmount)
        } else if self.balance(from) < amount {
            Err(ContractError::InsufficientBalance)
        } else {
            Ok(
                TokenState {
                    balances: credit(
                        credit(self.balances, from, -(amount as int)),
                        to,
                        amount as int,
                    ),
                    events: self.events.push(TokenEvent::Transfer { from, to, amount }),
                    ..self
                },
            )
        }
    }

    /// `transfer_from`: the caller must be `spender`, and both the live
    /// allowance and the balance of `from` must cover the amount. It spends
    /// the allowance, then moves `amount` from `from` to `to`.
    /// A negative amount is refused: it would raise the allowance and could
    /// leave `to` with a negative balance.
    pub open spec fn transfer_from(
        self,
        ctx: Context,
        spender: Address,
        from: Address,
        to: Address,
        amount: i128,
    ) -> Result<TokenState, ContractError> {
        if ctx.caller != spender {
            Err(ContractError::Unauthorized)
        } else if amount < 0 {
            Err(ContractError::NegativeAmount)
        } else if self.allowance(ctx.sequence, from, spender) < amount {
            Err(ContractError::InsufficientAllowance)
        } else if self.balance(from) < amount {
            Err(ContractError::InsufficientBalance)
        } else {
            Ok(
                TokenState {
                    balances: credit(
                        credit(self.balances, from, -(amount as int)),
                        to,
                        amount as int,
                    ),
                    allowances: self.spend(ctx.sequence, from, spender, amount as int),
                    events: self.events.push(TokenEvent::Transfer { from, to, amount }),
                    ..self
                },
            )
        }
    }

    /// `approve`: the caller must be `from`, and the expiration must lie
    /// after the current ledger sequence. It overwrites the allowance and its
    /// expiration.
    pub open spec fn approve(
        self,
        ctx: Context,
        from: Address,
        spender: Address,
        amount: i128,
        expiration_ledger: u32,
    ) -> Result<TokenState, ContractError> {
        if ctx.caller != from {
            Err(ContractError::Unauthorized)
        } else if expiration_ledger <= ctx.sequence {
            Err(ContractError::ExpirationNotInFuture)
        } else {
            Ok(
                TokenState {
                    allowances: self.allowances.insert(
                        (from, spender),
                        Allowance { amount, expiration_ledger },
                    ),
                    events: self.events.push(
                        TokenEvent::Approve { from, spender, amount, expiration_ledger },
                    ),
                    ..self
                },
            )
        }
    }

    /// `set_admin`: only the current admin may name a new one.
    pub open spec fn set_admin(self, ctx: Context, new_admin: Address) -> Result<
        TokenState,
        ContractError,
    > {
        if self.admin is None {
            Err(ContractError::NotInitialized)
        } else if ctx.caller != self.admin->Some_0 {
            Err(ContractError::Unauthorized)
        } else {
            Ok(TokenState { admin: Some(new_admin), ..self })
        }
    }

    /// Every operation that completes on a valid ledger leaves a valid
    /// ledger: the total supply is still the sum of the balances, and no
    /// balance is negative.
    pub proof fn lemma_steps_preserve_wf(
        self,
        ctx: Context,
        a: Address,
        b: Address,
        c: Address,
        amount: i128,
        expiration_ledger: u32,
        decimals: u32,
        name: Seq<char>,
        symbol: Seq<char>,
    )
        requires
            self.wf(),
        ensures
            self.initialize(a, decimals, name, symbol) matches Ok(next) ==> next.wf(),
            self.mint(ctx, a, amount) matches Ok(next) ==> next.wf(),
            self.burn(ctx, a, amount) matches Ok(next) ==> next.wf(),
            self.burn_from(ctx, a, b, amount) matches Ok(next) ==> next.wf(),
            self.transfer(ctx, a, b, amount) matches Ok(next) ==> next.wf(),
            self.transfer_from(ctx, a, b, c, amount) matches Ok(next) ==> next.wf(),
            self.approve(ctx, a, b, amount, expiration_ledger) matches Ok(next) ==> next.wf(),
            self.set_admin(ctx, a) matches Ok(next) ==> next.wf(),
    {
        let x = amount as int;
        lemma_total_credit(self.balances, a, x);
        lemma_total_credit(self.balances, a, -x);
        lemma_total_credit(self.balances, b, -x);
        lemma_total_bounds(self.balances, a);
        lemma_total_bounds(self.balances, b);
        lemma_total_credit(credit(self.balances, a, -x), b, x);
        lemma_total_credit(credit(self.balances, b, -x), c, x);
        if self.burn(ctx, a, amount) is Ok {
            lemma_total_bounds(credit(self.balances, a, -x), a);
        }
    }

    /// Spending lowers an allowance and never raises one: a `transfer_from`
    /// or `burn_from` that completes takes exactly the amount off the live
    /// allowance from `from` to `spender` and leaves every other recorded
    /// allowance as it was.
    pub proof fn lemma_spend_lowers_allowance(
        self,
        ctx: Context,
        spender: Address,
        from: Address,
        to: Address,
        amount: i128,
    )
        ensures
            self.transfer_from(ctx, spender, from, to, amount) matches Ok(next) ==> {
                &&& next.allowance(ctx.sequence, from, spender) == self.allowance(
                    ctx.sequence,
                    from,
                    spender,
                ) - amount
                &&& next.allowance(ctx.sequence, from, spender) <= self.allowance(
                    ctx.sequence,
                    from,
                    spender,
                )
                &&& forall|o: Address, s: Address|
                    (o, s) != (from, spender) ==> next.allowances.contains_key((o, s))
                        == self.allowances.contains_key((o, s)) && next.allowances[(o, s)]
                        == self.allowances[(o, s)]
            },
            self.burn_from(ctx, spender, from, amount) matches Ok(next) ==> {
                &&& next.allowance(ctx.sequence, from, spender) == self.allowance(
                    ctx.sequence,
                    from,
                    spender,
                ) - amount
                &&& next.allowance(ctx.sequence, from, spender) <= self.allowance(
                    ctx.sequence,
                    from,
                    spender,
                )
                &&& forall|o: Address, s: Address|
                    (o, s) != (from, spender) ==> next.allowances.contains_key((o, s))
                        == self.allowances.contains_key((o, s)) && next.allowances[(o, s)]
                        == self.allowances[(o, s)]
            },
    {
    }

    /// A transfer moves value and neither makes nor destroys it: the total
    /// supply is unchanged, and where payer and payee differ the payer loses
    /// what the payee gains.
    pub proof fn lemma_transfer_conserves(self, ctx: Context, from: Address, to: Address, amount: i128)
        requires
            self.wf(),
            self.transfer(ctx, from, to, amount) is Ok,
        ensures
            ({
                let next = self.transfer(ctx, from, to, amount)->Ok_0;
                &&& next.total_supply == self.total_supply
                &&& from != to ==> next.balance(from) == self.balance(from) - amount
                &&& from != to ==> next.balance(to) == self.balance(to) + amount
                &&& from == to ==> next.balance(from) == self.balance(from)
                &&& forall|id: Address| id != from && id != to ==> next.balance(id) == self.balance(id)
            }),
    {
    }
}

/// The allowances that a list of persisted entries describes, each given by
/// owner, spender and allowance. Of two entries for one pair the later
/// counts.
pub open spec fn granted(entries: Seq<(Address, Address, Allowance)>) -> Map<
    (Address, Address),
    Allowance,
>
    decreases entries.len(),
{
    if entries.len() == 0 {
        Map::empty()
    } else {
        granted(entries.drop_last()).insert((entries.last().0, entries.last().1), entries.last().2)
    }
}

/// The key under which the allowance from `owner` to `spender` is stored.
pub open spec fn pair_key(owner: Address, spender: Address) -> u128 {
    (owner as u128 * 0x1_0000_0000_0000_0000 + spender as u128) as u128
}

/// The token ledger.
pub struct TokenContract {
    admin: Option<Address>,
    decimals: u32,
    name: String,
    symbol: String,
    total_supply: i128,
    balances: HashMap<Address, i128>,
    allowances: HashMap<u128, Allowance>,
    events: Vec<TokenEvent>,
}

impl View for TokenContract {
    type V = TokenState;

    closed spec fn view(&self) -> TokenState {
        TokenState {
            admin: self.admin,
            decimals: self.decimals,
            name: self.name@,
            symbol: self.symbol@,
            total_supply: self.total_supply as int,
            balances: amounts(self.balances@),
            allowances: Map::new(
                |p: (Address, Address)| self.allowances@.contains_key(pair_key(p.0, p.1)),
                |p: (Address, Address)| self.allowances@[pair_key(p.0, p.1)],
            ),
            events: self.events@,
        }
    }
}

impl TokenContract {
    /// A ledger that has never been touched: no admin, the default
    /// metadata, no balance and no allowance.
    pub fn new() -> (r: TokenContract)
        ensures
            r@ == TokenState::empty(),
            r@.wf(),
    {
        let r = TokenContract {
            admin: None,
            decimals: 7,
            name: "Stellar Swap Token".to_owned(),
            symbol: "SST".to_owned(),
            total_supply: 0,
            balances: HashMap::new(),
            allowances: HashMap::new(),
            events: Vec::new(),
        };
        proof {
            lemma_total_empty();
            assert(r@.balances =~= Map::<Address, int>::empty());
            assert(r@.allowances =~= Map::<(Address, Address), Allowance>::empty());
            assert(r@.events =~= Seq::<TokenEvent>::empty());
        }
        r
    }

    /// Rebuilds a ledger from persisted records: the admin and metadata, a
    /// balance per identity, and the allowances by owner and spender. The
    /// total supply is the sum of the balances.
    pub fn restore(
        admin: Option<Address>,
        decimal: u32,
        name: String,
        symbol: String,
        balances: &Vec<(Address, i128)>,
        allowances: &Vec<(Address, Address, Allowance)>,
    ) -> (r: Option<TokenContract>)
        ensures
            match TokenState::restored(admin, decimal, name@, symbol@, balances@, allowances@) {
                Some(state) => r matches Some(ledger) && ledger@ == state && state.wf(),
                None => r is None,
            },
    {
        let (stored, supply): (HashMap<Address, i128>, i128) = match collect(balances) {
            Some(v) => v,
            None => {
                return None;
            },
        };
        if admin.is_none() && supply != 0 {
            return None;
        }
        let ghost target = TokenState::restored(
            admin,
            decimal,
            name@,
            symbol@,
            balances@,
            allowances@,
        )->Some_0;
        let mut ledger = TokenContract {
            admin,
            decimals: decimal,
            name,
            symbol,
            total_supply: supply,
            balances: stored,
            allowances: HashMap::new(),
            events: Vec::new(),
        };
        let mut i: usize = 0;
        proof {
            assert(allowances@.take(0) =~= Seq::<(Address, Address, Allowance)>::empty());
            assert(ledger@.allowances =~= granted(allowances@.take(0)));
            assert(ledger@.events =~= Seq::<TokenEvent>::empty());
        }
        while i < allowances.len()
            invariant
                i <= allowances.len(),
                target.allowances == granted(allowances@),
                ledger@ == (TokenState {
                    allowances: granted(allowances@.take(i as int)),
                    ..target
                }),
            decreases allowances.len() - i,
        {
            let (owner, spender, allowance): (Address, Address, Allowance) = allowances[i];
            let ghost before = ledger@;
            ledger.allowances.insert(key_of(owner, spender), allowance);
            proof {
                lemma_pair_key_injective();
                assert(allowances@.take(i + 1).drop_last() =~= allowances@.take(i as int));
                assert(ledger@.allowances =~= before.allowances.insert((owner, spender), allowance));
            }
            i = i + 1;
        }
        proof {
            assert(allowances@.take(i as int) =~= allowances@);
        }
        Some(ledger)
    }

    /// The allowance recorded from `from` to `spender`, expired or not.
    pub fn allowance_record(&self, from: Address, spender: Address) -> (r: Option<Allowance>)
        ensures
            r == (if self@.allowances.contains_key((from, spender)) {
                Some(self@.allowances[(from, spender)])
            } else {
                None
            }),
    {
        match self.allowances.get(&key_of(from, spender)) {
            Some(a) => Some(*a),
            None => None,
        }
    }

    /// Records the admin and the metadata, once.
    pub fn initialize(&mut self, admin: Address, decimal: u32, name: String, symbol: String) -> (r:
        Result<(), ContractError>)
        requires
            old(self)@.wf(),
        ensures
            final(self)@.wf(),
            match old(self)@.initialize(admin, decimal, name@, symbol@) {
                Ok(next) => r is Ok && final(self)@ == next,
                Err(e) => r == Err::<(), ContractError>(e) && final(self)@ == old(self)@,
            },
    {
        if self.admin.is_some() {
            return Err(ContractError::AlreadyInitialized);
        }
        self.admin = Some(admin);
        self.name = name;
        self.symbol = symbol;
        self.decimals = decimal;
        self.total_supply = 0;
        Ok(())
    }

    /// The balance of `id`: zero where none is recorded.
    pub fn balance(&self, id: Address) -> (r: i128)
        ensures
            r == self@.balance(id),
    {
        match self.balances.get(&id) {
            Some(v) => *v,
            None => 0,
        }
    }

    /// Adds `delta` to the recorded balance of `id`.
    fn credit_balance(&mut self, id: Address, delta: i128)
        requires
            i128::MIN <= old(self)@.balance(id) + delta <= i128::MAX,
        ensures
            final(self)@ == (TokenState { balances: credit(old(self)@.balances, id, delta as int), ..old(self)@ }),
    {
        let balance: i128 = self.balance(id);
        self.balances.insert(id, balance + delta);
        assert(self@.balances =~= credit(old(self)@.balances, id, delta as int));
    }

    /// Mints `amount` new tokens to `to`.
    pub fn mint(&mut self, ctx: &Context, to: Address, amount: i128) -> (r: Result<(), ContractError>)
        requires
            old(self)@.wf(),
        ensures
            final(self)@.wf(),
            match old(self)@.mint(*ctx, to, amount) {
                Ok(next) => r is Ok && final(self)@ == next,
                Err(e) => r == Err::<(), ContractError>(e) && final(self)@ == old(self)@,
            },
    {
        let admin: Address = match self.admin {
            Some(a) => a,
            None => {
                return Err(ContractError::NotInitialized);
            },
        };
        if ctx.caller != admin {
            return Err(ContractError::Unauthorized);
        }
        if amount <= 0 {
            return Err(ContractError::NonPositiveAmount);
        }
        let supply: i128 = match self.total_supply.checked_add(amount) {
            Some(v) => v,
            None => {
                return Err(ContractError::ArithmeticOverflow);
            },
        };
        proof {
            lemma_total_bounds(self@.balances, to);
            self@.lemma_steps_preserve_wf(*ctx, to, to, to, amount, 0, 0, Seq::empty(), Seq::empty());
        }
        self.credit_balance(to, amount);
        self.total_supply = supply;
        self.events.push(TokenEvent::Mint { to, amount });
        Ok(())
    }

    /// Whether `burn` would complete, and if not, why not.
    fn check_burn(&self, ctx: &Context, from: Address, amount: i128) -> (r: Result<(), ContractError>)
        ensures
            match self@.burn(*ctx, from, amount) {
                Ok(_) => r is Ok,
                Err(e) => r == Err::<(), ContractError>(e),
            },
    {
        if ctx.caller != from {
            return Err(ContractError::Unauthorized);
        }
        if amount <= 0 {
            return Err(ContractError::NonPositiveAmount);
        }
        if self.balance(from) < amount {
            return Err(ContractError::InsufficientBalance);
        }
        Ok(())
    }

    /// Burns `amount` of the caller's own tokens.
    pub fn burn(&mut self, ctx: &Context, from: Address, amount: i128) -> (r: Result<(), ContractError>)
        requires
            old(self)@.wf(),
        ensures
            final(self)@.wf(),
            match old(self)@.burn(*ctx, from, amount) {
                Ok(next) => r is Ok && final(self)@ == next,
                Err(e) => r == Err::<(), ContractError>(e) && final(self)@ == old(self)@,
            },
    {
        match self.check_burn(ctx, from, amount) {
            Ok(()) => {},
            Err(e) => {
                return Err(e);
            },
        }
        proof {
            lemma_total_bounds(self@.balances, from);
            self@.lemma_steps_preserve_wf(*ctx, from, from, from, amount, 0, 0, Seq::empty(), Seq::empty());
        }
        self.credit_balance(from, -amount);
        self.total_supply = self.total_supply - amount;
        self.events.push(TokenEvent::Burn { from, amount });
        Ok(())
    }

    /// Whether a spender may take `amount` from `from`, and if not, why not.
    fn check_spend(&self, ctx: &Context, spender: Address, from: Address, amount: i128) -> (r: Result<
        (),
        ContractError,
    >)
        ensures
            r == (if ctx.caller != spender {
                Err::<(), ContractError>(ContractError::Unauthorized)
            } else if amount < 0 {
                Err(ContractError::NegativeAmount)
            } else if self@.allowance(ctx.sequence, from, spender) < amount {
                Err(ContractError::InsufficientAllowance)
            } else if self@.balance(from) < amount {
                Err(ContractError::InsufficientBalance)
            } else {
                Ok(())
            }),
    {
        if ctx.caller != spender {
            return Err(ContractError::Unauthorized);
        }
        if amount < 0 {
            return Err(ContractError::NegativeAmount);
        }
        if self.allowance(ctx, from, spender) < amount {
            return Err(ContractError::InsufficientAllowance);
        }
        if self.balance(from) < amount {
            return Err(ContractError::InsufficientBalance);
        }
        Ok(())
    }

    /// Takes `amount` off the live allowance from `from` to `spender`.
    fn spend_allowance(&mut self, sequence: u32, from: Address, spender: Address, amount: i128)
        requires
            0 <= amount <= old(self)@.allowance(sequence, from, spender),
        ensures
            final(self)@ == (TokenState {
                allowances: old(self)@.spend(sequence, from, spender, amount as int),
                ..old(self)@
            }),
    {
        let key: u128 = key_of(from, spender);
        let granted: Option<Allowance> = match self.allowances.get(&key) {
            Some(a) => Some(*a),
            None => None,
        };
        match granted {
            Some(a) => {
                if a.expiration_ledger >= sequence {
                    self.allowances.insert(
                        key,
                        Allowance { amount: a.amount - amount, expiration_ledger: a.expiration_ledger },
                    );
                }
            },
            None => {},
        }
        proof {
            lemma_pair_key_injective();
            assert(self@.allowances =~= old(self)@.spend(sequence, from, spender, amount as int));
        }
    }

    /// Burns `amount` of `from`'s tokens on the strength of an allowance.
    pub fn burn_from(&mut self, ctx: &Context, spender: Address, from: Address, amount: i128) -> (r:
        Result<(), ContractError>)
        requires
            old(self)@.wf(),
        ensures
            final(self)@.wf(),
            match old(self)@.burn_from(*ctx, spender, from, amount) {
                Ok(next) => r is Ok && final(self)@ == next,
                Err(e) => r == Err::<(), ContractError>(e) && final(self)@ == old(self)@,
            },
    {
        match self.check_spend(ctx, spender, from, amount) {
            Ok(()) => {},
            Err(e) => {
                return Err(e);
            },
        }
        proof {
            lemma_total_bounds(self@.balances, from);
            self@.lemma_steps_preserve_wf(*ctx, spender, from, from, amount, 0, 0, Seq::empty(), Seq::empty());
        }
        self.spend_allowance(ctx.sequence, from, spender, amount);
        self.credit_balance(from, -amount);
        self.total_supply = self.total_supply - amount;
        self.events.push(TokenEvent::Burn { from, amount });
        Ok(())
    }

    /// Whether `transfer` would complete, and if not, why not.
    pub(crate) fn check_transfer(&self, ctx: &Context, from: Address, to: Address, amount: i128) -> (r:
        Result<(), ContractError>)
        ensures
            match self@.transfer(*ctx, from, to, amount) {
                Ok(_) => r is Ok,
                Err(e) => r == Err::<(), ContractError>(e),
            },
    {
        self.check_burn(ctx, from, amount)
    }

    /// Moves `amount` from `from` to `to`.
    fn move_balance(&mut self, from: Address, to: Address, amount: i128)
        requires
            old(self)@.wf(),
            0 <= amount <= old(self)@.balance(from),
        ensures
            final(self)@ == (TokenState {
                balances: credit(
                    credit(old(self)@.balances, from, -(amount as int)),
                    to,
                    amount as int,
                ),
                ..old(self)@
            }),
    {
        proof {
            lemma_total_bounds(self@.balances, from);
            lemma_total_credit(self@.balances, from, -(amount as int));
            lemma_total_bounds(credit(self@.balances, from, -(amount as int)), to);
        }
        self.credit_balance(from, -amount);
        self.credit_balance(to, amount);
    }

    /// Moves `amount` of the caller's own tokens to `to`.
    pub fn transfer(&mut self, ctx: &Context, from: Address, to: Address, amount: i128) -> (r: Result<
        (),
        ContractError,
    >)
        requires
            old(self)@.wf(),
        ensures
            final(self)@.wf(),
            match old(self)@.transfer(*ctx, from, to, amount) {
                Ok(next) => r is Ok && final(self)@ == next,
                Err(e) => r == Err::<(), ContractError>(e) && final(self)@ == old(self)@,
            },
    {
        match self.check_transfer(ctx, from, to, amount) {
            Ok(()) => {},
            Err(e) => {
                return Err(e);
            },
        }
        proof {
            self@.lemma_steps_preserve_wf(*ctx, from, to, to, amount, 0, 0, Seq::empty(), Seq::empty());
        }
        self.move_balance(from, to, amount);
        self.events.push(TokenEvent::Transfer { from, to, amount });
        Ok(())
    }

    /// Whether `transfer_from` would complete, and if not, why not.
    pub(crate) fn check_transfer_from(
        &self,
        ctx: &Context,
        spender: Address,
        from: Address,
        to: Address,
        amount: i128,
    ) -> (r: Result<(), ContractError>)
        ensures
            match self@.transfer_from(*ctx, spender, from, to, amount) {
                Ok(_) => r is Ok,
                Err(e) => r == Err::<(), ContractError>(e),
            },
    {
        self.check_spend(ctx, spender, from, amount)
    }

    /// Moves `amount` of `from`'s tokens to `to` on the strength of an
    /// allowance.
    pub fn transfer_from(
        &mut self,
        ctx: &Context,
        spender: Address,
        from: Address,
        to: Address,
        amount: i128,
    ) -> (r: Result<(), ContractError>)
        requires
            old(self)@.wf(),
        ensures
            final(self)@.wf(),
            match old(self)@.transfer_from(*ctx, spender, from, to, amount) {
                Ok(next) => r is Ok && final(self)@ == next,
                Err(e) => r == Err::<(), ContractError>(e) && final(self)@ == old(self)@,
            },
    {
        match self.check_transfer_from(ctx, spender, from, to, amount) {
            Ok(()) => {},
            Err(e) => {
                return Err(e);
            },
        }
        proof {
            self@.lemma_steps_preserve_wf(*ctx, spender, from, to, amount, 0, 0, Seq::empty(), Seq::empty());
        }
        self.spend_allowance(ctx.sequence, from, spender, amount);
        self.move_balance(from, to, amount);
        self.events.push(TokenEvent::Transfer { from, to, amount });
        Ok(())
    }

    /// Grants `spender` an allowance over the caller's tokens, valid up to
    /// ledger sequence `expiration_ledger`.
    pub fn approve(
        &mut self,
        ctx: &Context,
        from: Address,
        spender: Address,
        amount: i128,
        expiration_ledger: u32,
    ) -> (r: Result<(), ContractError>)
        requires
            old(self)@.wf(),
        ensures
            final(self)@.wf(),
            match old(self)@.approve(*ctx, from, spender, amount, expiration_ledger) {
                Ok(next) => r is Ok && final(self)@ == next,
                Err(e) => r == Err::<(), ContractError>(e) && final(self)@ == old(self)@,
            },
    {
        if ctx.caller != from {
            return Err(ContractError::Unauthorized);
        }
        if expiration_ledger <= ctx.sequence {
            return Err(ContractError::ExpirationNotInFuture);
        }
        self.allowances.insert(key_of(from, spender), Allowance { amount, expiration_ledger });
        self.events.push(TokenEvent::Approve { from, spender, amount, expiration_ledger });
        proof {
            lemma_pair_key_injective();
            assert(self@.allowances =~= old(self)@.allowances.insert(
                (from, spender),
                Allowance { amount, expiration_ledger },
            ));
        }
        Ok(())
    }

    /// What `spender` may spend of `from`'s tokens at the ledger sequence of
    /// `ctx`: zero where no allowance is recorded or it has expired.
    pub fn allowance(&self, ctx: &Context, from: Address, spender: Address) -> (r: i128)
        ensures
            r == self@.allowance(ctx.sequence, from, spender),
    {
        match self.allowances.get(&key_of(from, spender)) {
            Some(a) => {
                if a.expiration_ledger >= ctx.sequence {
                    a.amount
                } else {
                    0
                }
            },
            None => 0,
        }
    }

    /// The number of decimals: 7 until `initialize` sets another.
    pub fn decimals(&self) -> (r: u32)
        ensures
            r == self@.decimals,
    {
        self.decimals
    }

    /// The token's name: "Stellar Swap Token" until `initialize` sets
    /// another.
    pub fn name(&self) -> (r: String)
        ensures
            r@ == self@.name,
    {
        self.name.clone()
    }

    /// The token's symbol: "SST" until `initialize` sets another.
    pub fn symbol(&self) -> (r: String)
        ensures
            r@ == self@.symbol,
    {
        self.symbol.clone()
    }

    /// The total supply.
    pub fn total_supply(&self) -> (r: i128)
        ensures
            r == self@.total_supply,
    {
        self.total_supply
    }

    /// The admin, once `initialize` has run.
    pub fn admin(&self) -> (r: Result<Address, ContractError>)
        ensures
            r == (match self@.admin {
                Some(a) => Ok::<Address, ContractError>(a),
                None => Err(ContractError::NotInitialized),
            }),
    {
        match self.admin {
            Some(a) => Ok(a),
            None => Err(ContractError::NotInitialized),
        }
    }

    /// Names a new admin.
    pub fn set_admin(&mut self, ctx: &Context, new_admin: Address) -> (r: Result<(), ContractError>)
        requires
            old(self)@.wf(),
        ensures
            final(self)@.wf(),
            match old(self)@.set_admin(*ctx, new_admin) {
                Ok(next) => r is Ok && final(self)@ == next,
                Err(e) => r == Err::<(), ContractError>(e) && final(self)@ == old(self)@,
            },
    {
        let admin: Address = match self.admin {
            Some(a) => a,
            None => {
                return Err(ContractError::NotInitialized);
            },
        };
        if ctx.caller != admin {
            return Err(ContractError::Unauthorized);
        }
        self.admin = Some(new_admin);
        Ok(())
    }

    /// Hands the events of the completed operations to the platform, oldest
    /// first, and clears the record of them.
    pub fn take_events(&mut self) -> (r: Vec<TokenEvent>)
        ensures
            r@ == old(self)@.events,
            final(self)@ == (TokenState { events: Seq::empty(), ..old(self)@ }),
            old(self)@.wf() ==> final(self)@.wf(),
    {
        let mut taken: Vec<TokenEvent> = Vec::new();
        core::mem::swap(&mut self.events, &mut taken);
        taken
    }
}

/// Computes [`pair_key`].
fn key_of(owner: Address, spender: Address) -> (k: u128)
    ensures
        k == pair_key(owner, spender),
{
    owner as u128 * 0x1_0000_0000_0000_0000 + spender as u128
}

/// Distinct pairs of identities have distinct keys.
proof fn lemma_pair_key_injective()
    ensures
        forall|a: Address, b: Address, c: Address, d: Address|
            #[trigger] pair_key(a, b) == #[trigger] pair_key(c, d) ==> a == c && b == d,
{
}

} // verus!
