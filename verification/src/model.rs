//! The ledger as a mathematical state, and its operations as functions from
//! state to state. The executable types are specified against this model.

use crate::history::Operation;
use crate::receipt::TxError;
use crate::sum::{lemma_total_bounds_each, lemma_total_insert, lemma_total_remove, total};
use vstd::prelude::*;

verus! {

/// The balance of an account: what the map holds for it, or 0 where it holds
/// nothing.
pub open spec fn balance_of(balances: Map<Seq<u8>, u64>, account: Seq<u8>) -> u64 {
    if balances.contains_key(account) {
        balances[account]
    } else {
        0
    }
}

/// The balances after an amount is added to an account. A balance that
/// would pass the largest amount that can be held stays at that amount. An
/// account whose balance stays 0 gets no entry.
pub open spec fn credit(balances: Map<Seq<u8>, u64>, account: Seq<u8>, amount: u64) -> Map<
    Seq<u8>,
    u64,
> {
    let sum = balance_of(balances, account) + amount;
    let raised = if sum > u64::MAX {
        u64::MAX
    } else {
        sum as u64
    };
    if raised == 0 {
        balances
    } else {
        balances.insert(account, raised)
    }
}

/// The balances after an amount is taken from an account. An account that
/// is left with 0 loses its entry. Where the account holds less than the
/// amount, nothing changes.
pub open spec fn debit(balances: Map<Seq<u8>, u64>, account: Seq<u8>, amount: u64) -> Map<
    Seq<u8>,
    u64,
> {
    let held = balance_of(balances, account);
    if held < amount {
        balances
    } else if held == amount {
        balances.remove(account)
    } else {
        balances.insert(account, (held - amount) as u64)
    }
}

/// What a spender may still move out of an owner's balance: what the map
/// holds for the pair, or 0 where it holds nothing.
pub open spec fn allowance_of(
    allowances: Map<(Seq<u8>, Seq<u8>), u64>,
    owner: Seq<u8>,
    spender: Seq<u8>,
) -> u64 {
    if allowances.contains_key((owner, spender)) {
        allowances[(owner, spender)]
    } else {
        0
    }
}

/// The allowances after the limit of one pair is overwritten. A limit of 0
/// leaves the pair without an entry.
pub open spec fn set_allowance(
    allowances: Map<(Seq<u8>, Seq<u8>), u64>,
    owner: Seq<u8>,
    spender: Seq<u8>,
    amount: u64,
) -> Map<(Seq<u8>, Seq<u8>), u64> {
    if amount == 0 {
        allowances.remove((owner, spender))
    } else {
        allowances.insert((owner, spender), amount)
    }
}

/// The allowances after a spender has used up part of a limit. Where the
/// limit is less than the amount, nothing changes.
pub open spec fn consume_allowance(
    allowances: Map<(Seq<u8>, Seq<u8>), u64>,
    owner: Seq<u8>,
    spender: Seq<u8>,
    amount: u64,
) -> Map<(Seq<u8>, Seq<u8>), u64> {
    let limit = allowance_of(allowances, owner, spender);
    if limit < amount {
        allowances
    } else {
        set_allowance(allowances, owner, spender, (limit - amount) as u64)
    }
}

/// The identifier of the anonymous account, which receives the fees of a
/// newly created token.
pub open spec fn anonymous_account() -> Seq<u8> {
    seq![4u8]
}

/// The reserved system identifier, from which newly minted tokens come.
pub open spec fn system_account() -> Seq<u8> {
    Seq::empty()
}

/// One record of the history.
#[verifier::ext_equal]
pub struct OpRecordView {
    pub caller: Option<Seq<u8>>,
    pub op: Operation,
    pub index: nat,
    pub from: Seq<u8>,
    pub to: Seq<u8>,
    pub amount: u64,
    pub fee: u64,
    pub timestamp: u64,
}

/// The token's configuration.
#[verifier::ext_equal]
pub struct MetadataView {
    pub logo: Seq<char>,
    pub name: Seq<char>,
    pub symbol: Seq<char>,
    pub decimals: u8,
    pub total_supply: u64,
    pub owner: Seq<u8>,
    pub fee: u64,
    pub fee_to: Seq<u8>,
}

/// The whole state of a token.
#[verifier::ext_equal]
pub struct TokenView {
    pub metadata: MetadataView,
    pub balances: Map<Seq<u8>, u64>,
    pub allowances: Map<(Seq<u8>, Seq<u8>), u64>,
    pub history: Seq<OpRecordView>,
    pub deploy_time: u64,
}

/// A state together with the receipt of the operation that led to it.
pub struct Outcome {
    pub state: TokenView,
    pub receipt: Result<nat, TxError>,
}

/// A request for one of the operations that a running token accepts.
pub enum Request {
    Transfer { caller: Seq<u8>, to: Seq<u8>, amount: u64, timestamp: u64 },
    TransferFrom { caller: Seq<u8>, from: Seq<u8>, to: Seq<u8>, amount: u64, timestamp: u64 },
    Approve { caller: Seq<u8>, spender: Seq<u8>, amount: u64, timestamp: u64 },
}

/// Whether each record of a history carries its own position as its index.
pub open spec fn dense(history: Seq<OpRecordView>) -> bool {
    forall|i: int| 0 <= i < history.len() ==> (#[trigger] history[i]).index == i
}

/// The history with one more record, which gets the next index.
pub open spec fn add_record(
    history: Seq<OpRecordView>,
    caller: Option<Seq<u8>>,
    op: Operation,
    from: Seq<u8>,
    to: Seq<u8>,
    amount: u64,
    fee: u64,
    timestamp: u64,
) -> Seq<OpRecordView> {
    history.push(
        OpRecordView { caller, op, index: history.len(), from, to, amount, fee, timestamp },
    )
}

/// The balances after `amount` has gone from one account to another at the
/// given fee: the source pays the amount and the fee in one debit, the fee
/// goes to the fee recipient and the amount to the destination.
pub open spec fn pay(
    balances: Map<Seq<u8>, u64>,
    fee_to: Seq<u8>,
    fee: u64,
    from: Seq<u8>,
    to: Seq<u8>,
    amount: u64,
) -> Map<Seq<u8>, u64> {
    credit(credit(debit(balances, from, (amount + fee) as u64), fee_to, fee), to, amount)
}

impl TokenView {
    /// What holds of every state that a token can reach: the balances add up
    /// to the total supply, and the history's indices are 0, 1, 2, ...
    /// without a gap. Collected fees are held in the fee recipient's
    /// balance, so the sum counts them.
    pub open spec fn inv(self) -> bool {
        &&& self.balances.dom().finite()
        &&& total(self.balances) == self.metadata.total_supply
        &&& dense(self.history)
    }

    /// The state of a token that has not been created yet: it has no supply,
    /// no balances, no allowances and no history.
    pub open spec fn blank() -> TokenView {
        TokenView {
            metadata: MetadataView {
                logo: Seq::empty(),
                name: Seq::empty(),
                symbol: Seq::empty(),
                decimals: 0,
                total_supply: 0,
                owner: anonymous_account(),
                fee: 0,
                fee_to: anonymous_account(),
            },
            balances: Map::empty(),
            allowances: Map::empty(),
            history: Seq::empty(),
            deploy_time: 0,
        }
    }

    /// The state of a newly created token: the whole supply is minted to
    /// the owner, and the history holds the record of that mint.
    pub open spec fn genesis(
        logo: Seq<char>,
        name: Seq<char>,
        symbol: Seq<char>,
        decimals: u8,
        total_supply: u64,
        owner: Seq<u8>,
        fee: u64,
        timestamp: u64,
    ) -> TokenView {
        TokenView {
            metadata: MetadataView {
                logo,
                name,
                symbol,
                decimals,
                total_supply,
                owner,
                fee,
                fee_to: anonymous_account(),
            },
            balances: credit(Map::empty(), owner, total_supply),
            allowances: Map::empty(),
            history: add_record(
                Seq::empty(),
                Some(owner),
                Operation::Mint,
                system_account(),
                owner,
                total_supply,
                0,
                timestamp,
            ),
            deploy_time: timestamp,
        }
    }

    /// Whether the state is that of a newly created token.
    pub open spec fn newly_created(self) -> bool {
        self == TokenView::genesis(
            self.metadata.logo,
            self.metadata.name,
            self.metadata.symbol,
            self.metadata.decimals,
            self.metadata.total_supply,
            self.metadata.owner,
            self.metadata.fee,
            self.deploy_time,
        )
    }

    /// The state unchanged, with the reason for a rejection.
    pub open spec fn rejected(self, reason: TxError) -> Outcome {
        Outcome { state: self, receipt: Err(reason) }
    }

    /// A transfer of `amount` from the caller's account to another. The
    /// caller pays the amount and the fee; the transfer is rejected where
    /// the caller holds less than both together.
    pub open spec fn transfer(
        self,
        caller: Seq<u8>,
        to: Seq<u8>,
        amount: u64,
        timestamp: u64,
    ) -> Outcome {
        if balance_of(self.balances, caller) < amount + self.metadata.fee {
            self.rejected(TxError::InsufficientBalance)
        } else {
            Outcome {
                state: TokenView {
                    balances: pay(
                        self.balances,
                        self.metadata.fee_to,
                        self.metadata.fee,
                        caller,
                        to,
                        amount,
                    ),
                    history: add_record(
                        self.history,
                        Some(caller),
                        Operation::Transfer,
                        caller,
                        to,
                        amount,
                        self.metadata.fee,
                        timestamp,
                    ),
                    ..self
                },
                receipt: Ok(self.history.len()),
            }
        }
    }

    /// A transfer of `amount` out of `from`'s account, made by the caller
    /// as a spender. It is rejected where the caller's allowance is less
    /// than the amount, and otherwise where `from` holds less than the
    /// amount and the fee together. An accepted transfer uses up `amount`
    /// of the allowance.
    pub open spec fn transfer_from(
        self,
        caller: Seq<u8>,
        from: Seq<u8>,
        to: Seq<u8>,
        amount: u64,
        timestamp: u64,
    ) -> Outcome {
        if allowance_of(self.allowances, from, caller) < amount {
            self.rejected(TxError::InsufficientAllowance)
        } else if balance_of(self.balances, from) < amount + self.metadata.fee {
            self.rejected(TxError::InsufficientBalance)
        } else {
            Outcome {
                state: TokenView {
                    balances: pay(
                        self.balances,
                        self.metadata.fee_to,
                        self.metadata.fee,
                        from,
                        to,
                        amount,
                    ),
                    allowances: consume_allowance(self.allowances, from, caller, amount),
                    history: add_record(
                        self.history,
                        Some(caller),
                        Operation::TransferFrom,
                        from,
                        to,
                        amount,
                        self.metadata.fee,
                        timestamp,
                    ),
                    ..self
                },
                receipt: Ok(self.history.len()),
            }
        }
    }

    /// The caller sets what a spender may move out of the caller's balance.
    /// The new limit replaces the old one. No fee is charged, and the
    /// operation is always accepted.
    pub open spec fn approve(
        self,
        caller: Seq<u8>,
        spender: Seq<u8>,
        amount: u64,
        timestamp: u64,
    ) -> Outcome {
        Outcome {
            state: TokenView {
                allowances: set_allowance(self.allowances, caller, spender, amount),
                history: add_record(
                    self.history,
                    Some(caller),
                    Operation::Approve,
                    caller,
                    spender,
                    amount,
                    0,
                    timestamp,
                ),
                ..self
            },
            receipt: Ok(self.history.len()),
        }
    }

    /// The outcome of a request.
    pub open spec fn apply(self, request: Request) -> Outcome {
        match request {
            Request::Transfer { caller, to, amount, timestamp } => self.transfer(
                caller,
                to,
                amount,
                timestamp,
            ),
            Request::TransferFrom { caller, from, to, amount, timestamp } => self.transfer_from(
                caller,
                from,
                to,
                amount,
                timestamp,
            ),
            Request::Approve { caller, spender, amount, timestamp } => self.approve(
                caller,
                spender,
                amount,
                timestamp,
            ),
        }
    }

    /// The state after a sequence of requests, taken in order.
    pub open spec fn run(self, requests: Seq<Request>) -> TokenView
        decreases requests.len(),
    {
        if requests.len() == 0 {
            self
        } else {
            self.run(requests.drop_last()).apply(requests.last()).state
        }
    }

    /// The receipt that each request of a sequence gets.
    pub open spec fn receipts(self, requests: Seq<Request>) -> Seq<Result<nat, TxError>> {
        Seq::new(
            requests.len(),
            |i: int| self.run(requests.take(i)).apply(requests[i]).receipt,
        )
    }
}

/// Taking an amount from an account that holds it lowers the sum of the
/// balances by that amount.
pub proof fn lemma_debit_total(balances: Map<Seq<u8>, u64>, account: Seq<u8>, amount: u64)
    requires
        balances.dom().finite(),
        balance_of(balances, account) >= amount,
    ensures
        debit(balances, account, amount).dom().finite(),
        total(debit(balances, account, amount)) == total(balances) - amount,
{
    if balances.contains_key(account) {
        lemma_total_remove(balances, account);
        lemma_total_insert(balances, account, (balances[account] - amount) as u64);
    } else {
        assert(balances.remove(account) =~= balances);
    }
}

/// Adding an amount to an account raises the sum of the balances by that
/// amount, where the raised sum is at most `u64::MAX`.
pub proof fn lemma_credit_total(balances: Map<Seq<u8>, u64>, account: Seq<u8>, amount: u64)
    requires
        balances.dom().finite(),
        total(balances) + amount <= u64::MAX,
    ensures
        credit(balances, account, amount).dom().finite(),
        total(credit(balances, account, amount)) == total(balances) + amount,
        balance_of(credit(balances, account, amount), account) == balance_of(balances, account)
            + amount,
{
    if balances.contains_key(account) {
        lemma_total_bounds_each(balances, account);
    }
    lemma_total_insert(balances, account, (balance_of(balances, account) + amount) as u64);
}

/// A payment between accounts leaves the sum of the balances as it was.
pub proof fn lemma_pay_total(
    balances: Map<Seq<u8>, u64>,
    fee_to: Seq<u8>,
    fee: u64,
    from: Seq<u8>,
    to: Seq<u8>,
    amount: u64,
)
    requires
        balances.dom().finite(),
        total(balances) <= u64::MAX,
        balance_of(balances, from) >= amount + fee,
    ensures
        pay(balances, fee_to, fee, from, to, amount).dom().finite(),
        total(pay(balances, fee_to, fee, from, to, amount)) == total(balances),
{
    let debited = debit(balances, from, (amount + fee) as u64);
    lemma_debit_total(balances, from, (amount + fee) as u64);
    lemma_credit_total(debited, fee_to, fee);
    lemma_credit_total(credit(debited, fee_to, fee), to, amount);
}

/// A newly created token is in a state that a token can be in.
pub proof fn lemma_genesis_inv(start: TokenView)
    requires
        start.newly_created(),
    ensures
        start.inv(),
{
    let empty = Map::<Seq<u8>, u64>::empty();
    assert(empty.dom() =~= Set::empty());
    lemma_credit_total(empty, start.metadata.owner, start.metadata.total_supply);
}

} // verus!
