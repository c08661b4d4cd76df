//! What holds of a token whatever is asked of it, proved of the model that
//! the executable operations are specified against.

use crate::history::Operation;
use crate::model::{
    allowance_of, balance_of, credit, debit, lemma_credit_total, lemma_debit_total,
    lemma_genesis_inv, lemma_pay_total, pay, OpRecordView, Request, TokenView,
};
use crate::receipt::TxError;
use crate::sum::{lemma_total_remove, total};
use crate::token::restored;
use vstd::prelude::*;

verus! {

/// A rejected request changes nothing: every balance, every allowance, the
/// configuration and the history stay as they were.
pub proof fn lemma_rejection_changes_nothing(state: TokenView, request: Request)
    requires
        state.apply(request).receipt is Err,
    ensures
        state.apply(request).state == state,
{
}

/// A transfer that would take more than the caller holds is rejected, so
/// that no balance can fall below 0.
pub proof fn lemma_overdraft_rejected(
    state: TokenView,
    caller: Seq<u8>,
    to: Seq<u8>,
    amount: u64,
    timestamp: u64,
)
    requires
        balance_of(state.balances, caller) < amount + state.metadata.fee,
    ensures
        state.transfer(caller, to, amount, timestamp).receipt == Err::<nat, TxError>(
            TxError::InsufficientBalance,
        ),
        state.transfer(caller, to, amount, timestamp).state == state,
{
}

/// A delegated transfer of more than the spender's allowance is rejected,
/// and so is one within the allowance that would take more than the owner
/// holds.
pub proof fn lemma_overspending_rejected(
    state: TokenView,
    caller: Seq<u8>,
    from: Seq<u8>,
    to: Seq<u8>,
    amount: u64,
    timestamp: u64,
)
    ensures
        allowance_of(state.allowances, from, caller) < amount ==> state.transfer_from(
            caller,
            from,
            to,
            amount,
            timestamp,
        ).receipt == Err::<nat, TxError>(TxError::InsufficientAllowance),
        allowance_of(state.allowances, from, caller) >= amount && balance_of(state.balances, from)
            < amount + state.metadata.fee ==> state.transfer_from(
            caller,
            from,
            to,
            amount,
            timestamp,
        ).receipt == Err::<nat, TxError>(TxError::InsufficientBalance),
        state.transfer_from(caller, from, to, amount, timestamp).receipt is Err
            ==> state.transfer_from(caller, from, to, amount, timestamp).state == state,
{
}

/// What a payment takes from an account: the amount and the fee where the
/// account is the source, and nothing otherwise.
pub open spec fn paid_by(account: Seq<u8>, from: Seq<u8>, amount: u64, fee: u64) -> int {
    if account == from {
        amount + fee
    } else {
        0
    }
}

/// What a payment brings an account: the fee where the account is the fee
/// recipient, and the amount where it is the destination; both where it is
/// both.
pub open spec fn received_by(
    account: Seq<u8>,
    fee_to: Seq<u8>,
    to: Seq<u8>,
    amount: u64,
    fee: u64,
) -> int {
    (if account == fee_to {
        fee as int
    } else {
        0
    }) + (if account == to {
        amount as int
    } else {
        0
    })
}

/// A payment changes each balance by exactly what the account receives
/// less what it pays, whichever of the source, the destination and the fee
/// recipient are the same account. No credit is cut short, since no balance
/// can pass the sum of all balances.
pub proof fn lemma_payment_is_exact(
    balances: Map<Seq<u8>, u64>,
    fee_to: Seq<u8>,
    fee: u64,
    from: Seq<u8>,
    to: Seq<u8>,
    amount: u64,
    account: Seq<u8>,
)
    requires
        balances.dom().finite(),
        total(balances) <= u64::MAX,
        balance_of(balances, from) >= amount + fee,
    ensures
        balance_of(pay(balances, fee_to, fee, from, to, amount), account) == balance_of(
            balances,
            account,
        ) - paid_by(account, from, amount, fee) + received_by(account, fee_to, to, amount, fee),
{
    let debited = debit(balances, from, (amount + fee) as u64);
    let charged = credit(debited, fee_to, fee);
    lemma_debit_total(balances, from, (amount + fee) as u64);
    lemma_credit_total(debited, fee_to, fee);
    lemma_credit_total(charged, to, amount);
}

/// An accepted transfer changes each balance by exactly what the account
/// receives less what it pays, and leaves every allowance as it was.
pub proof fn lemma_transfer_effect(
    state: TokenView,
    caller: Seq<u8>,
    to: Seq<u8>,
    amount: u64,
    timestamp: u64,
    account: Seq<u8>,
)
    requires
        state.inv(),
        state.transfer(caller, to, amount, timestamp).receipt is Ok,
    ensures
        balance_of(state.transfer(caller, to, amount, timestamp).state.balances, account)
            == balance_of(state.balances, account) - paid_by(
            account,
            caller,
            amount,
            state.metadata.fee,
        ) + received_by(account, state.metadata.fee_to, to, amount, state.metadata.fee),
        state.transfer(caller, to, amount, timestamp).state.allowances == state.allowances,
{
    lemma_payment_is_exact(
        state.balances,
        state.metadata.fee_to,
        state.metadata.fee,
        caller,
        to,
        amount,
        account,
    );
}

/// An accepted delegated transfer moves no more than the spender's
/// allowance. It changes each balance by exactly what the account receives
/// less what it pays, lowers the spender's allowance from the owner by the
/// amount, and leaves every other allowance as it was.
pub proof fn lemma_transfer_from_effect(
    state: TokenView,
    caller: Seq<u8>,
    from: Seq<u8>,
    to: Seq<u8>,
    amount: u64,
    timestamp: u64,
    account: Seq<u8>,
    owner: Seq<u8>,
    spender: Seq<u8>,
)
    requires
        state.inv(),
        state.transfer_from(caller, from, to, amount, timestamp).receipt is Ok,
    ensures
        amount <= allowance_of(state.allowances, from, caller),
        balance_of(state.transfer_from(caller, from, to, amount, timestamp).state.balances, account)
            == balance_of(state.balances, account) - paid_by(
            account,
            from,
            amount,
            state.metadata.fee,
        ) + received_by(account, state.metadata.fee_to, to, amount, state.metadata.fee),
        allowance_of(
            state.transfer_from(caller, from, to, amount, timestamp).state.allowances,
            owner,
            spender,
        ) == if owner == from && spender == caller {
            allowance_of(state.allowances, owner, spender) - amount
        } else {
            allowance_of(state.allowances, owner, spender) as int
        },
{
    lemma_payment_is_exact(
        state.balances,
        state.metadata.fee_to,
        state.metadata.fee,
        from,
        to,
        amount,
        account,
    );
}

/// An approval sets the spender's allowance from the caller to the given
/// amount, whatever it was before, and leaves every other allowance and
/// every balance as it was.
pub proof fn lemma_approve_effect(
    state: TokenView,
    caller: Seq<u8>,
    spender: Seq<u8>,
    amount: u64,
    timestamp: u64,
    owner: Seq<u8>,
    other: Seq<u8>,
)
    ensures
        state.approve(caller, spender, amount, timestamp).receipt is Ok,
        state.approve(caller, spender, amount, timestamp).state.balances == state.balances,
        allowance_of(
            state.approve(caller, spender, amount, timestamp).state.allowances,
            owner,
            other,
        ) == if owner == caller && other == spender {
            amount
        } else {
            allowance_of(state.allowances, owner, other)
        },
{
}

/// An accepted request appends exactly one record, whose index is the
/// receipt; no request changes the configuration.
pub proof fn lemma_accepted_appends_one(state: TokenView, request: Request)
    ensures
        state.apply(request).state.metadata == state.metadata,
        state.apply(request).receipt is Ok ==> {
            &&& state.apply(request).receipt == Ok::<nat, TxError>(state.history.len())
            &&& state.apply(request).state.history.len() == state.history.len() + 1
            &&& state.apply(request).state.history.last().index == state.history.len()
            &&& state.apply(request).state.history.drop_last() == state.history
        },
{
    if state.apply(request).receipt is Ok {
        assert(state.apply(request).state.history.drop_last() =~= state.history);
    }
}

/// Every request leaves the balances adding up to the total supply and the
/// history's indices without a gap.
pub proof fn lemma_apply_keeps_inv(state: TokenView, request: Request)
    requires
        state.inv(),
    ensures
        state.apply(request).state.inv(),
{
    let fee_to = state.metadata.fee_to;
    let fee = state.metadata.fee;
    match request {
        Request::Transfer { caller, to, amount, timestamp } => {
            if balance_of(state.balances, caller) >= amount + fee {
                lemma_pay_total(state.balances, fee_to, fee, caller, to, amount);
            }
        },
        Request::TransferFrom { caller, from, to, amount, timestamp } => {
            if balance_of(state.balances, from) >= amount + fee {
                lemma_pay_total(state.balances, fee_to, fee, from, to, amount);
            }
        },
        Request::Approve { caller, spender, amount, timestamp } => {},
    }
}

/// Every sequence of requests leaves the balances adding up to the total
/// supply and the history's indices without a gap, and leaves the
/// configuration as it was.
pub proof fn lemma_run_keeps_inv(state: TokenView, requests: Seq<Request>)
    requires
        state.inv(),
    ensures
        state.run(requests).inv(),
        state.run(requests).metadata == state.metadata,
    decreases requests.len(),
{
    if requests.len() > 0 {
        lemma_run_keeps_inv(state, requests.drop_last());
        lemma_apply_keeps_inv(state.run(requests.drop_last()), requests.last());
        lemma_accepted_appends_one(state.run(requests.drop_last()), requests.last());
    }
}

/// After any sequence of requests to a newly created token, the balances
/// of all accounts add up to the total supply. The fees that were
/// collected are held in the balance of the fee recipient: what all other
/// accounts hold and what the fee recipient holds make up the total supply.
pub proof fn lemma_supply_conserved(start: TokenView, requests: Seq<Request>)
    requires
        start.newly_created(),
    ensures
        total(start.run(requests).balances) == start.metadata.total_supply,
        total(start.run(requests).balances.remove(start.metadata.fee_to)) + balance_of(
            start.run(requests).balances,
            start.metadata.fee_to,
        ) == start.metadata.total_supply,
{
    lemma_genesis_inv(start);
    lemma_run_keeps_inv(start, requests);
    let balances = start.run(requests).balances;
    if balances.contains_key(start.metadata.fee_to) {
        lemma_total_remove(balances, start.metadata.fee_to);
    } else {
        assert(balances.remove(start.metadata.fee_to) =~= balances);
    }
}

/// What a record adds to the amount that a spender has moved out of an
/// owner's balance: its amount where it records such a delegated transfer,
/// and 0 otherwise. The fee is not part of it.
pub open spec fn record_moved(record: OpRecordView, owner: Seq<u8>, spender: Seq<u8>) -> nat {
    if record.op == Operation::TransferFrom && record.from == owner && record.caller == Some(
        spender,
    ) {
        record.amount as nat
    } else {
        0
    }
}

/// What a record adds to the amount that an owner has approved for a
/// spender: its amount where it records such an approval, and 0 otherwise.
pub open spec fn record_approved(record: OpRecordView, owner: Seq<u8>, spender: Seq<u8>) -> nat {
    if record.op == Operation::Approve && record.from == owner && record.to == spender {
        record.amount as nat
    } else {
        0
    }
}

/// The amount that a spender has moved out of an owner's balance in all the
/// delegated transfers of a history.
pub open spec fn moved(history: Seq<OpRecordView>, owner: Seq<u8>, spender: Seq<u8>) -> nat
    decreases history.len(),
{
    if history.len() == 0 {
        0
    } else {
        moved(history.drop_last(), owner, spender) + record_moved(history.last(), owner, spender)
    }
}

/// The sum of the limits that an owner has set for a spender in all the
/// approvals of a history.
pub open spec fn approved(history: Seq<OpRecordView>, owner: Seq<u8>, spender: Seq<u8>) -> nat
    decreases history.len(),
{
    if history.len() == 0 {
        0
    } else {
        approved(history.drop_last(), owner, spender) + record_approved(
            history.last(),
            owner,
            spender,
        )
    }
}

/// Whether, for every pair, what the spender has moved and may still move
/// is within what the owner has approved.
pub open spec fn within_approvals(state: TokenView) -> bool {
    forall|owner: Seq<u8>, spender: Seq<u8>|
        moved(state.history, owner, spender) + #[trigger] allowance_of(
            state.allowances,
            owner,
            spender,
        ) <= approved(state.history, owner, spender)
}

/// Every request keeps, for every pair, what the spender has moved and may
/// still move within what the owner has approved.
pub proof fn lemma_apply_keeps_within_approvals(state: TokenView, request: Request)
    requires
        within_approvals(state),
    ensures
        within_approvals(state.apply(request).state),
{
    let after = state.apply(request).state;
    if state.apply(request).receipt is Ok {
        assert(after.history.drop_last() =~= state.history);
        assert forall|owner: Seq<u8>, spender: Seq<u8>|
            moved(after.history, owner, spender) + #[trigger] allowance_of(
                after.allowances,
                owner,
                spender,
            ) <= approved(after.history, owner, spender) by {
            assert(moved(state.history, owner, spender) + allowance_of(
                state.allowances,
                owner,
                spender,
            ) <= approved(state.history, owner, spender));
        }
    }
}

/// Every sequence of requests keeps, for every pair, what the spender has
/// moved and may still move within what the owner has approved.
pub proof fn lemma_run_keeps_within_approvals(state: TokenView, requests: Seq<Request>)
    requires
        within_approvals(state),
    ensures
        within_approvals(state.run(requests)),
    decreases requests.len(),
{
    if requests.len() > 0 {
        lemma_run_keeps_within_approvals(state, requests.drop_last());
        lemma_apply_keeps_within_approvals(state.run(requests.drop_last()), requests.last());
    }
}

/// In a newly created token nothing has been moved by a spender, nothing
/// may be moved and nothing has been approved.
pub proof fn lemma_genesis_within_approvals(start: TokenView)
    requires
        start.newly_created(),
    ensures
        within_approvals(start),
{
    assert(start.history.drop_last() =~= Seq::<OpRecordView>::empty());
    assert forall|from: Seq<u8>, spender: Seq<u8>|
        moved(start.history, from, spender) + #[trigger] allowance_of(
            start.allowances,
            from,
            spender,
        ) <= approved(start.history, from, spender) by {
        assert(moved(start.history.drop_last(), from, spender) == 0);
        assert(approved(start.history.drop_last(), from, spender) == 0);
    }
}

/// Whatever is asked of a newly created token, no spender moves more out
/// of an owner's balance than the owner has approved for that spender: the
/// amounts of the spender's delegated transfers, and what the spender may
/// still move, add up to no more than the limits that the owner has set.
/// A limit that replaces another is counted in full, and what was left of
/// the replaced limit is forgone.
pub proof fn lemma_allowance_bound(
    start: TokenView,
    requests: Seq<Request>,
    owner: Seq<u8>,
    spender: Seq<u8>,
)
    requires
        start.newly_created(),
    ensures
        moved(start.run(requests).history, owner, spender) + allowance_of(
            start.run(requests).allowances,
            owner,
            spender,
        ) <= approved(start.run(requests).history, owner, spender),
{
    lemma_genesis_within_approvals(start);
    lemma_run_keeps_within_approvals(start, requests);
    let reached = start.run(requests);
    assert(moved(reached.history, owner, spender) + allowance_of(
        reached.allowances,
        owner,
        spender,
    ) <= approved(reached.history, owner, spender));
}

/// What a record changes the balance of an account by: a mint brings its
/// amount to the account it is minted to; a transfer, delegated or not,
/// brings what the account receives less what it pays; an approval changes
/// no balance.
pub open spec fn record_flow(record: OpRecordView, fee_to: Seq<u8>, account: Seq<u8>) -> int {
    match record.op {
        Operation::Mint => if account == record.to {
            record.amount as int
        } else {
            0
        },
        Operation::Transfer | Operation::TransferFrom => received_by(
            account,
            fee_to,
            record.to,
            record.amount,
            record.fee,
        ) - paid_by(account, record.from, record.amount, record.fee),
        Operation::Approve => 0,
    }
}

/// What all the records of a history together change the balance of an
/// account by.
pub open spec fn net_flow(history: Seq<OpRecordView>, fee_to: Seq<u8>, account: Seq<u8>) -> int
    decreases history.len(),
{
    if history.len() == 0 {
        0
    } else {
        net_flow(history.drop_last(), fee_to, account) + record_flow(
            history.last(),
            fee_to,
            account,
        )
    }
}

/// What the records of a history leave of a spender's allowance from an
/// owner: an approval sets it to its amount, a delegated transfer by the
/// spender out of the owner's balance lowers it by its amount, and no other
/// record changes it.
pub open spec fn allowance_left(history: Seq<OpRecordView>, owner: Seq<u8>, spender: Seq<u8>) -> int
    decreases history.len(),
{
    if history.len() == 0 {
        0
    } else {
        let record = history.last();
        let before = allowance_left(history.drop_last(), owner, spender);
        if record.op == Operation::Approve && record.from == owner && record.to == spender {
            record.amount as int
        } else if record.op == Operation::TransferFrom && record.from == owner && record.caller
            == Some(spender) {
            before - record.amount
        } else {
            before
        }
    }
}

/// Whether the history accounts for the state: each balance is what the
/// records have brought the account less what they have taken from it, and
/// each allowance is what the records have left of it.
pub open spec fn accounted_for(state: TokenView) -> bool {
    &&& forall|account: Seq<u8>| #[trigger]
        balance_of(state.balances, account) == net_flow(
            state.history,
            state.metadata.fee_to,
            account,
        )
    &&& forall|owner: Seq<u8>, spender: Seq<u8>| #[trigger]
        allowance_of(state.allowances, owner, spender) == allowance_left(
            state.history,
            owner,
            spender,
        )
}

/// Every request leaves the state accounted for by the history: no balance
/// and no allowance changes without the record that says so.
pub proof fn lemma_apply_keeps_accounted_for(state: TokenView, request: Request)
    requires
        state.inv(),
        accounted_for(state),
    ensures
        accounted_for(state.apply(request).state),
{
    let after = state.apply(request).state;
    let fee_to = state.metadata.fee_to;
    let fee = state.metadata.fee;
    if state.apply(request).receipt is Ok {
        assert(after.history.drop_last() =~= state.history);
        assert forall|account: Seq<u8>| #[trigger]
            balance_of(after.balances, account) == net_flow(
                after.history,
                after.metadata.fee_to,
                account,
            ) by {
            assert(balance_of(state.balances, account) == net_flow(
                state.history,
                fee_to,
                account,
            ));
            match request {
                Request::Transfer { caller, to, amount, timestamp } => {
                    lemma_payment_is_exact(state.balances, fee_to, fee, caller, to, amount, account);
                },
                Request::TransferFrom { caller, from, to, amount, timestamp } => {
                    lemma_payment_is_exact(state.balances, fee_to, fee, from, to, amount, account);
                },
                Request::Approve { caller, spender, amount, timestamp } => {},
            }
        }
        assert forall|owner: Seq<u8>, spender: Seq<u8>| #[trigger]
            allowance_of(after.allowances, owner, spender) == allowance_left(
                after.history,
                owner,
                spender,
            ) by {
            assert(allowance_of(state.allowances, owner, spender) == allowance_left(
                state.history,
                owner,
                spender,
            ));
        }
    }
}

/// Whatever is asked of a newly created token, the history accounts for
/// its state: each balance is the sum of what the records have brought the
/// account less what they have taken from it, and each allowance is what
/// the records have left of it. So the balances and the allowances can be
/// told from the history and the fee recipient alone.
pub proof fn lemma_history_accounts_for_state(start: TokenView, requests: Seq<Request>)
    requires
        start.newly_created(),
    ensures
        accounted_for(start.run(requests)),
    decreases requests.len(),
{
    lemma_genesis_inv(start);
    if requests.len() == 0 {
        assert(start.history.drop_last() =~= Seq::<OpRecordView>::empty());
        assert forall|account: Seq<u8>| #[trigger]
            balance_of(start.balances, account) == net_flow(
                start.history,
                start.metadata.fee_to,
                account,
            ) by {
            assert(net_flow(start.history.drop_last(), start.metadata.fee_to, account) == 0);
        }
        assert forall|owner: Seq<u8>, spender: Seq<u8>| #[trigger]
            allowance_of(start.allowances, owner, spender) == allowance_left(
                start.history,
                owner,
                spender,
            ) by {
            assert(allowance_left(start.history.drop_last(), owner, spender) == 0);
        }
    } else {
        lemma_history_accounts_for_state(start, requests.drop_last());
        lemma_run_keeps_inv(start, requests.drop_last());
        lemma_apply_keeps_accounted_for(start.run(requests.drop_last()), requests.last());
    }
}

/// The number of accepted requests among some receipts.
pub open spec fn accepted_among(receipts: Seq<Result<nat, TxError>>) -> nat
    decreases receipts.len(),
{
    if receipts.len() == 0 {
        0
    } else {
        accepted_among(receipts.drop_last()) + if receipts.last() is Ok {
            1nat
        } else {
            0nat
        }
    }
}

/// A sequence of requests makes the history longer by one record for each
/// request that is accepted, and by none for one that is rejected.
pub proof fn lemma_history_counts_accepted(state: TokenView, requests: Seq<Request>)
    ensures
        state.run(requests).history.len() == state.history.len() + accepted_among(
            state.receipts(requests),
        ),
    decreases requests.len(),
{
    if requests.len() > 0 {
        let front = requests.drop_last();
        lemma_history_counts_accepted(state, front);
        assert(state.receipts(requests).drop_last() =~= state.receipts(front)) by {
            assert forall|i: int| 0 <= i < front.len() implies state.receipts(requests)[i]
                == state.receipts(front)[i] by {
                assert(front.take(i) =~= requests.take(i));
            }
        }
        assert(requests.take(requests.len() - 1) =~= front);
        lemma_accepted_appends_one(state.run(front), requests.last());
    }
}

/// The receipt of each accepted request of a sequence is the number of
/// records that the history held at the start and of the requests accepted
/// before it. So the receipts of the accepted requests are consecutive
/// indices, whatever requests are rejected in between.
pub proof fn lemma_receipts_consecutive(state: TokenView, requests: Seq<Request>, i: int)
    requires
        0 <= i < requests.len(),
        state.receipts(requests)[i] is Ok,
    ensures
        state.receipts(requests)[i] == Ok::<nat, TxError>(
            state.history.len() + accepted_among(state.receipts(requests).take(i)),
        ),
{
    let front = requests.take(i);
    lemma_history_counts_accepted(state, front);
    assert(state.receipts(requests).take(i) =~= state.receipts(front)) by {
        assert forall|j: int| 0 <= j < front.len() implies state.receipts(requests)[j]
            == state.receipts(front)[j] by {
            assert(front.take(j) =~= requests.take(j));
        }
    }
    lemma_accepted_appends_one(state.run(front), requests[i]);
}

/// Whether every request of a sequence is accepted when the sequence is
/// run from a state.
pub open spec fn all_accepted(state: TokenView, requests: Seq<Request>) -> bool {
    forall|i: int| 0 <= i < requests.len() ==> (#[trigger] state.receipts(requests)[i]) is Ok
}

/// Where every request of a sequence is accepted, the history grows by one
/// record for each.
pub proof fn lemma_accepted_run_grows(state: TokenView, requests: Seq<Request>)
    requires
        all_accepted(state, requests),
    ensures
        state.run(requests).history.len() == state.history.len() + requests.len(),
    decreases requests.len(),
{
    if requests.len() > 0 {
        let front = requests.drop_last();
        assert(all_accepted(state, front)) by {
            assert forall|i: int| 0 <= i < front.len() implies (#[trigger] state.receipts(
                front,
            )[i]) is Ok by {
                assert(front.take(i) =~= requests.take(i));
                assert(state.receipts(requests)[i] is Ok);
            }
        }
        lemma_accepted_run_grows(state, front);
        assert(requests.take(requests.len() - 1) =~= front);
        assert(state.receipts(requests)[requests.len() - 1] is Ok);
        lemma_accepted_appends_one(state.run(front), requests.last());
    }
}

/// The receipts of a sequence of requests that are all accepted are
/// consecutive indices: the first is the number of records that the
/// history held before, and each next one is 1 more.
pub proof fn lemma_receipts_dense(state: TokenView, requests: Seq<Request>)
    requires
        all_accepted(state, requests),
    ensures
        forall|i: int|
            0 <= i < requests.len() ==> (#[trigger] state.receipts(requests)[i]) == Ok::<
                nat,
                TxError,
            >((state.history.len() + i) as nat),
{
    assert forall|i: int| 0 <= i < requests.len() implies (#[trigger] state.receipts(requests)[i])
        == Ok::<nat, TxError>((state.history.len() + i) as nat) by {
        let front = requests.take(i);
        assert(all_accepted(state, front)) by {
            assert forall|j: int| 0 <= j < front.len() implies (#[trigger] state.receipts(
                front,
            )[j]) is Ok by {
                assert(front.take(j) =~= requests.take(j));
                assert(state.receipts(requests)[j] is Ok);
            }
        }
        lemma_accepted_run_grows(state, front);
        lemma_accepted_appends_one(state.run(front), requests[i]);
    }
}

/// The record of the mint has index 0, and where every request to a newly
/// created token is accepted, the receipts are 1, 2, 3, ... in the order of
/// the requests.
pub proof fn lemma_receipts_of_new_token(start: TokenView, requests: Seq<Request>)
    requires
        start.newly_created(),
        all_accepted(start, requests),
    ensures
        start.history.len() == 1,
        start.history[0].index == 0,
        forall|i: int|
            0 <= i < requests.len() ==> (#[trigger] start.receipts(requests)[i]) == Ok::<
                nat,
                TxError,
            >((i + 1) as nat),
{
    lemma_receipts_dense(start, requests);
}

/// A token restored from what was kept of it is in the state in which it
/// was kept: every balance, every allowance, the configuration and the
/// history are the same.
pub proof fn lemma_round_trip(kept: TokenView)
    requires
        kept.inv(),
    ensures
        restored(kept) == Some(kept),
        forall|account: Seq<u8>|
            balance_of(restored(kept).unwrap().balances, account) == #[trigger] balance_of(
                kept.balances,
                account,
            ),
        forall|owner: Seq<u8>, spender: Seq<u8>|
            allowance_of(restored(kept).unwrap().allowances, owner, spender)
                == #[trigger] allowance_of(kept.allowances, owner, spender),
        restored(kept).unwrap().metadata == kept.metadata,
        restored(kept).unwrap().history == kept.history,
{
}

} // verus!
