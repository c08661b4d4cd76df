//! The token: its configuration, balances, allowances and history, and the
//! operations that change them together.

use crate::account::Account;
use crate::allowances::{from_grants, grants_view, Allowances};
use crate::balances::Balances;
use crate::history::{records_view, OpRecord, Operation, Ops};
use crate::listing::from_listing;
use crate::model;
use crate::model::{MetadataView, TokenView};
use crate::receipt::{receipt_view, TxError, TxReceipt};
use crate::sum::total;
use crate::table::pairs_view;
use vstd::prelude::*;

verus! {

/// The configuration of a token.
#[derive(Debug)]
pub struct Metadata {
    pub logo: String,
    pub name: String,
    pub symbol: String,
    pub decimals: u8,
    pub total_supply: u64,
    pub owner: Account,
    pub fee: u64,
    pub fee_to: Account,
}

impl View for Metadata {
    type V = MetadataView;

    open spec fn view(&self) -> MetadataView {
        MetadataView {
            logo: self.logo@,
            name: self.name@,
            symbol: self.symbol@,
            decimals: self.decimals,
            total_supply: self.total_supply,
            owner: self.owner@,
            fee: self.fee,
            fee_to: self.fee_to@,
        }
    }
}

impl Default for Metadata {
    /// The configuration of a token that has not been created yet: empty
    /// texts, no supply, no fee, and the anonymous account as owner and as
    /// fee recipient.
    fn default() -> (metadata: Metadata)
        ensures
            metadata@ == TokenView::blank().metadata,
    {
        Metadata {
            logo: String::new(),
            name: String::new(),
            symbol: String::new(),
            decimals: 0u8,
            total_supply: 0,
            owner: Account::anonymous(),
            fee: 0,
            fee_to: Account::anonymous(),
        }
    }
}

impl Clone for Metadata {
    fn clone(&self) -> (copy: Metadata)
        ensures
            copy@ == self@,
    {
        Metadata {
            logo: self.logo.clone(),
            name: self.name.clone(),
            symbol: self.symbol.clone(),
            decimals: self.decimals,
            total_supply: self.total_supply,
            owner: self.owner.clone(),
            fee: self.fee,
            fee_to: self.fee_to.clone(),
        }
    }
}

/// The configuration of a token together with figures on its state.
#[derive(Debug)]
pub struct TokenInfo {
    pub metadata: Metadata,
    pub fee_to: Account,
    pub history_size: usize,
    pub deploy_time: u64,
    pub holder_number: usize,
    pub cycles: u64,
}

/// All that has to be kept of a token for it to go on after a restart.
#[derive(Debug)]
pub struct UpgradePayload {
    pub metadata: Metadata,
    pub balance: Vec<(Account, u64)>,
    pub allow: Vec<(Account, Vec<(Account, u64)>)>,
    pub ops: Vec<OpRecord>,
    pub deploy_time: u64,
}

impl View for UpgradePayload {
    type V = TokenView;

    /// The state that the payload describes.
    open spec fn view(&self) -> TokenView {
        TokenView {
            metadata: self.metadata@,
            balances: from_listing(pairs_view(self.balance@)),
            allowances: from_grants(grants_view(self.allow@)),
            history: records_view(self.ops@),
            deploy_time: self.deploy_time,
        }
    }
}

/// The state that a token restored from the described state has: that
/// state itself where it is one that a token can be in, and none otherwise.
pub open spec fn restored(described: TokenView) -> Option<TokenView> {
    if described.inv() {
        Some(described)
    } else {
        None
    }
}

/// The state of an optional token.
pub open spec fn token_view(token: Option<Token>) -> Option<TokenView> {
    match token {
        Some(t) => Some(t@),
        None => None,
    }
}

/// Moves `value` out of `from`'s balance: `from` pays the value and the
/// fee in one debit, the fee goes to the fee recipient and the value to
/// `to`.
fn _transfer(
    balances: &mut Balances,
    metadata: &Metadata,
    from: &Account,
    to: &Account,
    value: u64,
)
    requires
        total(old(balances)@) <= u64::MAX,
        model::balance_of(old(balances)@, from@) >= value + metadata.fee,
    ensures
        final(balances)@ == model::pay(
            old(balances)@,
            metadata.fee_to@,
            metadata.fee,
            from@,
            to@,
            value,
        ),
        total(final(balances)@) == total(old(balances)@),
{
    proof {
        balances.lemma_finite();
        model::lemma_pay_total(
            balances@,
            metadata.fee_to@,
            metadata.fee,
            from@,
            to@,
            value,
        );
    }
    let _ = balances.debit(from, value + metadata.fee);
    balances.credit(&metadata.fee_to, metadata.fee);
    balances.credit(to, value);
}

/// A token: its configuration, the balance of every account, the limit of
/// every (owner, spender) pair and the history of accepted operations.
pub struct Token {
    metadata: Metadata,
    balances: Balances,
    allowances: Allowances,
    ops: Ops,
    deploy_time: u64,
}

impl View for Token {
    type V = TokenView;

    closed spec fn view(&self) -> TokenView {
        TokenView {
            metadata: self.metadata@,
            balances: self.balances@,
            allowances: self.allowances@,
            history: self.ops@,
            deploy_time: self.deploy_time,
        }
    }
}

impl Default for Token {
    /// A token that has not been created yet.
    fn default() -> (token: Token)
        ensures
            token@ == TokenView::blank(),
    {
        let balances = Balances::new();
        assert(balances@.dom() =~= Set::empty());
        Token {
            metadata: Metadata::default(),
            balances,
            allowances: Allowances::new(),
            ops: Ops::new(),
            deploy_time: 0,
        }
    }
}

impl Token {
    #[verifier::type_invariant]
    spec fn supply_conserved(&self) -> bool {
        total(self.balances@) == self.metadata.total_supply
    }

    /// States what holds of every token: its balances add up to its total
    /// supply, and the indices of its history are 0, 1, 2, ... without a
    /// gap. The call does nothing when it runs; a verified caller learns
    /// the fact from it.
    pub fn well_formed(&self)
        ensures
            self@.inv(),
    {
        proof {
            use_type_invariant(self);
            self.balances.lemma_finite();
        }
        self.ops.indices_dense();
    }

    /// Takes the token out of its place and leaves one there that has not
    /// been created yet.
    fn take(&mut self) -> (token: Token)
        ensures
            token == *old(self),
    {
        let mut token = Token::default();
        std::mem::swap(self, &mut token);
        token
    }

    /// Creates the token: sets its configuration, mints the whole supply to
    /// the owner and writes the record of the mint, which gets index 0. The
    /// fees go to the anonymous account.
    pub fn init(
        logo: String,
        name: String,
        symbol: String,
        decimals: u8,
        total_supply: u64,
        owner: Account,
        fee: u64,
        timestamp: u64,
    ) -> (token: Token)
        ensures
            token@ == TokenView::genesis(
                logo@,
                name@,
                symbol@,
                decimals,
                total_supply,
                owner@,
                fee,
                timestamp,
            ),
            token@.newly_created(),
            token@.inv(),
    {
        let mut metadata = Metadata::default();
        metadata.logo = logo;
        metadata.name = name;
        metadata.symbol = symbol;
        metadata.decimals = decimals;
        metadata.total_supply = total_supply;
        metadata.owner = owner.clone();
        metadata.fee = fee;
        let mut balances = Balances::new();
        balances.credit(&owner, total_supply);
        let mut ops = Ops::new();
        let _ = ops.add_record(
            Some(owner.clone()),
            Operation::Mint,
            Account::system(),
            owner,
            total_supply,
            0,
            timestamp,
        );
        proof {
            model::lemma_genesis_inv(
                TokenView::genesis(
                    logo@,
                    name@,
                    symbol@,
                    decimals,
                    total_supply,
                    owner@,
                    fee,
                    timestamp,
                ),
            );
        }
        let allowances = Allowances::new();
        let token = Token { metadata, balances, allowances, ops, deploy_time: timestamp };
        assert(token@ =~~= TokenView::genesis(
            logo@,
            name@,
            symbol@,
            decimals,
            total_supply,
            owner@,
            fee,
            timestamp,
        ));
        token
    }

    /// The configuration.
    pub fn metadata(&self) -> (metadata: &Metadata)
        ensures
            metadata@ == self@.metadata,
    {
        &self.metadata
    }

    /// The balance of an account.
    pub fn balance_of(&self, account: &Account) -> (balance: u64)
        ensures
            balance == model::balance_of(self@.balances, account@),
    {
        self.balances.balance_of(account)
    }

    /// What a spender may still move out of an owner's balance.
    pub fn allowance(&self, owner: &Account, spender: &Account) -> (limit: u64)
        ensures
            limit == model::allowance_of(self@.allowances, owner@, spender@),
    {
        self.allowances.allowance_of(owner, spender)
    }

    /// The number of records in the history.
    pub fn history_size(&self) -> (n: usize)
        ensures
            n == self@.history.len(),
    {
        self.ops.len()
    }

    /// The record at an index of the history, if there is one.
    pub fn get_transaction(&self, index: usize) -> (record: Option<&OpRecord>)
        ensures
            match record {
                Some(r) => index < self@.history.len() && r@ == self@.history[index as int],
                None => index >= self@.history.len(),
            },
    {
        self.ops.get(index)
    }

    /// The configuration together with the size of the history, the time at
    /// which the token was created, the number of accounts with an entry
    /// in the balances, and the cycles that the caller reports.
    pub fn token_info(&self, cycles: u64) -> (info: TokenInfo)
        ensures
            info.metadata@ == self@.metadata,
            info.fee_to@ == self@.metadata.fee_to,
            info.history_size == self@.history.len(),
            info.deploy_time == self@.deploy_time,
            info.holder_number == self@.balances.dom().len(),
            info.cycles == cycles,
    {
        TokenInfo {
            metadata: self.metadata.clone(),
            fee_to: self.metadata.fee_to.clone(),
            history_size: self.ops.len(),
            deploy_time: self.deploy_time,
            holder_number: self.balances.holders(),
            cycles,
        }
    }

    /// Moves `amount` from the caller's account to `to`. The caller pays
    /// the amount and the fee; the fee goes to the fee recipient. Where the
    /// caller holds less than both together, the transfer is rejected with
    /// `InsufficientBalance` and nothing changes. An accepted transfer is
    /// recorded in the history, and the record's index is returned.
    pub fn transfer(
        &mut self,
        caller: &Account,
        to: &Account,
        amount: u64,
        timestamp: u64,
    ) -> (receipt: TxReceipt)
        ensures
            final(self)@ == old(self)@.transfer(caller@, to@, amount, timestamp).state,
            receipt_view(receipt) == old(self)@.transfer(caller@, to@, amount, timestamp).receipt,
            receipt is Err ==> final(self)@ == old(self)@,
            final(self)@.inv(),
    {
        self.well_formed();
        let fee = self.metadata.fee;
        if (self.balances.balance_of(caller) as u128) < amount as u128 + fee as u128 {
            return Err(TxError::InsufficientBalance);
        }
        let Token { metadata, mut balances, allowances, mut ops, deploy_time } = self.take();
        _transfer(&mut balances, &metadata, caller, to, amount);
        let index = ops.add_record(
            Some(caller.clone()),
            Operation::Transfer,
            caller.clone(),
            to.clone(),
            amount,
            fee,
            timestamp,
        );
        ops.indices_dense();
        proof {
            balances.lemma_finite();
        }
        *self = Token { metadata, balances, allowances, ops, deploy_time };
        assert(self@ =~~= old(self)@.transfer(caller@, to@, amount, timestamp).state);
        Ok(index)
    }

    /// Moves `amount` from `from`'s account to `to` on behalf of the
    /// caller, who acts as a spender. Where the caller's allowance from
    /// `from` is less than the amount, the transfer is rejected with
    /// `InsufficientAllowance`; otherwise, where `from` holds less than the
    /// amount and the fee together, with `InsufficientBalance`. A rejected
    /// transfer changes nothing. An accepted one lowers the allowance by
    /// the amount and is recorded in the history; the record's index is
    /// returned.
    pub fn transfer_from(
        &mut self,
        caller: &Account,
        from: &Account,
        to: &Account,
        amount: u64,
        timestamp: u64,
    ) -> (receipt: TxReceipt)
        ensures
            final(self)@ == old(self)@.transfer_from(caller@, from@, to@, amount, timestamp).state,
            receipt_view(receipt) == old(self)@.transfer_from(
                caller@,
                from@,
                to@,
                amount,
                timestamp,
            ).receipt,
            receipt is Err ==> final(self)@ == old(self)@,
            final(self)@.inv(),
    {
        self.well_formed();
        let fee = self.metadata.fee;
        if self.allowances.allowance_of(from, caller) < amount {
            return Err(TxError::InsufficientAllowance);
        }
        if (self.balances.balance_of(from) as u128) < amount as u128 + fee as u128 {
            return Err(TxError::InsufficientBalance);
        }
        let Token { metadata, mut balances, mut allowances, mut ops, deploy_time } = self.take();
        let _ = allowances.consume_allowance(from, caller, amount);
        _transfer(&mut balances, &metadata, from, to, amount);
        let index = ops.add_record(
            Some(caller.clone()),
            Operation::TransferFrom,
            from.clone(),
            to.clone(),
            amount,
            fee,
            timestamp,
        );
        ops.indices_dense();
        proof {
            balances.lemma_finite();
        }
        *self = Token { metadata, balances, allowances, ops, deploy_time };
        assert(self@ =~~= old(self)@.transfer_from(caller@, from@, to@, amount, timestamp).state);
        Ok(index)
    }

    /// Sets what `spender` may move out of the caller's balance. The new
    /// limit replaces the old one; a limit of 0 revokes the allowance. No
    /// fee is charged. The approval is recorded in the history, and the
    /// record's index is returned.
    pub fn approve(
        &mut self,
        caller: &Account,
        spender: &Account,
        amount: u64,
        timestamp: u64,
    ) -> (receipt: TxReceipt)
        ensures
            final(self)@ == old(self)@.approve(caller@, spender@, amount, timestamp).state,
            receipt_view(receipt) == old(self)@.approve(
                caller@,
                spender@,
                amount,
                timestamp,
            ).receipt,
            receipt is Ok,
            final(self)@.inv(),
    {
        self.well_formed();
        let Token { metadata, balances, mut allowances, mut ops, deploy_time } = self.take();
        allowances.set_allowance(caller, spender, amount);
        let index = ops.add_record(
            Some(caller.clone()),
            Operation::Approve,
            caller.clone(),
            spender.clone(),
            amount,
            0,
            timestamp,
        );
        ops.indices_dense();
        *self = Token { metadata, balances, allowances, ops, deploy_time };
        assert(self@ =~~= old(self)@.approve(caller@, spender@, amount, timestamp).state);
        Ok(index)
    }

    /// All that has to be kept of the token for it to go on after a
    /// restart: its configuration, its balances, its allowances, its
    /// history and the time of its creation.
    pub fn pre_upgrade(&self) -> (payload: UpgradePayload)
        ensures
            payload@ == self@,
    {
        let payload = UpgradePayload {
            metadata: self.metadata.clone(),
            balance: self.balances.to_pairs(),
            allow: self.allowances.to_grants(),
            ops: self.ops.to_records(),
            deploy_time: self.deploy_time,
        };
        assert(payload@ =~~= self@);
        payload
    }

    /// The token that a payload describes, where the described balances add
    /// up to the described total supply and each described record carries
    /// its own position as its index; no token otherwise.
    pub fn post_upgrade(payload: UpgradePayload) -> (token: Option<Token>)
        ensures
            token_view(token) == restored(payload@),
    {
        let balances = Balances::from_pairs(&payload.balance);
        let allowances = Allowances::from_grants(&payload.allow);
        proof {
            balances.lemma_finite();
        }
        match balances.total() {
            Some(sum) => {
                if sum != payload.metadata.total_supply {
                    return None;
                }
            },
            None => {
                return None;
            },
        }
        match Ops::from_records(payload.ops) {
            Some(ops) => {
                let token = Token {
                    metadata: payload.metadata,
                    balances,
                    allowances,
                    ops,
                    deploy_time: payload.deploy_time,
                };
                assert(token@ =~~= payload@);
                Some(token)
            },
            None => None,
        }
    }
}

} // verus!
