//! The history: an append-only list of the accepted operations.

use crate::account::Account;
use crate::model::{add_record, dense, OpRecordView};
use vstd::prelude::*;

verus! {

/// The kind of an operation.
#[derive(Clone, Copy, Debug, PartialEq, Eq, Structural)]
pub enum Operation {
    Mint,
    Transfer,
    TransferFrom,
    Approve,
}

/// The record of one accepted operation.
#[derive(Debug)]
pub struct OpRecord {
    pub caller: Option<Account>,
    pub op: Operation,
    pub index: usize,
    pub from: Account,
    pub to: Account,
    pub amount: u64,
    pub fee: u64,
    pub timestamp: u64,
}

/// The identifier of an optional caller.
pub open spec fn caller_view(caller: Option<Account>) -> Option<Seq<u8>> {
    match caller {
        Some(account) => Some(account@),
        None => None,
    }
}

impl View for OpRecord {
    type V = OpRecordView;

    open spec fn view(&self) -> OpRecordView {
        OpRecordView {
            caller: caller_view(self.caller),
            op: self.op,
            index: self.index as nat,
            from: self.from@,
            to: self.to@,
            amount: self.amount,
            fee: self.fee,
            timestamp: self.timestamp,
        }
    }
}

impl Clone for OpRecord {
    fn clone(&self) -> (copy: OpRecord)
        ensures
            copy@ == self@,
    {
        let caller = match &self.caller {
            Some(account) => Some(account.clone()),
            None => None,
        };
        OpRecord {
            caller,
            op: self.op,
            index: self.index,
            from: self.from.clone(),
            to: self.to.clone(),
            amount: self.amount,
            fee: self.fee,
            timestamp: self.timestamp,
        }
    }
}

/// The records of a list, each as a mathematical value.
pub open spec fn records_view(records: Seq<OpRecord>) -> Seq<OpRecordView> {
    Seq::new(records.len(), |i: int| records[i]@)
}

/// The history of a token. Each record's index is its position.
pub struct Ops {
    records: Vec<OpRecord>,
}

impl View for Ops {
    type V = Seq<OpRecordView>;

    closed spec fn view(&self) -> Seq<OpRecordView> {
        records_view(self.records@)
    }
}

impl Ops {
    #[verifier::type_invariant]
    spec fn indexed_by_position(&self) -> bool {
        dense(self@)
    }

    /// The empty history.
    pub fn new() -> (ops: Ops)
        ensures
            ops@ == Seq::<OpRecordView>::empty(),
    {
        let ops = Ops { records: Vec::new() };
        assert(ops@ =~= Seq::<OpRecordView>::empty());
        ops
    }

    /// States what holds of every history: each record carries its own
    /// position as its index. The call does nothing when it runs; a
    /// verified caller learns the fact from it.
    pub fn indices_dense(&self)
        ensures
            dense(self@),
    {
        proof {
            use_type_invariant(self);
        }
    }

    /// The number of records.
    pub fn len(&self) -> (n: usize)
        ensures
            n == self@.len(),
    {
        self.records.len()
    }

    /// The record at an index, if the history has that many records.
    pub fn get(&self, index: usize) -> (record: Option<&OpRecord>)
        ensures
            match record {
                Some(r) => index < self@.len() && r@ == self@[index as int],
                None => index >= self@.len(),
            },
    {
        if index < self.records.len() {
            Some(&self.records[index])
        } else {
            None
        }
    }

    /// A copy of all records, in order.
    pub fn to_records(&self) -> (records: Vec<OpRecord>)
        ensures
            records_view(records@) == self@,
    {
        let mut records: Vec<OpRecord> = Vec::new();
        let mut i: usize = 0;
        while i < self.records.len()
            invariant
                i <= self.records.len(),
                records_view(records@) =~= self@.take(i as int),
            decreases self.records.len() - i,
        {
            let ghost before = records_view(records@);
            records.push(self.records[i].clone());
            assert(records_view(records@) =~= before.push(self@[i as int]));
            i += 1;
        }
        assert(self@.take(self.records.len() as int) =~= self@);
        records
    }

    /// The history made of the given records, where each of them carries
    /// its own position as its index.
    pub fn from_records(records: Vec<OpRecord>) -> (ops: Option<Ops>)
        ensures
            match ops {
                Some(o) => dense(records_view(records@)) && o@ == records_view(records@),
                None => !dense(records_view(records@)),
            },
    {
        let mut i: usize = 0;
        while i < records.len()
            invariant
                i <= records.len(),
                forall|j: int| 0 <= j < i ==> (#[trigger] records_view(records@)[j]).index == j,
            decreases records.len() - i,
        {
            if records[i].index != i {
                assert(records_view(records@)[i as int].index != i);
                return None;
            }
            i += 1;
        }
        Some(Ops { records })
    }

    /// Appends the record of an operation and returns the index that the
    /// record got, which is the number of records before it.
    pub fn add_record(
        &mut self,
        caller: Option<Account>,
        op: Operation,
        from: Account,
        to: Account,
        amount: u64,
        fee: u64,
        timestamp: u64,
    ) -> (index: usize)
        ensures
            index == old(self)@.len(),
            final(self)@ == add_record(
                old(self)@,
                caller_view(caller),
                op,
                from@,
                to@,
                amount,
                fee,
                timestamp,
            ),
    {
        proof {
            use_type_invariant(&*self);
        }
        let mut records = Vec::new();
        std::mem::swap(&mut records, &mut self.records);
        let index = records.len();
        records.push(OpRecord { caller, op, index, from, to, amount, fee, timestamp });
        proof {
            let before = old(self)@;
            let after = records_view(records@);
            assert(after =~= add_record(
                before,
                caller_view(caller),
                op,
                from@,
                to@,
                amount,
                fee,
                timestamp,
            ));
        }
        self.records = records;
        index
    }
}

} // verus!
