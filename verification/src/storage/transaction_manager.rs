//! Transactions: their identifiers, and what each live one has touched.
use crate::constants::MAX_TRANSACTION_ID;
use crate::storage::kvkey::{copy_bytes, KVKey};
use crate::utils::varint::{spec_varint_encode, varint_encode};
use std::collections::HashMap;
use vstd::prelude::*;
use vstd::std_specs::hash::*;

verus! {

/// The identifier of a transaction.
#[derive(Debug, Clone, Copy, PartialEq, Eq, PartialOrd, Ord, Hash, Structural)]
pub struct TransactionId(pub u64);

/// Why the transaction manager refuses a request.
#[derive(Debug, Clone, Copy, PartialEq, Eq, Structural)]
pub enum TransactionManagerError {
    /// Every identifier up to `MAX_TRANSACTION_ID` has been handed out.
    TransactionIdOutOfRange,
    /// The transaction was never started, or has been committed or aborted.
    TransactionNotAlive,
}

impl TransactionManagerError {
    /// The name of the error.
    pub fn to_string(&self) -> (text: String)
        ensures
            text@ == match *self {
                TransactionManagerError::TransactionIdOutOfRange => "TransactionManagerError::TransactionIdOutOfRange"@,
                TransactionManagerError::TransactionNotAlive => "TransactionManagerError::TransactionNotAlive"@,
            },
    {
        match self {
            TransactionManagerError::TransactionIdOutOfRange => String::from_str(
                "TransactionManagerError::TransactionIdOutOfRange",
            ),
            TransactionManagerError::TransactionNotAlive => String::from_str(
                "TransactionManagerError::TransactionNotAlive",
            ),
        }
    }
}

impl View for TransactionId {
    type V = u64;

    open spec fn view(&self) -> u64 {
        self.0
    }
}

impl TransactionId {
    pub fn new(data: u64) -> (id: TransactionId)
        ensures
            id@ == data,
    {
        TransactionId(data)
    }

    /// Steps to the next identifier, and returns it. At `MAX_TRANSACTION_ID`
    /// and above nothing changes.
    pub fn increment(&mut self) -> (result: Result<TransactionId, TransactionManagerError>)
        ensures
            old(self)@ >= MAX_TRANSACTION_ID ==> result == Err::<
                TransactionId,
                TransactionManagerError,
            >(TransactionManagerError::TransactionIdOutOfRange) && *final(self) == *old(self),
            old(self)@ < MAX_TRANSACTION_ID ==> final(self)@ == old(self)@ + 1 && result == Ok::<
                TransactionId,
                TransactionManagerError,
            >(*final(self)),
    {
        if self.0 >= MAX_TRANSACTION_ID {
            return Err(TransactionManagerError::TransactionIdOutOfRange);
        }
        self.0 = self.0 + 1;
        Ok(TransactionId(self.0))
    }

    pub fn as_u64(&self) -> (data: u64)
        ensures
            data == self@,
    {
        self.0
    }

    /// The identifier as it is written in the log.
    pub fn serialize(&self) -> (out: Vec<u8>)
        ensures
            out@ == spec_varint_encode(self@ as nat),
    {
        varint_encode(self.as_u64())
    }
}

/// The keys of `keys`, each as the sequence of its bytes.
pub open spec fn keys_view(keys: Seq<KVKey>) -> Seq<Seq<u8>> {
    Seq::new(keys.len(), |i: int| keys[i]@)
}

/// A copy of `keys`.
pub fn copy_keys(keys: &Vec<KVKey>) -> (out: Vec<KVKey>)
    ensures
        keys_view(out@) == keys_view(keys@),
{
    let mut out: Vec<KVKey> = Vec::new();
    let mut i: usize = 0;
    while i < keys.len()
        invariant
            i <= keys@.len(),
            out@.len() == i,
            forall|j: int| 0 <= j < i ==> out@[j]@ == keys@[j]@,
        decreases keys.len() - i,
    {
        out.push(copy_bytes(keys[i].as_slice()));
        i = i + 1;
    }
    assert(keys_view(out@) =~= keys_view(keys@));
    out
}

/// What is kept about a live transaction.
#[derive(Debug, Clone)]
pub struct TransactionMetaData {
    /// The keys that the transaction has written to, in the order of the
    /// writes. A key stands once for each write.
    pub affected_keys: Vec<KVKey>,
}

impl TransactionMetaData {
    pub fn new(affected_keys: Vec<KVKey>) -> (meta: TransactionMetaData)
        ensures
            meta.affected_keys == affected_keys,
    {
        TransactionMetaData { affected_keys }
    }
}

/// The transactions of an engine as mathematical values.
pub struct TransactionManagerView {
    /// The highest identifier handed out or seen so far.
    pub counter: u64,
    /// The affected keys of each live transaction.
    pub live: Map<u64, Seq<Seq<u8>>>,
}

/// Hands out transaction identifiers and keeps the affected keys of every live
/// transaction.
#[derive(Debug, Clone)]
pub struct TransactionManager {
    current_transaction_id: TransactionId,
    transactions: HashMap<u64, TransactionMetaData>,
}

impl View for TransactionManager {
    type V = TransactionManagerView;

    closed spec fn view(&self) -> TransactionManagerView {
        TransactionManagerView {
            counter: self.current_transaction_id@,
            live: Map::new(
                |t: u64| self.transactions@.contains_key(t),
                |t: u64| keys_view(self.transactions@[t].affected_keys@),
            ),
        }
    }
}

impl TransactionManager {
    /// A manager that has handed out no identifier.
    pub fn new() -> (manager: TransactionManager)
        ensures
            manager@.counter == 0,
            manager@.live == Map::<u64, Seq<Seq<u8>>>::empty(),
    {
        let manager = TransactionManager {
            current_transaction_id: TransactionId::new(0),
            transactions: HashMap::new(),
        };
        assert(manager@.live =~= Map::<u64, Seq<Seq<u8>>>::empty());
        manager
    }

    /// Hands out the next identifier. The live transactions stay as they are:
    /// the new one is installed by `initialize_transaction`.
    pub fn generate_new_transaction_id(&mut self) -> (result: Result<
        TransactionId,
        TransactionManagerError,
    >)
        ensures
            final(self)@.live == old(self)@.live,
            old(self)@.counter >= MAX_TRANSACTION_ID ==> result == Err::<
                TransactionId,
                TransactionManagerError,
            >(TransactionManagerError::TransactionIdOutOfRange) && final(self)@.counter == old(
                self,
            )@.counter,
            old(self)@.counter < MAX_TRANSACTION_ID ==> result == Ok::<
                TransactionId,
                TransactionManagerError,
            >(TransactionId((old(self)@.counter + 1) as u64)) && final(self)@.counter == old(
                self,
            )@.counter + 1,
    {
        let result = self.current_transaction_id.increment();
        assert(self@.live =~= old(self)@.live);
        result
    }

    /// Raises the highest identifier to `transaction_id`, unless it is that
    /// high already.
    pub fn update_transaction_id(&mut self, transaction_id: &TransactionId)
        ensures
            final(self)@.live == old(self)@.live,
            final(self)@.counter == if transaction_id@ > old(self)@.counter {
                transaction_id@
            } else {
                old(self)@.counter
            },
    {
        if transaction_id.0 > self.current_transaction_id.0 {
            self.current_transaction_id = *transaction_id;
        }
        assert(self@.live =~= old(self)@.live);
    }

    /// Notes that the transaction has written to `key`.
    pub fn add_affected_keys(&mut self, transaction_id: &TransactionId, key: &KVKey) -> (result:
        Result<(), TransactionManagerError>)
        ensures
            final(self)@.counter == old(self)@.counter,
            old(self)@.live.contains_key(transaction_id@) ==> result is Ok && final(self)@.live
                == old(self)@.live.insert(
                transaction_id@,
                old(self)@.live[transaction_id@].push(key@),
            ),
            !old(self)@.live.contains_key(transaction_id@) ==> result == Err::<
                (),
                TransactionManagerError,
            >(TransactionManagerError::TransactionNotAlive) && final(self)@.live == old(
                self,
            )@.live,
    {
        broadcast use group_hash_axioms;

        match self.transactions.remove(&transaction_id.0) {
            Some(meta) => {
                let mut meta = meta;
                let ghost before = meta.affected_keys@;
                meta.affected_keys.push(copy_bytes(key.as_slice()));
                assert(keys_view(meta.affected_keys@) =~= keys_view(before).push(key@));
                self.transactions.insert(transaction_id.0, meta);
                assert(self@.live =~= old(self)@.live.insert(
                    transaction_id@,
                    old(self)@.live[transaction_id@].push(key@),
                ));
                Ok(())
            },
            None => {
                assert(self@.live =~= old(self)@.live);
                Err(TransactionManagerError::TransactionNotAlive)
            },
        }
    }

    /// Installs the transaction with no affected keys. If it was live before,
    /// its affected keys are forgotten.
    pub fn initialize_transaction(&mut self, transaction_id: &TransactionId)
        ensures
            final(self)@.counter == old(self)@.counter,
            final(self)@.live == old(self)@.live.insert(transaction_id@, Seq::empty()),
    {
        broadcast use group_hash_axioms;

        let meta = TransactionMetaData::new(Vec::new());
        assert(keys_view(meta.affected_keys@) =~= Seq::<Seq<u8>>::empty());
        self.transactions.insert(transaction_id.0, meta);
        assert(self@.live =~= old(self)@.live.insert(transaction_id@, Seq::empty()));
    }

    /// Says whether the transaction is live.
    pub fn validate_transaction_id(&self, transaction_id: &TransactionId) -> (result: Result<
        (),
        TransactionManagerError,
    >)
        ensures
            self@.live.contains_key(transaction_id@) ==> result is Ok,
            !self@.live.contains_key(transaction_id@) ==> result == Err::<
                (),
                TransactionManagerError,
            >(TransactionManagerError::TransactionNotAlive),
    {
        broadcast use group_hash_axioms;

        if self.transactions.contains_key(&transaction_id.0) {
            Ok(())
        } else {
            Err(TransactionManagerError::TransactionNotAlive)
        }
    }

    /// The keys that the transaction has written to, in the order of the
    /// writes; none for a transaction that is not live.
    pub fn get_affected_keys(&self, transaction_id: &TransactionId) -> (keys: Vec<KVKey>)
        ensures
            keys_view(keys@) == if self@.live.contains_key(transaction_id@) {
                self@.live[transaction_id@]
            } else {
                Seq::empty()
            },
    {
        broadcast use group_hash_axioms;

        match self.transactions.get(&transaction_id.0) {
            Some(meta) => copy_keys(&meta.affected_keys),
            None => {
                let keys: Vec<KVKey> = Vec::new();
                assert(keys_view(keys@) =~= Seq::<Seq<u8>>::empty());
                keys
            },
        }
    }

    /// Forgets the transaction.
    pub fn remove_transaction(&mut self, transaction_id: &TransactionId)
        ensures
            final(self)@.counter == old(self)@.counter,
            final(self)@.live == old(self)@.live.remove(transaction_id@),
    {
        broadcast use group_hash_axioms;

        self.transactions.remove(&transaction_id.0);
        assert(self@.live =~= old(self)@.live.remove(transaction_id@));
    }

    /// What is kept about the transaction, if it is live.
    pub fn get_transaction_meta_data(&self, transaction_id: &TransactionId) -> (result: Result<
        TransactionMetaData,
        TransactionManagerError,
    >)
        ensures
            match result {
                Ok(meta) => self@.live.contains_key(transaction_id@) && keys_view(
                    meta.affected_keys@,
                ) == self@.live[transaction_id@],
                Err(e) => !self@.live.contains_key(transaction_id@) && e
                    == TransactionManagerError::TransactionNotAlive,
            },
    {
        broadcast use group_hash_axioms;

        match self.transactions.get(&transaction_id.0) {
            Some(meta) => Ok(TransactionMetaData::new(copy_keys(&meta.affected_keys))),
            None => Err(TransactionManagerError::TransactionNotAlive),
        }
    }

    /// The highest identifier handed out or seen so far.
    pub fn current_transaction_id(&self) -> (id: TransactionId)
        ensures
            id@ == self@.counter,
    {
        self.current_transaction_id
    }

    /// Whether the transaction is live.
    pub fn is_live(&self, transaction_id: &TransactionId) -> (live: bool)
        ensures
            live == self@.live.contains_key(transaction_id@),
    {
        broadcast use group_hash_axioms;

        self.transactions.contains_key(&transaction_id.0)
    }
}

} // verus!
