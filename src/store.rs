//! A backend held in memory, and the store's operations run against it:
//! each one the same decisions that a caller of the browser's storage makes
//! around its own reads and writes.
use crate::config::{
    access_outcome, get_storage, lemma_decode_encoded, read_outcome, read_view, record_bytes,
    remove_storage, set_storage, update_base, update_storage, wrapper_bytes, BackendFault,
    EmptyStruct, Storage, StorageError, StorageSerdeWrapper, EMPTY_RECORD,
};
use crate::text::ascii;
use vstd::prelude::*;

verus! {

/// A backend as the store sees it: what the `config` slot holds, if
/// anything, and the fault that every access meets, if any.
pub struct BackendState {
    pub slot: Option<Seq<u8>>,
    pub fault: Option<BackendFault>,
}

impl BackendState {
    /// A backend that was never written and can be used.
    pub open spec fn fresh() -> BackendState {
        BackendState { slot: None, fault: None }
    }

    /// A read of the slot: the empty object where nothing is stored.
    pub open spec fn read(self) -> Result<Seq<u8>, BackendFault> {
        match self.fault {
            Some(f) => Err(f),
            None => match self.slot {
                Some(b) => Ok(b),
                None => Ok(ascii(EMPTY_RECORD@)),
            },
        }
    }

    /// The answer to a write or a removal.
    pub open spec fn access(self) -> Result<(), BackendFault> {
        match self.fault {
            Some(f) => Err(f),
            None => Ok(()),
        }
    }

    pub open spec fn written(self, bytes: Seq<u8>) -> BackendState {
        if self.fault is Some {
            self
        } else {
            BackendState { slot: Some(bytes), fault: None }
        }
    }

    pub open spec fn removed(self) -> BackendState {
        if self.fault is Some {
            self
        } else {
            BackendState { slot: None, fault: None }
        }
    }
}

/// A backend held in memory, with one slot.
pub struct MemoryBackend {
    slot: Option<Vec<u8>>,
    fault: Option<BackendFault>,
}

impl View for MemoryBackend {
    type V = BackendState;

    closed spec fn view(&self) -> BackendState {
        BackendState {
            slot: match self.slot {
                Some(b) => Some(b@),
                None => None,
            },
            fault: self.fault,
        }
    }
}

impl MemoryBackend {
    pub fn new() -> (r: MemoryBackend)
        ensures
            r@ == BackendState::fresh(),
    {
        MemoryBackend { slot: None, fault: None }
    }

    /// A backend on which every access fails with `fault`.
    pub fn failing(fault: BackendFault) -> (r: MemoryBackend)
        ensures
            r@ == (BackendState { slot: None, fault: Some(fault) }),
    {
        MemoryBackend { slot: None, fault: Some(fault) }
    }

    /// Reads the slot as the backend would hand it out.
    pub fn read(&self) -> (r: Result<Vec<u8>, BackendFault>)
        ensures
            read_view(r) == self@.read(),
    {
        if let Some(f) = self.fault {
            return Err(f);
        }
        match &self.slot {
            Some(b) => {
                let mut copy: Vec<u8> = Vec::new();
                crate::text::write_bytes(&mut copy, b.as_slice());
                assert(copy@ =~= b@);
                Ok(copy)
            },
            None => Ok(StorageSerdeWrapper::EmptyStorage(EmptyStruct {}).to_bytes()),
        }
    }

    /// Puts `bytes` into the slot as they are.
    pub fn write(&mut self, bytes: Vec<u8>) -> (r: Result<(), BackendFault>)
        ensures
            r == old(self)@.access(),
            final(self)@ == old(self)@.written(bytes@),
    {
        if let Some(f) = self.fault {
            return Err(f);
        }
        self.slot = Some(bytes);
        Ok(())
    }

    /// Empties the slot; an empty slot stays empty.
    pub fn delete(&mut self) -> (r: Result<(), BackendFault>)
        ensures
            r == old(self)@.access(),
            final(self)@ == old(self)@.removed(),
    {
        if let Some(f) = self.fault {
            return Err(f);
        }
        self.slot = None;
        Ok(())
    }

    pub fn get(&self) -> (r: Result<Storage, StorageError>)
        ensures
            r == read_outcome(self@.read()),
    {
        get_storage(self.read())
    }

    pub fn set(&mut self, storage: Storage) -> (r: Result<(), StorageError>)
        ensures
            r == access_outcome(old(self)@.access()),
            final(self)@ == old(self)@.written(record_bytes(storage)),
    {
        let outcome = self.write(set_storage(&storage));
        remove_storage(outcome)
    }

    pub fn remove(&mut self) -> (r: Result<(), StorageError>)
        ensures
            r == access_outcome(old(self)@.access()),
            final(self)@ == old(self)@.removed(),
            old(self)@.fault is None ==> r == Ok::<(), StorageError>(()),
    {
        let outcome = self.delete();
        remove_storage(outcome)
    }

    /// Reads the record (the all-zero one where the slot is empty), applies
    /// `mutator`, writes the result back and returns it.
    pub fn update<F: FnOnce(Storage) -> Storage>(&mut self, mutator: F) -> (r: Result<
        Storage,
        StorageError,
    >)
        requires
            forall|s: Storage| mutator.requires((s,)),
        ensures
            match update_base(read_outcome(old(self)@.read())) {
                Ok(base) => r matches Ok(new) && mutator.ensures((base,), new) && final(self)@
                    == old(self)@.written(record_bytes(new)),
                Err(e) => r == Err::<Storage, StorageError>(e) && final(self)@ == old(self)@,
            },
    {
        let (new, bytes) = match update_storage(self.read(), mutator) {
            Ok(x) => x,
            Err(e) => return Err(e),
        };
        match remove_storage(self.write(bytes)) {
            Ok(()) => Ok(new),
            Err(e) => Err(e),
        }
    }
}

/// Whatever record is set, a later get returns it.
pub proof fn lemma_set_then_get(st: BackendState, s: Storage)
    requires
        st.fault is None,
    ensures
        read_outcome(st.written(record_bytes(s)).read()) == Ok::<Storage, StorageError>(s),
{
    lemma_decode_encoded(StorageSerdeWrapper::Storage(s));
}

/// A backend never written reads as empty, never as the all-zero record.
pub proof fn lemma_fresh_is_empty()
    ensures
        read_outcome(BackendState::fresh().read()) == Err::<Storage, StorageError>(
            StorageError::EmptyStorage,
        ),
{
    lemma_decode_encoded(StorageSerdeWrapper::EmptyStorage(EmptyStruct {}));
}

/// An update of an empty backend starts from the all-zero record, and the
/// value it writes is what a later get returns.
pub proof fn lemma_update_on_empty(st: BackendState, new: Storage)
    requires
        st.fault is None,
        st.slot is None,
    ensures
        update_base(read_outcome(st.read())) == Ok::<Storage, StorageError>(Storage::zero()),
        read_outcome(st.written(record_bytes(new)).read()) == Ok::<Storage, StorageError>(new),
{
    lemma_fresh_is_empty();
    assert(st == BackendState::fresh());
    lemma_set_then_get(st, new);
}

/// Removing from an empty backend succeeds and leaves it empty.
pub proof fn lemma_remove_absent(st: BackendState)
    requires
        st.fault is None,
        st.slot is None,
    ensures
        access_outcome(st.access()) == Ok::<(), StorageError>(()),
        st.removed() == st,
{
}

/// Bytes in the slot that encode no value are reported as a corrupted
/// record, never replaced by a default.
pub proof fn lemma_corrupt_slot(st: BackendState, b: Seq<u8>)
    requires
        st.fault is None,
        st.slot == Some(b),
        forall|w: StorageSerdeWrapper| wrapper_bytes(w) != b,
    ensures
        read_outcome(st.read()) == Err::<Storage, StorageError>(StorageError::CorruptedConfig),
{
}

} // verus!
