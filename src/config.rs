//! The persisted record, its byte form in the backend's `config` slot, and
//! the decisions that the store makes around each backend access.
use crate::text::{
    ascii, ascii_bytes, bytes_equal, decimal, ends_number, field, is_digit, lemma_field_unique,
    read_field, read_literal, write_bytes, write_decimal,
};
use vstd::prelude::*;
use vstd::string::is_ascii;

verus! {

/// The user's choice: a daily window in minutes since midnight, and the
/// weekdays on which it applies.
#[derive(Clone, Copy, Debug, PartialEq, Eq, Structural)]
pub struct Config {
    pub block_time_start: u32,
    pub block_time_end: u32,
    /// Bit `i` set: weekday `i` is active, Monday being day 0.
    pub active_days: u8,
}

/// The unit that is persisted: the configuration and the minutes of use
/// counted so far.
#[derive(Clone, Copy, Debug, PartialEq, Eq, Structural)]
pub struct Storage {
    pub user_config: Config,
    pub total_usage: u32,
}

/// The payload of the case in which nothing was ever stored.
#[derive(Clone, Copy, Debug, PartialEq, Eq, Structural)]
pub struct EmptyStruct {}

/// What the slot holds: a record, or the empty object that the backend
/// hands out for a key that was never set.
#[derive(Clone, Copy, Debug, PartialEq, Eq, Structural)]
pub enum StorageSerdeWrapper {
    Storage(Storage),
    EmptyStorage(EmptyStruct),
}

#[derive(Clone, Copy, Debug, PartialEq, Eq, Structural, PartialOrd, Ord)]
pub enum StorageError {
    WontAllowStorage,
    EmptyStorage,
    StorageNotFound,
    CorruptedConfig,
}

/// Why the backend could not be used.
#[derive(Clone, Copy, Debug, PartialEq, Eq, Structural)]
pub enum BackendFault {
    /// There is no storage facility in this context.
    Unavailable,
    /// Access was refused: no permission, or the quota is used up.
    Denied,
}

impl Config {
    pub open spec fn zero() -> Config {
        Config { block_time_start: 0, block_time_end: 0, active_days: 0 }
    }
}

impl Default for Config {
    fn default() -> (r: Config)
        ensures
            r == Config::zero(),
    {
        Config { block_time_start: 0, block_time_end: 0, active_days: 0 }
    }
}

impl Storage {
    pub open spec fn zero() -> Storage {
        Storage { user_config: Config::zero(), total_usage: 0 }
    }
}

impl Default for Storage {
    fn default() -> (r: Storage)
        ensures
            r == Storage::zero(),
    {
        Storage { user_config: Config::default(), total_usage: 0 }
    }
}

pub const RECORD_HEAD: &'static str = "{\"config\":{\"user_config\":{\"block_time_start\":";

pub const END_KEY: &'static str = ",\"block_time_end\":";

pub const DAYS_KEY: &'static str = ",\"active_days\":";

pub const USAGE_KEY: &'static str = "},\"total_usage\":";

pub const RECORD_TAIL: &'static str = "}}";

pub const EMPTY_RECORD: &'static str = "{}";

/// The record from the total usage on.
pub open spec fn usage_part(s: Storage) -> Seq<u8> {
    field(ascii(USAGE_KEY@), s.total_usage as nat, ascii(RECORD_TAIL@))
}

/// The record from the active days on.
pub open spec fn days_part(s: Storage) -> Seq<u8> {
    field(ascii(DAYS_KEY@), s.user_config.active_days as nat, usage_part(s))
}

/// The record from the end of the window on.
pub open spec fn end_part(s: Storage) -> Seq<u8> {
    field(ascii(END_KEY@), s.user_config.block_time_end as nat, days_part(s))
}

/// The bytes of a stored record: an object whose `config` member holds the
/// configuration and the usage, with numbers in shortest decimal form,
/// as in `{"config":{"user_config":{"block_time_start":480,
/// "block_time_end":1020,"active_days":3},"total_usage":0}}` (on one line).
pub open spec fn record_bytes(s: Storage) -> Seq<u8> {
    field(ascii(RECORD_HEAD@), s.user_config.block_time_start as nat, end_part(s))
}

pub open spec fn wrapper_bytes(w: StorageSerdeWrapper) -> Seq<u8> {
    match w {
        StorageSerdeWrapper::Storage(s) => record_bytes(s),
        StorageSerdeWrapper::EmptyStorage(_) => ascii(EMPTY_RECORD@),
    }
}

/// Bytes decode to the value whose encoding they are; any other bytes are
/// a corrupted record.
pub open spec fn decode_wrapper(b: Seq<u8>) -> Result<StorageSerdeWrapper, StorageError> {
    if exists|w: StorageSerdeWrapper| wrapper_bytes(w) == b {
        Ok(choose|w: StorageSerdeWrapper| wrapper_bytes(w) == b)
    } else {
        Err(StorageError::CorruptedConfig)
    }
}

pub open spec fn unwrap_storage(w: StorageSerdeWrapper) -> Result<Storage, StorageError> {
    match w {
        StorageSerdeWrapper::Storage(s) => Ok(s),
        StorageSerdeWrapper::EmptyStorage(_) => Err(StorageError::EmptyStorage),
    }
}

pub proof fn lemma_record_literals()
    ensures
        is_ascii(RECORD_HEAD),
        is_ascii(END_KEY),
        is_ascii(DAYS_KEY),
        is_ascii(USAGE_KEY),
        is_ascii(RECORD_TAIL),
        is_ascii(EMPTY_RECORD),
        ascii(RECORD_HEAD@).len() > 2,
        ascii(END_KEY@).len() > 0 && !is_digit(ascii(END_KEY@)[0]),
        ascii(DAYS_KEY@).len() > 0 && !is_digit(ascii(DAYS_KEY@)[0]),
        ascii(USAGE_KEY@).len() > 0 && !is_digit(ascii(USAGE_KEY@)[0]),
        ascii(RECORD_TAIL@).len() > 0 && !is_digit(ascii(RECORD_TAIL@)[0]),
        ascii(EMPTY_RECORD@).len() == 2,
{
    reveal_strlit("{\"config\":{\"user_config\":{\"block_time_start\":");
    reveal_strlit(",\"block_time_end\":");
    reveal_strlit(",\"active_days\":");
    reveal_strlit("},\"total_usage\":");
    reveal_strlit("}}");
    reveal_strlit("{}");
}

proof fn lemma_key_first(key: Seq<u8>, n: nat, rest: Seq<u8>)
    requires
        key.len() > 0,
        !is_digit(key[0]),
    ensures
        ends_number(field(key, n, rest)),
{
    assert(field(key, n, rest)[0] == key[0]);
}

/// Each part of a record after a number starts with a non-digit.
proof fn lemma_record_parts(s: Storage)
    ensures
        ends_number(end_part(s)),
        ends_number(days_part(s)),
        ends_number(usage_part(s)),
        ends_number(ascii(RECORD_TAIL@)),
        record_bytes(s).len() > 2,
{
    lemma_record_literals();
    lemma_key_first(ascii(END_KEY@), s.user_config.block_time_end as nat, days_part(s));
    lemma_key_first(ascii(DAYS_KEY@), s.user_config.active_days as nat, usage_part(s));
    lemma_key_first(ascii(USAGE_KEY@), s.total_usage as nat, ascii(RECORD_TAIL@));
}

/// Distinct records have distinct bytes.
pub proof fn lemma_record_injective(s: Storage, t: Storage)
    requires
        record_bytes(s) == record_bytes(t),
    ensures
        s == t,
{
    lemma_record_parts(s);
    lemma_record_parts(t);
    lemma_field_unique(
        ascii(RECORD_HEAD@),
        s.user_config.block_time_start as nat,
        t.user_config.block_time_start as nat,
        end_part(s),
        end_part(t),
    );
    lemma_field_unique(
        ascii(END_KEY@),
        s.user_config.block_time_end as nat,
        t.user_config.block_time_end as nat,
        days_part(s),
        days_part(t),
    );
    lemma_field_unique(
        ascii(DAYS_KEY@),
        s.user_config.active_days as nat,
        t.user_config.active_days as nat,
        usage_part(s),
        usage_part(t),
    );
    lemma_field_unique(
        ascii(USAGE_KEY@),
        s.total_usage as nat,
        t.total_usage as nat,
        ascii(RECORD_TAIL@),
        ascii(RECORD_TAIL@),
    );
}

/// Distinct slot values have distinct bytes.
pub proof fn lemma_wrapper_injective(v: StorageSerdeWrapper, w: StorageSerdeWrapper)
    requires
        wrapper_bytes(v) == wrapper_bytes(w),
    ensures
        v == w,
{
    lemma_record_literals();
    match (v, w) {
        (StorageSerdeWrapper::Storage(s), StorageSerdeWrapper::Storage(t)) => {
            lemma_record_injective(s, t);
        },
        (StorageSerdeWrapper::Storage(s), _) => {
            lemma_record_parts(s);
        },
        (_, StorageSerdeWrapper::Storage(t)) => {
            lemma_record_parts(t);
        },
        _ => {},
    }
}

/// Decoding the bytes of a slot value gives that value back.
pub proof fn lemma_decode_encoded(w: StorageSerdeWrapper)
    ensures
        decode_wrapper(wrapper_bytes(w)) == Ok::<StorageSerdeWrapper, StorageError>(w),
{
    let b = wrapper_bytes(w);
    assert(exists|v: StorageSerdeWrapper| wrapper_bytes(v) == b);
    let c = choose|v: StorageSerdeWrapper| wrapper_bytes(v) == b;
    lemma_wrapper_injective(c, w);
}

fn write_record(s: &Storage) -> (r: Vec<u8>)
    ensures
        r@ == record_bytes(*s),
{
    proof {
        lemma_record_literals();
    }
    let mut out: Vec<u8> = Vec::new();
    write_bytes(&mut out, ascii_bytes(RECORD_HEAD));
    write_decimal(&mut out, s.user_config.block_time_start);
    write_bytes(&mut out, ascii_bytes(END_KEY));
    write_decimal(&mut out, s.user_config.block_time_end);
    write_bytes(&mut out, ascii_bytes(DAYS_KEY));
    write_decimal(&mut out, s.user_config.active_days as u32);
    write_bytes(&mut out, ascii_bytes(USAGE_KEY));
    write_decimal(&mut out, s.total_usage);
    write_bytes(&mut out, ascii_bytes(RECORD_TAIL));
    assert(out@ =~= record_bytes(*s));
    out
}

/// Finds the record whose bytes `b` are, if they are a record's.
#[verifier::rlimit(30)]
fn read_record(b: &[u8]) -> (r: Option<Storage>)
    ensures
        forall|s: Storage| b@ == #[trigger] record_bytes(s) ==> r == Some(s),
{
    let ghost is_record = exists|s: Storage| b@ == record_bytes(s);
    let ghost t = choose|s: Storage| b@ == record_bytes(s);
    proof {
        lemma_record_literals();
        lemma_record_parts(t);
        assert(b@.subrange(0, b@.len() as int) =~= b@);
        assert forall|s: Storage| b@ == #[trigger] record_bytes(s) implies s == t by {
            lemma_record_injective(s, t);
        }
    }
    let (start, at_end) = match read_field(b, 0, ascii_bytes(RECORD_HEAD)) {
        Some(x) => x,
        None => {
            assert(!is_record);
            return None;
        },
    };
    let (end, at_days) = match read_field(b, at_end, ascii_bytes(END_KEY)) {
        Some(x) => x,
        None => {
            assert(!is_record);
            return None;
        },
    };
    let (days, at_usage) = match read_field(b, at_days, ascii_bytes(DAYS_KEY)) {
        Some(x) => x,
        None => {
            assert(!is_record);
            return None;
        },
    };
    let (usage, at_tail) = match read_field(b, at_usage, ascii_bytes(USAGE_KEY)) {
        Some(x) => x,
        None => {
            assert(!is_record);
            return None;
        },
    };
    let closed = read_literal(b, at_tail, ascii_bytes(RECORD_TAIL));
    proof {
        if is_record {
            assert(b@.subrange(at_tail as int, b@.len() as int) =~= b@.subrange(
                at_tail as int,
                at_tail + ascii(RECORD_TAIL@).len(),
            ));
        }
    }
    if days > 255 || closed != Some(b.len()) {
        assert(!is_record);
        return None;
    }
    let found = Storage {
        user_config: Config { block_time_start: start, block_time_end: end, active_days: days as u8 },
        total_usage: usage,
    };
    assert(is_record ==> found == t);
    Some(found)
}

impl StorageSerdeWrapper {
    /// The bytes that the slot holds for this value.
    pub fn to_bytes(&self) -> (r: Vec<u8>)
        ensures
            r@ == wrapper_bytes(*self),
    {
        match self {
            StorageSerdeWrapper::Storage(s) => write_record(s),
            StorageSerdeWrapper::EmptyStorage(_) => {
                proof {
                    lemma_record_literals();
                }
                let mut out: Vec<u8> = Vec::new();
                write_bytes(&mut out, ascii_bytes(EMPTY_RECORD));
                out
            },
        }
    }

    /// Reads a slot value; bytes that are not the encoding of one are a
    /// corrupted record.
    pub fn from_bytes(b: &[u8]) -> (r: Result<StorageSerdeWrapper, StorageError>)
        ensures
            r == decode_wrapper(b@),
    {
        proof {
            lemma_record_literals();
        }
        if bytes_equal(b, ascii_bytes(EMPTY_RECORD)) {
            let w = StorageSerdeWrapper::EmptyStorage(EmptyStruct {});
            proof {
                lemma_decode_encoded(w);
            }
            return Ok(w);
        }
        match read_record(b) {
            Some(s) => {
                let encoded = write_record(&s);
                if bytes_equal(encoded.as_slice(), b) {
                    proof {
                        lemma_decode_encoded(StorageSerdeWrapper::Storage(s));
                    }
                    Ok(StorageSerdeWrapper::Storage(s))
                } else {
                    assert forall|w: StorageSerdeWrapper| wrapper_bytes(w) != b@ by {
                        if let StorageSerdeWrapper::Storage(t) = w {
                            if record_bytes(t) == b@ {
                                assert(Some(s) == Some(t));
                            }
                        }
                    }
                    Err(StorageError::CorruptedConfig)
                }
            },
            None => {
                assert forall|w: StorageSerdeWrapper| wrapper_bytes(w) != b@ by {
                    if let StorageSerdeWrapper::Storage(t) = w {
                        assert(record_bytes(t) != b@);
                    }
                }
                Err(StorageError::CorruptedConfig)
            },
        }
    }
}

impl TryFrom<StorageSerdeWrapper> for Storage {
    type Error = StorageError;

    fn try_from(value: StorageSerdeWrapper) -> (r: Result<Storage, StorageError>) {
        match value {
            StorageSerdeWrapper::Storage(storage) => Ok(storage),
            StorageSerdeWrapper::EmptyStorage(_) => Err(StorageError::EmptyStorage),
        }
    }
}

impl vstd::std_specs::convert::TryFromSpecImpl<StorageSerdeWrapper> for Storage {
    open spec fn obeys_try_from_spec() -> bool {
        true
    }

    open spec fn try_from_spec(v: StorageSerdeWrapper) -> Result<Storage, StorageError> {
        unwrap_storage(v)
    }
}

pub open spec fn fault_error(f: BackendFault) -> StorageError {
    match f {
        BackendFault::Unavailable => StorageError::StorageNotFound,
        BackendFault::Denied => StorageError::WontAllowStorage,
    }
}

/// What the backend handed back for a read of the slot, as bytes.
pub open spec fn read_view(read: Result<Vec<u8>, BackendFault>) -> Result<Seq<u8>, BackendFault> {
    match read {
        Ok(b) => Ok(b@),
        Err(f) => Err(f),
    }
}

/// The outcome of a read: the stored record, or why there is none.
pub open spec fn read_outcome(read: Result<Seq<u8>, BackendFault>) -> Result<Storage, StorageError> {
    match read {
        Err(f) => Err(fault_error(f)),
        Ok(b) => match decode_wrapper(b) {
            Ok(w) => unwrap_storage(w),
            Err(e) => Err(e),
        },
    }
}

/// The value that an update starts from: an empty slot counts as the
/// all-zero record, and every other failure stands.
pub open spec fn update_base(got: Result<Storage, StorageError>) -> Result<Storage, StorageError> {
    match got {
        Err(StorageError::EmptyStorage) => Ok(Storage::zero()),
        _ => got,
    }
}

/// The outcome of a write or a removal.
pub open spec fn access_outcome(outcome: Result<(), BackendFault>) -> Result<(), StorageError> {
    match outcome {
        Ok(()) => Ok(()),
        Err(f) => Err(fault_error(f)),
    }
}

pub open spec fn error_message(e: StorageError) -> Seq<char> {
    match e {
        StorageError::WontAllowStorage => "StorageError: The user has not allowed storage\n"@,
        StorageError::EmptyStorage => "StorageError: The storage is empty\n"@,
        StorageError::StorageNotFound => "StorageError: The window context/storage context was not found\n"@,
        StorageError::CorruptedConfig => "StorageError: The config is corrupted\n"@,
    }
}

impl StorageError {
    pub fn from_fault(f: BackendFault) -> (e: StorageError)
        ensures
            e == fault_error(f),
    {
        match f {
            BackendFault::Unavailable => StorageError::StorageNotFound,
            BackendFault::Denied => StorageError::WontAllowStorage,
        }
    }

    /// The message shown to the user for this error.
    pub fn to_string(&self) -> (r: String)
        ensures
            r@ == error_message(*self),
    {
        let text: &str = match self {
            StorageError::WontAllowStorage => "StorageError: The user has not allowed storage\n",
            StorageError::EmptyStorage => "StorageError: The storage is empty\n",
            StorageError::StorageNotFound => "StorageError: The window context/storage context was not found\n",
            StorageError::CorruptedConfig => "StorageError: The config is corrupted\n",
        };
        text.to_owned()
    }
}

/// Interprets what the backend returned for the slot: the stored record;
/// `EmptyStorage` for the empty object of a slot never written;
/// `CorruptedConfig` for bytes that are no encoding; the fault's error where
/// the backend could not be read.
pub fn get_storage(read: Result<Vec<u8>, BackendFault>) -> (r: Result<Storage, StorageError>)
    ensures
        r == read_outcome(read_view(read)),
{
    match read {
        Err(f) => Err(StorageError::from_fault(f)),
        Ok(bytes) => match StorageSerdeWrapper::from_bytes(bytes.as_slice()) {
            Ok(w) => Storage::try_from(w),
            Err(e) => Err(e),
        },
    }
}

/// The bytes that setting `storage` writes into the slot: the record tagged
/// as the `config` case.
pub fn set_storage(storage: &Storage) -> (bytes: Vec<u8>)
    ensures
        bytes@ == record_bytes(*storage),
{
    StorageSerdeWrapper::Storage(*storage).to_bytes()
}

/// Interprets the backend's answer to a write or a removal. Removing an
/// absent slot is no failure of the backend, so it comes out `Ok`.
pub fn remove_storage(outcome: Result<(), BackendFault>) -> (r: Result<(), StorageError>)
    ensures
        r == access_outcome(outcome),
{
    match outcome {
        Ok(()) => Ok(()),
        Err(f) => Err(StorageError::from_fault(f)),
    }
}

/// The read-and-modify half of an update: from what the backend returned
/// for the slot, the value to start from (the all-zero record where the slot
/// is empty), then `mutator` applied to it, with the bytes to write back.
/// A failed read other than an empty slot is handed on.
pub fn update_storage<F: FnOnce(Storage) -> Storage>(
    read: Result<Vec<u8>, BackendFault>,
    mutator: F,
) -> (r: Result<(Storage, Vec<u8>), StorageError>)
    requires
        forall|s: Storage| mutator.requires((s,)),
    ensures
        match update_base(read_outcome(read_view(read))) {
            Ok(base) => r matches Ok((new, bytes)) && mutator.ensures((base,), new) && bytes@
                == record_bytes(new),
            Err(e) => r == Err::<(Storage, Vec<u8>), StorageError>(e),
        },
{
    let base = match get_storage(read) {
        Ok(storage) => storage,
        Err(StorageError::EmptyStorage) => Storage::default(),
        Err(e) => return Err(e),
    };
    let new = mutator(base);
    let bytes = set_storage(&new);
    Ok((new, bytes))
}

impl Storage {
    /// This record with one more minute of use, the count staying at its
    /// largest value once there.
    pub fn add_minute(self) -> (r: Storage)
        ensures
            r.user_config == self.user_config,
            r.total_usage == if self.total_usage < u32::MAX {
                self.total_usage + 1
            } else {
                self.total_usage as int
            },
    {
        Storage { user_config: self.user_config, total_usage: self.total_usage.saturating_add(1) }
    }

    pub open spec fn with_config_spec(self, config: Config) -> Storage {
        Storage { user_config: config, total_usage: self.total_usage }
    }

    /// This record with `config` as the user's configuration.
    pub fn with_config(self, config: Config) -> (r: Storage)
        ensures
            r == self.with_config_spec(config),
    {
        Storage { user_config: config, total_usage: self.total_usage }
    }
}

impl Config {
    /// The stored configuration, from what the backend returned for the slot.
    pub fn get_config(read: Result<Vec<u8>, BackendFault>) -> (r: Result<Config, StorageError>)
        ensures
            r == match read_outcome(read_view(read)) {
                Ok(s) => Ok(s.user_config),
                Err(e) => Err(e),
            },
    {
        match get_storage(read) {
            Ok(storage) => Ok(storage.user_config),
            Err(e) => Err(e),
        }
    }

    /// Saving this configuration: the updated record and its bytes, from
    /// what the backend returned for the slot. The usage count is kept.
    pub fn flush_config(&self, read: Result<Vec<u8>, BackendFault>) -> (r: Result<
        (Storage, Vec<u8>),
        StorageError,
    >)
        ensures
            match update_base(read_outcome(read_view(read))) {
                Ok(base) => r matches Ok((new, bytes)) && new == base.with_config_spec(*self)
                    && bytes@ == record_bytes(new),
                Err(e) => r == Err::<(Storage, Vec<u8>), StorageError>(e),
            },
    {
        let config = *self;
        let replace_config = (|s: Storage| -> (t: Storage)
            ensures
                t == s.with_config_spec(config),
            { s.with_config(config) });
        update_storage(read, replace_config)
    }
}

} // verus!
