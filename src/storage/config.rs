//! The window settings as text: `{"block_time_start":S,"block_time_end":E}`.
use crate::config::BackendFault;
use crate::text::{
    ascii, ascii_bytes, bytes_equal, ends_number, field, is_digit, lemma_field_unique, read_field,
    read_literal, write_bytes, write_decimal,
};
use vstd::prelude::*;
use vstd::string::is_ascii;

verus! {

#[derive(Clone, Copy, Debug, PartialEq, Eq, Structural)]
pub struct Config {
    /// Minutes since midnight.
    pub block_time_start: u32,
    pub block_time_end: u32,
}

#[derive(Clone, Copy, Debug, PartialEq, Eq, Structural, PartialOrd, Ord)]
pub enum ConfigError {
    WontAllowStorage,
    EmptyStorage,
    StorageNotFound,
    CorruptedConfig,
}

pub const CONFIG_HEAD: &'static str = "{\"block_time_start\":";

pub const CONFIG_END_KEY: &'static str = ",\"block_time_end\":";

pub const CONFIG_TAIL: &'static str = "}";

/// The text of a configuration, numbers in shortest decimal form.
pub open spec fn config_bytes(c: Config) -> Seq<u8> {
    field(
        ascii(CONFIG_HEAD@),
        c.block_time_start as nat,
        field(ascii(CONFIG_END_KEY@), c.block_time_end as nat, ascii(CONFIG_TAIL@)),
    )
}

/// Text decodes to the configuration whose text it is; any other text is a
/// corrupted configuration.
pub open spec fn decode_config(b: Seq<u8>) -> Result<Config, ConfigError> {
    if exists|c: Config| config_bytes(c) == b {
        Ok(choose|c: Config| config_bytes(c) == b)
    } else {
        Err(ConfigError::CorruptedConfig)
    }
}

pub open spec fn config_fault_error(f: BackendFault) -> ConfigError {
    match f {
        BackendFault::Unavailable => ConfigError::StorageNotFound,
        BackendFault::Denied => ConfigError::WontAllowStorage,
    }
}

/// What a read of the `config` item gives: the configuration; nothing
/// stored is `EmptyStorage`.
pub open spec fn item_outcome(item: Result<Option<Vec<u8>>, BackendFault>) -> Result<
    Config,
    ConfigError,
> {
    match item {
        Err(f) => Err(config_fault_error(f)),
        Ok(None) => Err(ConfigError::EmptyStorage),
        Ok(Some(b)) => decode_config(b@),
    }
}

pub open spec fn config_error_message(e: ConfigError) -> Seq<char> {
    match e {
        ConfigError::WontAllowStorage => "StorageError: The user has not allowed storage\n"@,
        ConfigError::EmptyStorage => "StorageError: The storage is empty\n"@,
        ConfigError::StorageNotFound => "StorageError: The window context/storage context was not found\n"@,
        ConfigError::CorruptedConfig => "StorageError: The config is corrupted\n"@,
    }
}

proof fn lemma_config_literals()
    ensures
        is_ascii(CONFIG_HEAD),
        is_ascii(CONFIG_END_KEY),
        is_ascii(CONFIG_TAIL),
        ascii(CONFIG_END_KEY@).len() > 0 && !is_digit(ascii(CONFIG_END_KEY@)[0]),
        ascii(CONFIG_TAIL@).len() > 0 && !is_digit(ascii(CONFIG_TAIL@)[0]),
{
    reveal_strlit("{\"block_time_start\":");
    reveal_strlit(",\"block_time_end\":");
    reveal_strlit("}");
}

proof fn lemma_config_parts(c: Config)
    ensures
        ends_number(field(ascii(CONFIG_END_KEY@), c.block_time_end as nat, ascii(CONFIG_TAIL@))),
        ends_number(ascii(CONFIG_TAIL@)),
{
    lemma_config_literals();
    let rest = field(ascii(CONFIG_END_KEY@), c.block_time_end as nat, ascii(CONFIG_TAIL@));
    assert(rest[0] == ascii(CONFIG_END_KEY@)[0]);
}

/// Distinct configurations have distinct texts.
pub proof fn lemma_config_injective(c: Config, d: Config)
    requires
        config_bytes(c) == config_bytes(d),
    ensures
        c == d,
{
    lemma_config_parts(c);
    lemma_config_parts(d);
    lemma_field_unique(
        ascii(CONFIG_HEAD@),
        c.block_time_start as nat,
        d.block_time_start as nat,
        field(ascii(CONFIG_END_KEY@), c.block_time_end as nat, ascii(CONFIG_TAIL@)),
        field(ascii(CONFIG_END_KEY@), d.block_time_end as nat, ascii(CONFIG_TAIL@)),
    );
    lemma_field_unique(
        ascii(CONFIG_END_KEY@),
        c.block_time_end as nat,
        d.block_time_end as nat,
        ascii(CONFIG_TAIL@),
        ascii(CONFIG_TAIL@),
    );
}

/// The text of a configuration decodes to that configuration.
pub proof fn lemma_config_round_trip(c: Config)
    ensures
        decode_config(config_bytes(c)) == Ok::<Config, ConfigError>(c),
{
    let b = config_bytes(c);
    assert(exists|d: Config| config_bytes(d) == b);
    let d = choose|d: Config| config_bytes(d) == b;
    lemma_config_injective(c, d);
}

/// Finds the configuration whose text `b` is, if it is one's.
fn read_config(b: &[u8]) -> (r: Option<Config>)
    ensures
        forall|c: Config| b@ == #[trigger] config_bytes(c) ==> r == Some(c),
{
    let ghost is_config = exists|c: Config| b@ == config_bytes(c);
    let ghost t = choose|c: Config| b@ == config_bytes(c);
    proof {
        lemma_config_literals();
        lemma_config_parts(t);
        assert(b@.subrange(0, b@.len() as int) =~= b@);
        assert forall|c: Config| b@ == #[trigger] config_bytes(c) implies c == t by {
            lemma_config_injective(c, t);
        }
    }
    let (start, at_end) = match read_field(b, 0, ascii_bytes(CONFIG_HEAD)) {
        Some(x) => x,
        None => {
            assert(!is_config);
            return None;
        },
    };
    let (end, at_tail) = match read_field(b, at_end, ascii_bytes(CONFIG_END_KEY)) {
        Some(x) => x,
        None => {
            assert(!is_config);
            return None;
        },
    };
    let closed = read_literal(b, at_tail, ascii_bytes(CONFIG_TAIL));
    proof {
        if is_config {
            assert(b@.subrange(at_tail as int, b@.len() as int) =~= b@.subrange(
                at_tail as int,
                at_tail + ascii(CONFIG_TAIL@).len(),
            ));
        }
    }
    if closed != Some(b.len()) {
        assert(!is_config);
        return None;
    }
    let found = Config { block_time_start: start, block_time_end: end };
    assert(is_config ==> found == t);
    Some(found)
}

impl ConfigError {
    pub fn from_fault(f: BackendFault) -> (e: ConfigError)
        ensures
            e == config_fault_error(f),
    {
        match f {
            BackendFault::Unavailable => ConfigError::StorageNotFound,
            BackendFault::Denied => ConfigError::WontAllowStorage,
        }
    }

    /// The message shown to the user for this error.
    pub fn to_string(&self) -> (r: String)
        ensures
            r@ == config_error_message(*self),
    {
        let text: &str = match self {
            ConfigError::WontAllowStorage => "StorageError: The user has not allowed storage\n",
            ConfigError::EmptyStorage => "StorageError: The storage is empty\n",
            ConfigError::StorageNotFound => "StorageError: The window context/storage context was not found\n",
            ConfigError::CorruptedConfig => "StorageError: The config is corrupted\n",
        };
        text.to_owned()
    }
}

/// Interprets a read of the `config` item: the configuration it holds;
/// `EmptyStorage` where nothing is stored; `CorruptedConfig` for text that
/// is no configuration's; the fault's error where storage could not be read.
pub fn get_configs(item: Result<Option<Vec<u8>>, BackendFault>) -> (r: Result<Config, ConfigError>)
    ensures
        r == item_outcome(item),
{
    let text = match item {
        Err(f) => return Err(ConfigError::from_fault(f)),
        Ok(None) => return Err(ConfigError::EmptyStorage),
        Ok(Some(text)) => text,
    };
    match read_config(text.as_slice()) {
        Some(c) => {
            let encoded = set_configs(&c);
            if bytes_equal(encoded.as_slice(), text.as_slice()) {
                proof {
                    lemma_config_round_trip(c);
                }
                Ok(c)
            } else {
                assert forall|d: Config| config_bytes(d) != text@ by {
                    if config_bytes(d) == text@ {
                        assert(Some(c) == Some(d));
                    }
                }
                Err(ConfigError::CorruptedConfig)
            }
        },
        None => {
            assert forall|d: Config| config_bytes(d) != text@ by {
                assert(config_bytes(d) != text@);
            }
            Err(ConfigError::CorruptedConfig)
        },
    }
}

/// The text that storing `config` writes under the `config` key.
pub fn set_configs(config: &Config) -> (text: Vec<u8>)
    ensures
        text@ == config_bytes(*config),
{
    proof {
        lemma_config_literals();
    }
    let mut out: Vec<u8> = Vec::new();
    write_bytes(&mut out, ascii_bytes(CONFIG_HEAD));
    write_decimal(&mut out, config.block_time_start);
    write_bytes(&mut out, ascii_bytes(CONFIG_END_KEY));
    write_decimal(&mut out, config.block_time_end);
    write_bytes(&mut out, ascii_bytes(CONFIG_TAIL));
    assert(out@ =~= config_bytes(*config));
    out
}

/// Interprets the answer to a removal of the `config` item. Removing an
/// item that is not there succeeds.
pub fn remove_configs(outcome: Result<(), BackendFault>) -> (r: Result<(), ConfigError>)
    ensures
        r == match outcome {
            Ok(()) => Ok(()),
            Err(f) => Err(config_fault_error(f)),
        },
{
    match outcome {
        Ok(()) => Ok(()),
        Err(f) => Err(ConfigError::from_fault(f)),
    }
}

} // verus!
