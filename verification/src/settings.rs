use crate::layers::apply_env_variables;
use crate::layers::layered;
use crate::layers::populate_hashmap;
use crate::layers::EnvVar;
use crate::layers::Table;
use crate::text::str_equal;
use vstd::prelude::*;

verus! {

/// Why a setting could not be read.
#[derive(Debug)]
pub enum Error {
    /// The key is present, but its value is not of the type asked for.
    ParseValueError { key: String },
    /// No value is stored under the key.
    MissingKey { key: String },
}

/// An `Error` as plain values.
pub enum ErrorView {
    ParseValueError { key: Seq<char> },
    MissingKey { key: Seq<char> },
}

impl View for Error {
    type V = ErrorView;

    open spec fn view(&self) -> ErrorView {
        match self {
            Error::ParseValueError { key } => ErrorView::ParseValueError { key: key@ },
            Error::MissingKey { key } => ErrorView::MissingKey { key: key@ },
        }
    }
}

/// A stored value. A float is held as the bit pattern of a 64-bit IEEE 754
/// number; a string that is not valid UTF-8 is held as its bytes.
#[derive(Debug, PartialEq)]
pub enum ConfigValue {
    Bool(bool),
    Int(i64),
    Float(u64),
    String(String),
    RawBytes(Vec<u8>),
}

/// A stored value as plain values.
pub enum Value {
    Bool(bool),
    Int(i64),
    Float(u64),
    Text(Seq<char>),
    Bytes(Seq<u8>),
}

impl View for ConfigValue {
    type V = Value;

    open spec fn view(&self) -> Value {
        match self {
            ConfigValue::Bool(b) => Value::Bool(*b),
            ConfigValue::Int(i) => Value::Int(*i),
            ConfigValue::Float(bits) => Value::Float(*bits),
            ConfigValue::String(s) => Value::Text(s@),
            ConfigValue::RawBytes(bytes) => Value::Bytes(bytes@),
        }
    }
}

impl ConfigValue {
    /// A copy of the value.
    pub fn duplicate(&self) -> (copy: ConfigValue)
        ensures
            copy@ == self@,
    {
        match self {
            ConfigValue::Bool(b) => ConfigValue::Bool(*b),
            ConfigValue::Int(i) => ConfigValue::Int(*i),
            ConfigValue::Float(bits) => ConfigValue::Float(*bits),
            ConfigValue::String(s) => ConfigValue::String(s.clone()),
            ConfigValue::RawBytes(bytes) => {
                let copy = bytes.clone();
                assert(copy@ == bytes@);
                ConfigValue::RawBytes(copy)
            },
        }
    }
}

/// A number read from the settings: an integer, or the bit pattern of a
/// 64-bit float.
#[derive(Clone, Copy, Debug, PartialEq, Eq)]
pub enum Number {
    Int(i64),
    Float(u64),
}

/// A type that a stored value can be read as.
pub trait FromValue: Sized {
    /// Whether `value` can be read as this type.
    spec fn readable(value: Value) -> bool;

    /// Whether `out` is what `value` reads as.
    spec fn reads_as(value: Value, out: Self) -> bool;

    /// Reads `value` as this type.
    fn from_value(value: &ConfigValue) -> (out: Option<Self>)
        ensures
            out is Some <==> Self::readable(value@),
            out matches Some(x) ==> Self::reads_as(value@, x),
    ;
}

impl FromValue for bool {
    open spec fn readable(value: Value) -> bool {
        value is Bool
    }

    open spec fn reads_as(value: Value, out: bool) -> bool {
        value == Value::Bool(out)
    }

    fn from_value(value: &ConfigValue) -> (out: Option<bool>) {
        match value {
            ConfigValue::Bool(b) => Some(*b),
            _ => None,
        }
    }
}

impl FromValue for i64 {
    open spec fn readable(value: Value) -> bool {
        value is Int
    }

    open spec fn reads_as(value: Value, out: i64) -> bool {
        value == Value::Int(out)
    }

    fn from_value(value: &ConfigValue) -> (out: Option<i64>) {
        match value {
            ConfigValue::Int(i) => Some(*i),
            _ => None,
        }
    }
}

impl FromValue for u64 {
    open spec fn readable(value: Value) -> bool {
        value matches Value::Int(i) && i >= 0
    }

    open spec fn reads_as(value: Value, out: u64) -> bool {
        value matches Value::Int(i) && i == out
    }

    fn from_value(value: &ConfigValue) -> (out: Option<u64>) {
        match value {
            ConfigValue::Int(i) => if *i >= 0 {
                Some(*i as u64)
            } else {
                None
            },
            _ => None,
        }
    }
}

impl FromValue for usize {
    open spec fn readable(value: Value) -> bool {
        value matches Value::Int(i) && 0 <= i <= usize::MAX
    }

    open spec fn reads_as(value: Value, out: usize) -> bool {
        value matches Value::Int(i) && i == out
    }

    fn from_value(value: &ConfigValue) -> (out: Option<usize>) {
        match value {
            ConfigValue::Int(i) => if *i >= 0 && *i as u64 <= usize::MAX as u64 {
                Some(*i as usize)
            } else {
                None
            },
            _ => None,
        }
    }
}

impl FromValue for u16 {
    open spec fn readable(value: Value) -> bool {
        value matches Value::Int(i) && 0 <= i <= u16::MAX
    }

    open spec fn reads_as(value: Value, out: u16) -> bool {
        value matches Value::Int(i) && i == out
    }

    fn from_value(value: &ConfigValue) -> (out: Option<u16>) {
        match value {
            ConfigValue::Int(i) => if *i >= 0 && *i <= 65535 {
                Some(*i as u16)
            } else {
                None
            },
            _ => None,
        }
    }
}

impl FromValue for Number {
    open spec fn readable(value: Value) -> bool {
        value is Int || value is Float
    }

    open spec fn reads_as(value: Value, out: Number) -> bool {
        match out {
            Number::Int(i) => value == Value::Int(i),
            Number::Float(bits) => value == Value::Float(bits),
        }
    }

    fn from_value(value: &ConfigValue) -> (out: Option<Number>) {
        match value {
            ConfigValue::Int(i) => Some(Number::Int(*i)),
            ConfigValue::Float(bits) => Some(Number::Float(*bits)),
            _ => None,
        }
    }
}

impl FromValue for String {
    open spec fn readable(value: Value) -> bool {
        value is Text
    }

    open spec fn reads_as(value: Value, out: String) -> bool {
        value == Value::Text(out@)
    }

    fn from_value(value: &ConfigValue) -> (out: Option<String>) {
        match value {
            ConfigValue::String(s) => Some(s.clone()),
            _ => None,
        }
    }
}

impl FromValue for Vec<u8> {
    open spec fn readable(value: Value) -> bool {
        value is Bytes
    }

    open spec fn reads_as(value: Value, out: Vec<u8>) -> bool {
        value == Value::Bytes(out@)
    }

    fn from_value(value: &ConfigValue) -> (out: Option<Vec<u8>>) {
        match value {
            ConfigValue::RawBytes(bytes) => {
                let copy = bytes.clone();
                assert(copy@ == bytes@);
                Some(copy)
            },
            _ => None,
        }
    }
}

/// A key and the value stored under it.
#[derive(Debug, PartialEq)]
pub struct Setting {
    pub key: String,
    pub value: ConfigValue,
}

/// Whether some entry has the key.
pub open spec fn has_key(entries: Seq<Setting>, key: Seq<char>) -> bool {
    exists|i: int| 0 <= i < entries.len() && (#[trigger] entries[i]).key@ == key
}

/// The place of an entry with the key.
pub open spec fn key_index(entries: Seq<Setting>, key: Seq<char>) -> int {
    choose|i: int| 0 <= i < entries.len() && (#[trigger] entries[i]).key@ == key
}

/// Whether no two entries share a key.
pub open spec fn distinct_keys(entries: Seq<Setting>) -> bool {
    forall|i: int, j: int|
        0 <= i < j < entries.len() ==> (#[trigger] entries[i]).key@ != (#[trigger] entries[j]).key@
}

/// The mapping that a list of entries with distinct keys stands for.
pub open spec fn entries_map(entries: Seq<Setting>) -> Map<Seq<char>, Value> {
    Map::new(
        |key: Seq<char>| has_key(entries, key),
        |key: Seq<char>| entries[key_index(entries, key)].value@,
    )
}

/// The error that reading `key` gives where it gives one: the key is
/// missing, or else its value has another type.
pub open spec fn lookup_error(settings: Map<Seq<char>, Value>, key: Seq<char>) -> ErrorView {
    if settings.contains_key(key) {
        ErrorView::ParseValueError { key }
    } else {
        ErrorView::MissingKey { key }
    }
}

/// The settings: a mapping from dotted keys, `<namespace>.<name>`, to values.
/// Each key is stored once.
#[derive(Debug)]
pub struct Settings {
    entries: Vec<Setting>,
}

impl View for Settings {
    type V = Map<Seq<char>, Value>;

    closed spec fn view(&self) -> Map<Seq<char>, Value> {
        entries_map(self.entries@)
    }
}

impl Settings {
    #[verifier::type_invariant]
    spec fn well_formed(self) -> bool {
        distinct_keys(self.entries@)
    }

    /// Builds the settings from three layers: the namespaces of the default
    /// scripts, those of the override scripts, and the variables of the
    /// environment. A later layer wins over an earlier one; within a layer a
    /// later entry wins over an earlier one.
    pub fn new(
        defaults: &Vec<Table>,
        overrides: &Vec<Table>,
        env: &Vec<EnvVar>,
        prefix: &str,
    ) -> (settings: Settings)
        ensures
            settings@ == layered(defaults@, overrides@, env@, prefix@),
    {
        let settings = populate_hashmap(Settings::empty(), defaults);
        let settings = populate_hashmap(settings, overrides);
        apply_env_variables(settings, env, prefix)
    }

    /// Settings that hold nothing.
    pub fn empty() -> (settings: Settings)
        ensures
            settings@ == Map::<Seq<char>, Value>::empty(),
    {
        let settings = Settings { entries: Vec::new() };
        assert(settings@ =~= Map::<Seq<char>, Value>::empty());
        settings
    }

    /// The place of the entry with the key, if there is one.
    fn find(&self, key: &str) -> (place: Option<usize>)
        ensures
            place matches Some(i) ==> i < self.entries@.len() && self.entries@[i as int].key@
                == key@,
            place is None ==> !has_key(self.entries@, key@),
    {
        let mut i: usize = 0;
        while i < self.entries.len()
            invariant
                i <= self.entries.len(),
                forall|j: int| 0 <= j < i ==> (#[trigger] self.entries@[j]).key@ != key@,
            decreases self.entries.len() - i,
        {
            if str_equal(self.entries[i].key.as_str(), key) {
                return Some(i);
            }
            i += 1;
        }
        None
    }

    /// The value stored under `key`, if there is one.
    pub fn get(&self, key: &str) -> (value: Option<&ConfigValue>)
        ensures
            value is Some <==> self@.contains_key(key@),
            value matches Some(v) ==> v@ == self@[key@],
    {
        proof {
            use_type_invariant(self);
        }
        match self.find(key) {
            Some(i) => {
                assert(has_key(self.entries@, key@));
                Some(&self.entries[i].value)
            },
            None => None,
        }
    }

    /// The settings with `value` stored under `key`, in place of what was
    /// stored there.
    pub fn with(self, key: String, value: ConfigValue) -> (settings: Settings)
        ensures
            settings@ == self@.insert(key@, value@),
    {
        proof {
            use_type_invariant(&self);
        }
        let ghost before = self.entries@;
        let place = self.find(key.as_str());
        let mut entries = self.entries;
        match place {
            Some(i) => {
                let ghost after = before.update(i as int, Setting { key, value });
                proof {
                    assert(distinct_keys(after));
                    assert forall|k: Seq<char>| has_key(after, k) == has_key(before, k) by {
                        if has_key(before, k) {
                            let j = key_index(before, k);
                            assert(after[j].key@ == k);
                        }
                        if has_key(after, k) {
                            let j = key_index(after, k);
                            assert(before[j].key@ == k);
                        }
                    }
                    assert forall|k: Seq<char>| has_key(after, k) implies entries_map(after)[k]
                        == entries_map(before).insert(key@, value@)[k] by {
                        let j = key_index(after, k);
                        if k != key@ {
                            let j0 = key_index(before, k);
                            assert(before[j].key@ == k);
                            assert(j0 == j);
                        } else {
                            assert(after[i as int].key@ == k);
                            assert(j == i);
                        }
                    }
                    assert(entries_map(after) =~= entries_map(before).insert(key@, value@));
                }
                entries.set(i, Setting { key, value });
            },
            None => {
                let ghost after = before.push(Setting { key, value });
                proof {
                    assert(distinct_keys(after));
                    assert forall|k: Seq<char>| has_key(after, k) == (has_key(before, k) || k
                        == key@) by {
                        if has_key(before, k) {
                            let j = key_index(before, k);
                            assert(after[j].key@ == k);
                        }
                        if k == key@ {
                            assert(after[before.len() as int].key@ == k);
                        }
                    }
                    assert forall|k: Seq<char>| has_key(after, k) implies entries_map(after)[k]
                        == entries_map(before).insert(key@, value@)[k] by {
                        let j = key_index(after, k);
                        if k != key@ {
                            let j0 = key_index(before, k);
                            assert(after[j0].key@ == k);
                            assert(j0 == j);
                        } else {
                            assert(after[before.len() as int].key@ == k);
                            assert(j == before.len());
                        }
                    }
                    assert(entries_map(after) =~= entries_map(before).insert(key@, value@));
                }
                entries.push(Setting { key, value });
            },
        }
        Settings { entries }
    }

    /// Reads the value stored under `key` as an `R`.
    pub fn try_get<R: FromValue>(&self, key: &str) -> (value: Result<R, Error>)
        ensures
            value is Ok <==> self@.contains_key(key@) && R::readable(self@[key@]),
            value matches Ok(out) ==> R::reads_as(self@[key@], out),
            value matches Err(e) ==> e@ == lookup_error(self@, key@),
    {
        match self.get(key) {
            Some(stored) => match R::from_value(stored) {
                Some(out) => Ok(out),
                None => Err(Error::ParseValueError { key: key.to_owned() }),
            },
            None => Err(Error::MissingKey { key: key.to_owned() }),
        }
    }
}

} // verus!
