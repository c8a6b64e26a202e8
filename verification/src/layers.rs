use crate::settings::ConfigValue;
use crate::settings::Setting;
use crate::settings::Settings;
use crate::settings::Value;
use crate::text::bool_text;
use crate::text::chars_of;
use crate::text::decimal_i64;
use crate::text::parse_bool;
use crate::text::parse_i64;
use vstd::prelude::*;

verus! {

/// A namespace of a script layer: its name and the settings in it, each
/// under its name within the namespace.
#[derive(Debug, PartialEq)]
pub struct Table {
    pub name: String,
    pub settings: Vec<Setting>,
}

/// A variable of the environment: its name, its value, and the bit pattern
/// of the 64-bit float that the value writes, where it writes one. The
/// library holds no floating point, so whoever reads the environment says
/// whether the value is a float.
#[derive(Debug, PartialEq)]
pub struct EnvVar {
    pub name: String,
    pub value: String,
    pub float_bits: Option<u64>,
}

/// The key of a setting: its namespace, a dot, and its name.
pub open spec fn dotted(namespace: Seq<char>, name: Seq<char>) -> Seq<char> {
    namespace + seq!['.'] + name
}

/// Joins a namespace and a name into a key.
pub fn dotted_key(namespace: &str, name: &str) -> (key: String)
    ensures
        key@ == dotted(namespace@, name@),
{
    proof {
        reveal_strlit(".");
        assert("."@ == seq!['.']);
    }
    let mut key = namespace.to_owned();
    key.append(".");
    key.append(name);
    key
}

/// What `str::to_lowercase` of the standard library gives for a text.
pub uninterp spec fn lowercase_of(s: Seq<char>) -> Seq<char>;

/// `str::to_lowercase` gives the lowercase equivalent of a text as a new
/// `String`. The contract only names the result: the same text always gives
/// the same.
pub assume_specification[ str::to_lowercase ](s: &str) -> (lower: String)
    ensures
        lower@ == lowercase_of(s@),
;

/// The key that a variable of the environment overlays. The name has to
/// start with the prefix and an underscore; what follows is cut at its first
/// underscore into a namespace, which is put in lowercase, and a name, which
/// is kept as it is. `None` for a variable of any other form.
pub open spec fn env_key(name: Seq<char>, prefix: Seq<char>) -> Option<Seq<char>> {
    let head = prefix.len() + 1;
    if name.len() >= head && name.take(prefix.len() as int) == prefix && name[prefix.len() as int]
        == '_' {
        let rest = name.skip(head as int);
        match rest.index_of_first('_') {
            Some(cut) => Some(dotted(lowercase_of(rest.take(cut)), rest.skip(cut + 1))),
            None => None,
        }
    } else {
        None
    }
}

/// The key that the variable `name` overlays under `prefix`, if it has the
/// form of an overlay.
pub fn overlay_key(name: &str, prefix: &str) -> (key: Option<String>)
    ensures
        key is Some <==> env_key(name@, prefix@) is Some,
        key matches Some(k) ==> Some(k@) == env_key(name@, prefix@),
{
    let name_chars = chars_of(name);
    let prefix_chars = chars_of(prefix);
    let n = name_chars.len();
    let p = prefix_chars.len();
    if n <= p {
        return None;
    }
    let mut i: usize = 0;
    while i < p
        invariant
            i <= p < n,
            n == name_chars.len(),
            p == prefix_chars.len(),
            name_chars@ == name@,
            prefix_chars@ == prefix@,
            forall|j: int| 0 <= j < i ==> name@[j] == prefix@[j],
        decreases p - i,
    {
        if name_chars[i] != prefix_chars[i] {
            assert(name@.take(p as int)[i as int] != prefix@[i as int]);
            return None;
        }
        i += 1;
    }
    assert(name@.take(p as int) == prefix@);
    if name_chars[p] != '_' {
        return None;
    }
    let head = p + 1;
    let ghost rest = name@.skip(head as int);
    let mut cut: usize = head;
    while cut < n && name_chars[cut] != '_'
        invariant
            head <= cut <= n,
            n == name_chars.len(),
            name_chars@ == name@,
            rest == name@.skip(head as int),
            forall|j: int| 0 <= j < cut - head ==> rest[j] != '_',
        decreases n - cut,
    {
        cut += 1;
    }
    proof {
        rest.index_of_first_ensures('_');
    }
    if cut == n {
        assert(!rest.contains('_'));
        return None;
    }
    proof {
        assert(rest[cut - head] == '_');
        assert(rest.contains('_'));
        assert(rest.index_of_first('_') == Some(cut - head));
        assert(rest.take(cut - head) == name@.subrange(head as int, cut as int));
        assert(rest.skip(cut - head + 1) == name@.subrange(cut + 1, n as int));
    }
    let namespace = name.substring_char(head, cut).to_lowercase();
    let rest_name = name.substring_char(cut + 1, n);
    Some(dotted_key(namespace.as_str(), rest_name))
}

/// The value that the text of a variable stands for: an integer where the
/// text writes one; else a float where it writes one; else a truth value
/// where it is `true` or `false`; else the text itself.
pub open spec fn coerce(text: Seq<char>, float_bits: Option<u64>) -> Value {
    match decimal_i64(text) {
        Some(i) => Value::Int(i),
        None => match float_bits {
            Some(bits) => Value::Float(bits),
            None => match bool_text(text) {
                Some(b) => Value::Bool(b),
                None => Value::Text(text),
            },
        },
    }
}

/// Turns the text of a variable into a value. `float_bits` is the bit
/// pattern of the float that the text writes, or `None` where it writes
/// none.
pub fn str_to_value(s: &str, float_bits: Option<u64>) -> (value: ConfigValue)
    ensures
        value@ == coerce(s@, float_bits),
{
    match parse_i64(s) {
        Some(i) => ConfigValue::Int(i),
        None => match float_bits {
            Some(bits) => ConfigValue::Float(bits),
            None => match parse_bool(s) {
                Some(b) => ConfigValue::Bool(b),
                None => ConfigValue::String(s.to_owned()),
            },
        },
    }
}

/// A mapping after the settings of one namespace were stored in it, in
/// their order.
pub open spec fn with_table(
    base: Map<Seq<char>, Value>,
    name: Seq<char>,
    settings: Seq<Setting>,
) -> Map<Seq<char>, Value>
    decreases settings.len(),
{
    if settings.len() == 0 {
        base
    } else {
        with_table(base, name, settings.drop_last()).insert(
            dotted(name, settings.last().key@),
            settings.last().value@,
        )
    }
}

/// A mapping after the namespaces of a script layer were stored in it, in
/// their order.
pub open spec fn with_tables(base: Map<Seq<char>, Value>, tables: Seq<Table>) -> Map<
    Seq<char>,
    Value,
>
    decreases tables.len(),
{
    if tables.len() == 0 {
        base
    } else {
        with_table(
            with_tables(base, tables.drop_last()),
            tables.last().name@,
            tables.last().settings@,
        )
    }
}

/// A mapping after the variables of the environment were laid over it, in
/// their order. A variable that has not the form of an overlay changes
/// nothing.
pub open spec fn with_env(base: Map<Seq<char>, Value>, vars: Seq<EnvVar>, prefix: Seq<char>) -> Map<
    Seq<char>,
    Value,
>
    decreases vars.len(),
{
    if vars.len() == 0 {
        base
    } else {
        let before = with_env(base, vars.drop_last(), prefix);
        match env_key(vars.last().name@, prefix) {
            Some(key) => before.insert(key, coerce(vars.last().value@, vars.last().float_bits)),
            None => before,
        }
    }
}

/// The settings that three layers give: the default scripts, then the
/// override scripts, then the environment. A later layer wins over an
/// earlier one.
pub open spec fn layered(
    defaults: Seq<Table>,
    overrides: Seq<Table>,
    env: Seq<EnvVar>,
    prefix: Seq<char>,
) -> Map<Seq<char>, Value> {
    with_env(with_tables(with_tables(Map::empty(), defaults), overrides), env, prefix)
}

/// Stores the settings of one namespace under their dotted keys.
fn populate_table(settings: Settings, table: &Table) -> (filled: Settings)
    ensures
        filled@ == with_table(settings@, table.name@, table.settings@),
{
    let mut filled = settings;
    let mut i: usize = 0;
    proof {
        assert(table.settings@.take(0) == Seq::<Setting>::empty());
    }
    while i < table.settings.len()
        invariant
            i <= table.settings.len(),
            filled@ == with_table(settings@, table.name@, table.settings@.take(i as int)),
        decreases table.settings.len() - i,
    {
        let setting = &table.settings[i];
        let key = dotted_key(table.name.as_str(), setting.key.as_str());
        proof {
            let next = table.settings@.take(i + 1);
            assert(next.drop_last() == table.settings@.take(i as int));
            assert(next.last() == table.settings@[i as int]);
        }
        filled = filled.with(key, setting.value.duplicate());
        i += 1;
    }
    proof {
        assert(table.settings@.take(table.settings.len() as int) == table.settings@);
    }
    filled
}

/// Stores the settings of every namespace of a script layer under their
/// dotted keys: the setting `bar` of the namespace `foo` under `foo.bar`.
pub fn populate_hashmap(settings: Settings, tables: &Vec<Table>) -> (filled: Settings)
    ensures
        filled@ == with_tables(settings@, tables@),
{
    let mut filled = settings;
    let mut i: usize = 0;
    proof {
        assert(tables@.take(0) == Seq::<Table>::empty());
    }
    while i < tables.len()
        invariant
            i <= tables.len(),
            filled@ == with_tables(settings@, tables@.take(i as int)),
        decreases tables.len() - i,
    {
        proof {
            let next = tables@.take(i + 1);
            assert(next.drop_last() == tables@.take(i as int));
            assert(next.last() == tables@[i as int]);
        }
        filled = populate_table(filled, &tables[i]);
        i += 1;
    }
    proof {
        assert(tables@.take(tables.len() as int) == tables@);
    }
    filled
}

/// Lays the variables of the environment over the settings: a variable
/// `<PREFIX>_<NAMESPACE>_<REST>` stores its value under
/// `<namespace>.<REST>`, with the namespace in lowercase.
pub fn apply_env_variables(settings: Settings, vars: &Vec<EnvVar>, prefix: &str) -> (laid: Settings)
    ensures
        laid@ == with_env(settings@, vars@, prefix@),
{
    let mut laid = settings;
    let mut i: usize = 0;
    proof {
        assert(vars@.take(0) == Seq::<EnvVar>::empty());
    }
    while i < vars.len()
        invariant
            i <= vars.len(),
            laid@ == with_env(settings@, vars@.take(i as int), prefix@),
        decreases vars.len() - i,
    {
        let var = &vars[i];
        proof {
            let next = vars@.take(i + 1);
            assert(next.drop_last() == vars@.take(i as int));
            assert(next.last() == vars@[i as int]);
        }
        match overlay_key(var.name.as_str(), prefix) {
            Some(key) => {
                laid = laid.with(key, str_to_value(var.value.as_str(), var.float_bits));
            },
            None => {},
        }
        i += 1;
    }
    proof {
        assert(vars@.take(vars.len() as int) == vars@);
    }
    laid
}

/// The environment wins: where a variable overlays a key and no later
/// variable overlays the same key, the settings hold the variable's value
/// under that key, whatever the layers below hold.
pub proof fn lemma_env_overrides(
    base: Map<Seq<char>, Value>,
    vars: Seq<EnvVar>,
    prefix: Seq<char>,
    i: int,
)
    requires
        0 <= i < vars.len(),
        env_key(vars[i].name@, prefix) is Some,
        forall|j: int|
            i < j < vars.len() ==> env_key(#[trigger] vars[j].name@, prefix) != env_key(
                vars[i].name@,
                prefix,
            ),
    ensures
        with_env(base, vars, prefix).contains_key(env_key(vars[i].name@, prefix)->0),
        with_env(base, vars, prefix)[env_key(vars[i].name@, prefix)->0] == coerce(
            vars[i].value@,
            vars[i].float_bits,
        ),
    decreases vars.len(),
{
    if i < vars.len() - 1 {
        let shorter = vars.drop_last();
        assert(shorter[i] == vars[i]);
        assert forall|j: int| i < j < shorter.len() implies env_key(
            #[trigger] shorter[j].name@,
            prefix,
        ) != env_key(shorter[i].name@, prefix) by {
            assert(shorter[j] == vars[j]);
        }
        lemma_env_overrides(base, shorter, prefix, i);
        assert(env_key(vars[vars.len() - 1].name@, prefix) != env_key(vars[i].name@, prefix));
    }
}

/// Within a namespace a later setting wins: where no later setting of the
/// namespace has the same name, the mapping holds the setting's value under
/// its dotted key, whatever it held before.
pub proof fn lemma_last_setting_wins(
    base: Map<Seq<char>, Value>,
    name: Seq<char>,
    settings: Seq<Setting>,
    i: int,
)
    requires
        0 <= i < settings.len(),
        forall|j: int|
            i < j < settings.len() ==> dotted(name, (#[trigger] settings[j]).key@) != dotted(
                name,
                settings[i].key@,
            ),
    ensures
        with_table(base, name, settings).contains_key(dotted(name, settings[i].key@)),
        with_table(base, name, settings)[dotted(name, settings[i].key@)] == settings[i].value@,
    decreases settings.len(),
{
    if i < settings.len() - 1 {
        let shorter = settings.drop_last();
        assert(shorter[i] == settings[i]);
        assert forall|j: int| i < j < shorter.len() implies dotted(
            name,
            (#[trigger] shorter[j]).key@,
        ) != dotted(name, shorter[i].key@) by {
            assert(shorter[j] == settings[j]);
        }
        lemma_last_setting_wins(base, name, shorter, i);
        assert(dotted(name, settings[settings.len() - 1].key@) != dotted(name, settings[i].key@));
    }
}

/// A namespace changes nothing under a key that none of its settings has.
pub proof fn lemma_table_keeps_other_keys(
    base: Map<Seq<char>, Value>,
    name: Seq<char>,
    settings: Seq<Setting>,
    key: Seq<char>,
)
    requires
        forall|j: int| 0 <= j < settings.len() ==> dotted(name, (#[trigger] settings[j]).key@) != key,
    ensures
        with_table(base, name, settings).contains_key(key) == base.contains_key(key),
        with_table(base, name, settings)[key] == base[key],
    decreases settings.len(),
{
    if settings.len() > 0 {
        let shorter = settings.drop_last();
        assert forall|j: int| 0 <= j < shorter.len() implies dotted(
            name,
            (#[trigger] shorter[j]).key@,
        ) != key by {
            assert(shorter[j] == settings[j]);
        }
        lemma_table_keeps_other_keys(base, name, shorter, key);
        assert(dotted(name, settings[settings.len() - 1].key@) != key);
    }
}

/// A later layer wins over an earlier one: where a setting of a script
/// layer is the last of the layer with its dotted key, the mapping holds its
/// value under that key, whatever the layers below hold.
pub proof fn lemma_layer_overrides(base: Map<Seq<char>, Value>, tables: Seq<Table>, t: int, i: int)
    requires
        0 <= t < tables.len(),
        0 <= i < tables[t].settings@.len(),
        forall|j: int|
            i < j < tables[t].settings@.len() ==> dotted(
                tables[t].name@,
                (#[trigger] tables[t].settings@[j]).key@,
            ) != dotted(tables[t].name@, tables[t].settings@[i].key@),
        forall|u: int, j: int|
            t < u < tables.len() && 0 <= j < tables[u].settings@.len() ==> dotted(
                tables[u].name@,
                (#[trigger] tables[u].settings@[j]).key@,
            ) != dotted(tables[t].name@, tables[t].settings@[i].key@),
    ensures
        with_tables(base, tables).contains_key(
            dotted(tables[t].name@, tables[t].settings@[i].key@),
        ),
        with_tables(base, tables)[dotted(tables[t].name@, tables[t].settings@[i].key@)]
            == tables[t].settings@[i].value@,
    decreases tables.len(),
{
    let key = dotted(tables[t].name@, tables[t].settings@[i].key@);
    let last = tables.last();
    let below = with_tables(base, tables.drop_last());
    if t == tables.len() - 1 {
        lemma_last_setting_wins(below, last.name@, last.settings@, i);
    } else {
        let shorter = tables.drop_last();
        assert(shorter[t] == tables[t]);
        assert forall|u: int, j: int|
            t < u < shorter.len() && 0 <= j < shorter[u].settings@.len() implies dotted(
            shorter[u].name@,
            (#[trigger] shorter[u].settings@[j]).key@,
        ) != key by {
            assert(shorter[u] == tables[u]);
        }
        lemma_layer_overrides(base, shorter, t, i);
        assert forall|j: int| 0 <= j < last.settings@.len() implies dotted(
            last.name@,
            (#[trigger] last.settings@[j]).key@,
        ) != key by {
            assert(tables[tables.len() - 1] == last);
        }
        lemma_table_keeps_other_keys(below, last.name@, last.settings@, key);
    }
}

/// The environment changes nothing under a key that no variable overlays.
pub proof fn lemma_env_keeps_other_keys(
    base: Map<Seq<char>, Value>,
    vars: Seq<EnvVar>,
    prefix: Seq<char>,
    key: Seq<char>,
)
    requires
        forall|j: int| 0 <= j < vars.len() ==> env_key((#[trigger] vars[j]).name@, prefix) != Some(key),
    ensures
        with_env(base, vars, prefix).contains_key(key) == base.contains_key(key),
        with_env(base, vars, prefix)[key] == base[key],
    decreases vars.len(),
{
    if vars.len() > 0 {
        let shorter = vars.drop_last();
        assert forall|j: int| 0 <= j < shorter.len() implies env_key(
            (#[trigger] shorter[j]).name@,
            prefix,
        ) != Some(key) by {
            assert(shorter[j] == vars[j]);
        }
        lemma_env_keeps_other_keys(base, shorter, prefix, key);
        assert(env_key(vars[vars.len() - 1].name@, prefix) != Some(key));
    }
}

} // verus!
