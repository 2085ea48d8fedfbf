//! Configuration, and where every value came from.
//!
//! On a machine you cannot log into the question is never "what is the
//! config" but "did my edit take effect", so every value carries the layer
//! it was resolved from: default, then file, then environment, then command
//! line, each later layer winning when it supplies a value.
//!
//! Reading the file and the environment is the caller's business; what they
//! supplied arrives here as plain values. Receiver coordinates are carried
//! as `C`, a type this module never looks inside.
use crate::hex::{chars_of, trim_chars, trim_ws};
use crate::registry::{self, is_baseline, ImplSet, RegistryError};
use crate::source::{parse_unsigned, parse_unsigned_spec, string_of, Gain, SourceSpec};
use crate::text::{decimal, padded, push_decimal, push_padded, push_signed_decimal, push_str, str_eq};
use vstd::prelude::*;

verus! {

/// Which layer a value came from.
#[derive(Clone, Debug, PartialEq, Eq)]
pub enum Origin {
    Default,
    File(String),
    /// A `SKYWARD_*` variable that a `.env` file supplied.
    DotEnv(&'static str),
    Env(&'static str),
    Cli,
    /// Expanded from a named `impl_set` preset.
    Preset(String),
}

impl Origin {
    pub open spec fn text(self) -> Seq<char> {
        match self {
            Origin::Default => "default"@,
            Origin::File(path) => path@,
            Origin::DotEnv(name) => "$"@ + name@ + " (.env)"@,
            Origin::Env(name) => "$"@ + name@,
            Origin::Cli => "command line"@,
            Origin::Preset(name) => "impl_set '"@ + name@ + "'"@,
        }
    }

    /// How the origin reads in a config dump.
    pub fn to_string(&self) -> (s: String)
        ensures
            s@ == self.text(),
    {
        let mut s = String::new();
        match self {
            Origin::Default => push_str(&mut s, "default"),
            Origin::File(path) => push_str(&mut s, path.as_str()),
            Origin::DotEnv(name) => {
                push_str(&mut s, "$");
                push_str(&mut s, name);
                push_str(&mut s, " (.env)");
            },
            Origin::Env(name) => {
                push_str(&mut s, "$");
                push_str(&mut s, name);
            },
            Origin::Cli => push_str(&mut s, "command line"),
            Origin::Preset(name) => {
                push_str(&mut s, "impl_set '");
                push_str(&mut s, name.as_str());
                push_str(&mut s, "'");
            },
        }
        s
    }

    fn duplicate(&self) -> (o: Origin)
        ensures
            o == *self,
    {
        match self {
            Origin::Default => Origin::Default,
            Origin::File(path) => Origin::File(copy_string(path)),
            Origin::DotEnv(name) => Origin::DotEnv(name),
            Origin::Env(name) => Origin::Env(name),
            Origin::Cli => Origin::Cli,
            Origin::Preset(name) => Origin::Preset(copy_string(name)),
        }
    }
}

fn copy_string(s: &String) -> (c: String)
    ensures
        c == *s,
{
    s.clone()
}

/// A value together with where it came from.
#[derive(Clone, Debug, PartialEq)]
pub struct Sourced<T> {
    pub value: T,
    pub origin: Origin,
}

impl<T> Sourced<T> {
    pub fn new(value: T, origin: Origin) -> (s: Self)
        ensures
            s.value == value,
            s.origin == origin,
    {
        Sourced { value, origin }
    }

    /// Layer another value on top, if one was supplied.
    pub fn or_layer(self, candidate: Option<T>, origin: Origin) -> (s: Self)
        ensures
            s == (match candidate {
                Some(v) => Sourced { value: v, origin },
                None => self,
            }),
    {
        match candidate {
            Some(value) => Sourced { value, origin },
            None => self,
        }
    }
}

/// A value resolved through layers, each `(candidate, origin)` applied in
/// order: the last layer that supplies a value wins, else the default.
pub open spec fn layered<T>(default: Sourced<T>, layers: Seq<(Option<T>, Origin)>) -> Sourced<T>
    decreases layers.len(),
{
    if layers.len() == 0 {
        default
    } else {
        let below = layered(default, layers.drop_last());
        match layers.last().0 {
            Some(v) => Sourced { value: v, origin: layers.last().1 },
            None => below,
        }
    }
}

/// Later layers win: a value supplied by the last layer is the result,
/// whatever came before; a layer that supplies nothing changes nothing.
pub proof fn lemma_last_layer_wins<T>(default: Sourced<T>, layers: Seq<(Option<T>, Origin)>, top: (Option<T>, Origin))
    ensures
        top.0 matches Some(v) ==> layered(default, layers.push(top)) == (Sourced { value: v, origin: top.1 }),
        top.0 is None ==> layered(default, layers.push(top)) == layered(default, layers),
{
    assert(layers.push(top).drop_last() =~= layers);
}

/// Which of a `.env` file's keys reach the process: those the real
/// environment has not already set (`already_set[i]` for entry `i`).
pub fn keys_supplied_by_file(entries: &[(String, String)], already_set: &[bool]) -> (keys: Vec<String>)
    requires
        already_set@.len() == entries@.len(),
    ensures
        keys@ == supplied_keys(entries@, already_set@),
{
    let mut keys: Vec<String> = Vec::new();
    let mut i: usize = 0;
    while i < entries.len()
        invariant
            i <= entries@.len(),
            already_set@.len() == entries@.len(),
            keys@ == supplied_keys(entries@.take(i as int), already_set@.take(i as int)),
        decreases entries@.len() - i,
    {
        proof {
            assert(entries@.take(i + 1).drop_last() =~= entries@.take(i as int));
            assert(already_set@.take(i + 1).drop_last() =~= already_set@.take(i as int));
        }
        if !already_set[i] {
            keys.push(copy_string(&entries[i].0));
        }
        i = i + 1;
    }
    proof {
        assert(entries@.take(entries@.len() as int) =~= entries@);
        assert(already_set@.take(already_set@.len() as int) =~= already_set@);
    }
    keys
}

/// The keys of `entries` whose flag is clear, in order.
pub open spec fn supplied_keys(entries: Seq<(String, String)>, already_set: Seq<bool>) -> Seq<String>
    decreases entries.len(),
{
    if entries.len() == 0 || already_set.len() == 0 {
        Seq::empty()
    } else {
        let rest = supplied_keys(entries.drop_last(), already_set.drop_last());
        if already_set.last() {
            rest
        } else {
            rest.push(entries.last().0)
        }
    }
}

/// Attribute an environment variable to the `.env` file or to the real
/// environment.
pub fn env_origin(name: &'static str, from_dotenv: bool) -> (o: Origin)
    ensures
        o == (if from_dotenv { Origin::DotEnv(name) } else { Origin::Env(name) }),
{
    if from_dotenv {
        Origin::DotEnv(name)
    } else {
        Origin::Env(name)
    }
}

/// An environment value counts only if it is more than whitespace.
pub open spec fn env_value_spec(raw: Option<Seq<char>>) -> Option<Seq<char>> {
    match raw {
        Some(s) => if trim_ws(s).len() == 0 {
            None
        } else {
            Some(s)
        },
        None => None,
    }
}

pub open spec fn opt_text(o: Option<String>) -> Option<Seq<char>> {
    match o {
        Some(s) => Some(s@),
        None => None,
    }
}

/// The value of an environment variable, if it holds more than whitespace.
pub fn env_value(raw: &Option<String>) -> (v: Option<String>)
    ensures
        opt_text(v) == env_value_spec(opt_text(*raw)),
{
    match raw {
        Some(s) => {
            let c = chars_of(s.as_str());
            let t = trim_chars(c.as_slice());
            if t.len() == 0 {
                None
            } else {
                Some(copy_string(s))
            }
        },
        None => None,
    }
}

/// An environment variable read as a `u32`, when it holds one.
pub fn env_u32(raw: &Option<String>) -> (v: Option<u32>)
    ensures
        v == (match env_value_spec(opt_text(*raw)) {
            Some(s) => match parse_unsigned_spec(s, 0xFFFF_FFFF) {
                Some(n) => Some(n as u32),
                None => None,
            },
            None => None,
        }),
{
    match env_value(raw) {
        Some(s) => {
            let c = chars_of(s.as_str());
            match parse_unsigned(c.as_slice(), 0xFFFF_FFFF) {
                Some(n) => Some(n as u32),
                None => None,
            }
        },
        None => None,
    }
}

/// `s` split at every comma.
pub open spec fn split_commas(s: Seq<char>) -> Seq<Seq<char>>
    decreases s.len(),
{
    if s.len() == 0 {
        seq![Seq::<char>::empty()]
    } else if s.last() == ',' {
        split_commas(s.drop_last()).push(Seq::<char>::empty())
    } else {
        let p = split_commas(s.drop_last());
        p.update(p.len() - 1, p.last().push(s.last()))
    }
}

proof fn lemma_split_nonempty(s: Seq<char>)
    ensures
        split_commas(s).len() >= 1,
    decreases s.len(),
{
    if s.len() > 0 {
        lemma_split_nonempty(s.drop_last());
    }
}

/// A comma-separated list, each entry trimmed.
pub fn comma_list(s: &str) -> (items: Vec<String>)
    ensures
        items@.len() == split_commas(s@).len(),
        forall|i: int| 0 <= i < items@.len() ==> #[trigger] items@[i]@ == trim_ws(split_commas(s@)[i]),
{
    let c = chars_of(s);
    let mut pieces: Vec<Vec<char>> = Vec::new();
    let mut current: Vec<char> = Vec::new();
    let mut i: usize = 0;
    while i < c.len()
        invariant
            i <= c@.len(),
            c@ == s@,
            pieces@.len() + 1 == split_commas(c@.take(i as int)).len(),
            forall|j: int| 0 <= j < pieces@.len() ==> #[trigger] pieces@[j]@ == split_commas(c@.take(i as int))[j],
            current@ == split_commas(c@.take(i as int)).last(),
        decreases c@.len() - i,
    {
        proof {
            assert(c@.take(i + 1).drop_last() =~= c@.take(i as int));
            assert(c@.take(i + 1).last() == c@[i as int]);
            lemma_split_nonempty(c@.take(i as int));
        }
        if c[i] == ',' {
            let done = current;
            pieces.push(done);
            current = Vec::new();
            proof {
                assert(current@ =~= Seq::<char>::empty());
            }
        } else {
            current.push(c[i]);
        }
        i = i + 1;
    }
    pieces.push(current);
    proof {
        assert(c@.take(c@.len() as int) =~= c@);
        lemma_split_nonempty(c@);
    }
    let mut items: Vec<String> = Vec::new();
    let mut k: usize = 0;
    while k < pieces.len()
        invariant
            k <= pieces@.len(),
            pieces@.len() == split_commas(s@).len(),
            forall|j: int| 0 <= j < pieces@.len() ==> #[trigger] pieces@[j]@ == split_commas(s@)[j],
            items@.len() == k,
            forall|j: int| 0 <= j < k ==> #[trigger] items@[j]@ == trim_ws(split_commas(s@)[j]),
        decreases pieces@.len() - k,
    {
        let t = trim_chars(pieces[k].as_slice());
        items.push(string_of(t.as_slice()));
        k = k + 1;
    }
    items
}

/// The on-disk file, every field optional.
pub struct FileConfig<C> {
    pub schema: Option<i64>,
    pub source: Option<String>,
    pub sample_rate_hz: Option<u32>,
    pub frequency_hz: Option<u32>,
    pub gain_db: Option<String>,
    pub bind: Option<String>,
    pub db_path: Option<String>,
    pub cors_origins: Option<Vec<String>>,
    pub log_format: Option<String>,
    pub impl_set: Option<String>,
    pub magnitude: Option<String>,
    pub detector: Option<String>,
    pub slicer: Option<String>,
    pub validator: Option<String>,
    pub receiver_lat: Option<C>,
    pub receiver_lon: Option<C>,
    pub receiver_altitude_m: Option<C>,
}

impl<C> FileConfig<C> {
    /// A file that sets nothing, as when no file was given.
    pub fn empty() -> (f: FileConfig<C>)
        ensures
            f.schema is None && f.source is None && f.sample_rate_hz is None,
            f.frequency_hz is None && f.gain_db is None && f.bind is None,
            f.db_path is None && f.cors_origins is None && f.log_format is None,
            f.impl_set is None && f.magnitude is None && f.detector is None,
            f.slicer is None && f.validator is None,
            f.receiver_lat is None && f.receiver_lon is None && f.receiver_altitude_m is None,
    {
        FileConfig {
            schema: None,
            source: None,
            sample_rate_hz: None,
            frequency_hz: None,
            gain_db: None,
            bind: None,
            db_path: None,
            cors_origins: None,
            log_format: None,
            impl_set: None,
            magnitude: None,
            detector: None,
            slicer: None,
            validator: None,
            receiver_lat: None,
            receiver_lon: None,
            receiver_altitude_m: None,
        }
    }
}

/// One environment variable: its raw value, if set, and whether the
/// `.env` file supplied it.
pub struct EnvVar {
    pub raw: Option<String>,
    pub from_dotenv: bool,
}

/// The `SKYWARD_*` variables, as the process sees them. The coordinates
/// arrive already read as numbers, `None` when unset or unreadable.
pub struct EnvLayer<C> {
    pub source: EnvVar,
    pub sample_rate_hz: EnvVar,
    pub gain_db: EnvVar,
    pub bind: EnvVar,
    pub db_path: EnvVar,
    pub cors_origins: EnvVar,
    pub log_format: EnvVar,
    pub impl_set: EnvVar,
    pub magnitude: EnvVar,
    pub detector: EnvVar,
    pub slicer: EnvVar,
    pub validator: EnvVar,
    pub receiver_lat: (Option<C>, bool),
    pub receiver_lon: (Option<C>, bool),
    pub receiver_alt_m: (Option<C>, bool),
}

/// Values the command line can override.
#[derive(Debug, Clone)]
pub struct CliOverrides {
    pub source: Option<String>,
    pub sample_rate_hz: Option<u32>,
    pub gain_db: Option<String>,
    pub bind: Option<String>,
    pub db_path: Option<String>,
    pub log_format: Option<String>,
    pub impl_set: Option<String>,
    pub magnitude: Option<String>,
    pub detector: Option<String>,
    pub slicer: Option<String>,
    pub validator: Option<String>,
}

impl Default for CliOverrides {
    fn default() -> (c: Self)
        ensures
            c.source is None && c.sample_rate_hz is None && c.gain_db is None && c.bind is None,
            c.db_path is None && c.log_format is None && c.impl_set is None,
            c.magnitude is None && c.detector is None && c.slicer is None && c.validator is None,
    {
        CliOverrides {
            source: None,
            sample_rate_hz: None,
            gain_db: None,
            bind: None,
            db_path: None,
            log_format: None,
            impl_set: None,
            magnitude: None,
            detector: None,
            slicer: None,
            validator: None,
        }
    }
}

/// The schema version of the config file format.
pub const CONFIG_SCHEMA: i64 = 1;

/// Why a configuration was refused.
#[derive(Clone, Debug, PartialEq, Eq)]
pub enum ConfigError {
    /// The file could not be parsed.
    Parse { path: String, message: String },
    Invalid(String),
}

impl ConfigError {
    pub open spec fn message_spec(self) -> Seq<char> {
        match self {
            ConfigError::Parse { path, message } => path@ + ": "@ + message@,
            ConfigError::Invalid(m) => "configuration is invalid: "@ + m@,
        }
    }

    pub fn message(&self) -> (s: String)
        ensures
            s@ == self.message_spec(),
    {
        let mut s = String::new();
        match self {
            ConfigError::Parse { path, message } => {
                push_str(&mut s, path.as_str());
                push_str(&mut s, ": ");
                push_str(&mut s, message.as_str());
            },
            ConfigError::Invalid(m) => {
                push_str(&mut s, "configuration is invalid: ");
                push_str(&mut s, m.as_str());
            },
        }
        s
    }
}

/// A file declaring a schema other than this build's is refused.
pub fn check_schema(path: &str, schema: Option<i64>) -> (r: Result<(), ConfigError>)
    ensures
        r is Ok <==> (schema is None || schema == Some(CONFIG_SCHEMA)),
        r matches Err(e) ==> (e is Invalid && e->Invalid_0@ == path@ + " declares schema "@
            + crate::text::signed_decimal(schema->0 as int) + ", this build expects 1"@),
{
    match schema {
        Some(v) => {
            if v != CONFIG_SCHEMA {
                let mut m = String::new();
                push_str(&mut m, path);
                push_str(&mut m, " declares schema ");
                push_signed_decimal(&mut m, v);
                push_str(&mut m, ", this build expects 1");
                return Err(ConfigError::Invalid(m));
            }
            Ok(())
        },
        None => Ok(()),
    }
}

/// The value the highest layer supplies: command line, else environment,
/// else file, else the default.
pub open spec fn pick<T>(default: T, file: Option<T>, env: Option<T>, cli: Option<T>) -> T {
    match cli {
        Some(v) => v,
        None => match env {
            Some(v) => v,
            None => match file {
                Some(v) => v,
                None => default,
            },
        },
    }
}

/// The layer that value came from.
pub open spec fn pick_origin(
    file_has: bool,
    env_has: bool,
    cli_has: bool,
    base: Origin,
    file_origin: Origin,
    env_origin: Origin,
) -> Origin {
    if cli_has {
        Origin::Cli
    } else if env_has {
        env_origin
    } else if file_has {
        file_origin
    } else {
        base
    }
}

pub open spec fn env_origin_spec(name: &'static str, from_dotenv: bool) -> Origin {
    if from_dotenv {
        Origin::DotEnv(name)
    } else {
        Origin::Env(name)
    }
}

/// What a text setting resolves to.
pub open spec fn text_resolved(
    r: Sourced<String>,
    base: Seq<char>,
    base_origin: Origin,
    file: Option<String>,
    file_origin: Origin,
    env: EnvVar,
    env_name: &'static str,
    cli: Option<String>,
) -> bool {
    let e = env_value_spec(opt_text(env.raw));
    &&& r.value@ == pick(base, opt_text(file), e, opt_text(cli))
    &&& r.origin == pick_origin(
        file is Some,
        e is Some,
        cli is Some,
        base_origin,
        file_origin,
        env_origin_spec(env_name, env.from_dotenv),
    )
}

/// Resolve one text setting through its layers.
fn layer_text(
    base: String,
    base_origin: Origin,
    file: Option<String>,
    file_origin: &Origin,
    env: &EnvVar,
    env_name: &'static str,
    cli: &Option<String>,
) -> (r: Sourced<String>)
    ensures
        text_resolved(r, base@, base_origin, file, *file_origin, *env, env_name, *cli),
{
    let file_copy = match &file {
        Some(f) => Some(copy_string(f)),
        None => None,
    };
    let cli_copy = match cli {
        Some(c) => Some(copy_string(c)),
        None => None,
    };
    Sourced::new(base, base_origin).or_layer(file_copy, file_origin.duplicate()).or_layer(
        env_value(&env.raw),
        env_origin(env_name, env.from_dotenv),
    ).or_layer(cli_copy, Origin::Cli)
}

/// A fully resolved configuration.
pub struct Config<C> {
    pub source: Sourced<String>,
    pub sample_rate_hz: Sourced<u32>,
    pub frequency_hz: Sourced<u32>,
    pub gain_db: Sourced<String>,
    pub bind: Sourced<String>,
    pub db_path: Sourced<String>,
    pub cors_origins: Sourced<Vec<String>>,
    pub log_format: Sourced<String>,
    pub impl_set: Sourced<String>,
    pub magnitude: Sourced<String>,
    pub detector: Sourced<String>,
    pub slicer: Sourced<String>,
    pub validator: Sourced<String>,
    pub receiver_lat: Sourced<Option<C>>,
    pub receiver_lon: Sourced<Option<C>>,
    pub receiver_alt_m: Sourced<C>,
    /// Where the file layer came from, if any.
    pub config_path: Option<String>,
    /// The `.env` file that contributed to the environment layer, if any.
    pub env_file: Option<String>,
}

pub open spec fn views(v: Seq<String>) -> Seq<Seq<char>> {
    v.map_values(|s: String| s@)
}

pub open spec fn opt_map_some<C>(o: Option<C>) -> Option<Option<C>> {
    match o {
        Some(v) => Some(Some(v)),
        None => None,
    }
}

/// A coordinate resolved through the file and the environment.
pub open spec fn coordinate_resolved<T>(r: Sourced<T>, base: T, file: Option<T>, file_origin: Origin, env: Option<T>, env_origin: Origin) -> bool {
    &&& r.value == pick(base, file, env, None)
    &&& r.origin == pick_origin(file is Some, env is Some, false, Origin::Default, file_origin, env_origin)
}

impl<C: Copy> Config<C> {
    /// Resolve defaults, then the file, then the environment, then the
    /// command line. Four stage names start from the preset `impl_set` names
    /// (an unknown preset expands to the baseline; `validate` reports it).
    pub fn resolve_layers(
        file: FileConfig<C>,
        file_origin: Origin,
        env: &EnvLayer<C>,
        cli: &CliOverrides,
        config_path: Option<String>,
        env_file: Option<String>,
        altitude_default: C,
    ) -> (c: Config<C>)
        ensures
            text_resolved(c.source, "tcp:127.0.0.1:1234"@, Origin::Default, file.source, file_origin, env.source, "SKYWARD_SOURCE", cli.source),
            c.sample_rate_hz.value == pick(2_400_000u32, file.sample_rate_hz, env_u32_spec(env.sample_rate_hz.raw), cli.sample_rate_hz),
            c.sample_rate_hz.origin == pick_origin(
                file.sample_rate_hz is Some,
                env_u32_spec(env.sample_rate_hz.raw) is Some,
                cli.sample_rate_hz is Some,
                Origin::Default,
                file_origin,
                env_origin_spec("SKYWARD_SAMPLE_RATE_HZ", env.sample_rate_hz.from_dotenv),
            ),
            c.frequency_hz.value == pick(1_090_000_000u32, file.frequency_hz, None, None),
            c.frequency_hz.origin == pick_origin(file.frequency_hz is Some, false, false, Origin::Default, file_origin, Origin::Default),
            text_resolved(c.gain_db, "49.6"@, Origin::Default, file.gain_db, file_origin, env.gain_db, "SKYWARD_GAIN_DB", cli.gain_db),
            text_resolved(c.bind, "0.0.0.0:8080"@, Origin::Default, file.bind, file_origin, env.bind, "SKYWARD_BIND", cli.bind),
            text_resolved(c.db_path, "skyward.db"@, Origin::Default, file.db_path, file_origin, env.db_path, "SKYWARD_DB_PATH", cli.db_path),
            match env_value_spec(opt_text(env.cors_origins.raw)) {
                Some(t) => views(c.cors_origins.value@) == split_commas(t).map_values(|p: Seq<char>| trim_ws(p))
                    && c.cors_origins.origin == env_origin_spec("SKYWARD_CORS_ORIGINS", env.cors_origins.from_dotenv),
                None => match file.cors_origins {
                    Some(v) => c.cors_origins.value@ == v@ && c.cors_origins.origin == file_origin,
                    None => views(c.cors_origins.value@) == seq!["http://localhost:5173"@] && c.cors_origins.origin
                        == Origin::Default,
                },
            },
            text_resolved(c.log_format, "text"@, Origin::Default, file.log_format, file_origin, env.log_format, "SKYWARD_LOG_FORMAT", cli.log_format),
            text_resolved(c.impl_set, "baseline"@, Origin::Default, file.impl_set, file_origin, env.impl_set, "SKYWARD_IMPL_SET", cli.impl_set),
            text_resolved(c.magnitude, "naive"@, Origin::Preset(c.impl_set.value), file.magnitude, file_origin, env.magnitude, "SKYWARD_MAG", cli.magnitude),
            text_resolved(c.detector, "naive"@, Origin::Preset(c.impl_set.value), file.detector, file_origin, env.detector, "SKYWARD_DETECT", cli.detector),
            text_resolved(c.slicer, "naive"@, Origin::Preset(c.impl_set.value), file.slicer, file_origin, env.slicer, "SKYWARD_SLICE", cli.slicer),
            text_resolved(c.validator, "crc-only"@, Origin::Preset(c.impl_set.value), file.validator, file_origin, env.validator, "SKYWARD_VALIDATE", cli.validator),
            coordinate_resolved(c.receiver_lat, None, opt_map_some(file.receiver_lat), file_origin, opt_map_some(env.receiver_lat.0), env_origin_spec("SKYWARD_RECEIVER_LAT", env.receiver_lat.1)),
            coordinate_resolved(c.receiver_lon, None, opt_map_some(file.receiver_lon), file_origin, opt_map_some(env.receiver_lon.0), env_origin_spec("SKYWARD_RECEIVER_LON", env.receiver_lon.1)),
            coordinate_resolved(c.receiver_alt_m, altitude_default, file.receiver_altitude_m, file_origin, env.receiver_alt_m.0, env_origin_spec("SKYWARD_RECEIVER_ALT_M", env.receiver_alt_m.1)),
            c.config_path == config_path,
            c.env_file == env_file,
    {
        let impl_set = layer_text(
            "baseline".to_owned(),
            Origin::Default,
            file.impl_set,
            &file_origin,
            &env.impl_set,
            "SKYWARD_IMPL_SET",
            &cli.impl_set,
        );
        let base = match ImplSet::preset(impl_set.value.as_str()) {
            Some(set) => set,
            None => ImplSet::baseline(),
        };
        let magnitude = layer_text(
            base.magnitude,
            Origin::Preset(copy_string(&impl_set.value)),
            file.magnitude,
            &file_origin,
            &env.magnitude,
            "SKYWARD_MAG",
            &cli.magnitude,
        );
        let detector = layer_text(
            base.detector,
            Origin::Preset(copy_string(&impl_set.value)),
            file.detector,
            &file_origin,
            &env.detector,
            "SKYWARD_DETECT",
            &cli.detector,
        );
        let slicer = layer_text(
            base.slicer,
            Origin::Preset(copy_string(&impl_set.value)),
            file.slicer,
            &file_origin,
            &env.slicer,
            "SKYWARD_SLICE",
            &cli.slicer,
        );
        let validator = layer_text(
            base.validator,
            Origin::Preset(copy_string(&impl_set.value)),
            file.validator,
            &file_origin,
            &env.validator,
            "SKYWARD_VALIDATE",
            &cli.validator,
        );
        let source = layer_text(
            "tcp:127.0.0.1:1234".to_owned(),
            Origin::Default,
            file.source,
            &file_origin,
            &env.source,
            "SKYWARD_SOURCE",
            &cli.source,
        );
        let sample_rate_hz = Sourced::new(2_400_000u32, Origin::Default).or_layer(
            file.sample_rate_hz,
            file_origin.duplicate(),
        ).or_layer(
            env_u32(&env.sample_rate_hz.raw),
            env_origin("SKYWARD_SAMPLE_RATE_HZ", env.sample_rate_hz.from_dotenv),
        ).or_layer(cli.sample_rate_hz, Origin::Cli);
        let frequency_hz = Sourced::new(1_090_000_000u32, Origin::Default).or_layer(
            file.frequency_hz,
            file_origin.duplicate(),
        );
        let gain_db = layer_text(
            "49.6".to_owned(),
            Origin::Default,
            file.gain_db,
            &file_origin,
            &env.gain_db,
            "SKYWARD_GAIN_DB",
            &cli.gain_db,
        );
        let bind = layer_text(
            "0.0.0.0:8080".to_owned(),
            Origin::Default,
            file.bind,
            &file_origin,
            &env.bind,
            "SKYWARD_BIND",
            &cli.bind,
        );
        let db_path = layer_text(
            "skyward.db".to_owned(),
            Origin::Default,
            file.db_path,
            &file_origin,
            &env.db_path,
            "SKYWARD_DB_PATH",
            &cli.db_path,
        );
        let mut default_cors: Vec<String> = Vec::new();
        default_cors.push("http://localhost:5173".to_owned());
        proof {
            assert(views(default_cors@) =~= seq!["http://localhost:5173"@]);
        }
        let env_cors = match env_value(&env.cors_origins.raw) {
            Some(t) => {
                let items = comma_list(t.as_str());
                proof {
                    assert(views(items@) =~= split_commas(t@).map_values(|p: Seq<char>| trim_ws(p)));
                }
                Some(items)
            },
            None => None,
        };
        let cors_origins = Sourced::new(default_cors, Origin::Default).or_layer(
            file.cors_origins,
            file_origin.duplicate(),
        ).or_layer(env_cors, env_origin("SKYWARD_CORS_ORIGINS", env.cors_origins.from_dotenv));
        let log_format = layer_text(
            "text".to_owned(),
            Origin::Default,
            file.log_format,
            &file_origin,
            &env.log_format,
            "SKYWARD_LOG_FORMAT",
            &cli.log_format,
        );
        let receiver_lat = Sourced::new(None, Origin::Default).or_layer(
            some_of(file.receiver_lat),
            file_origin.duplicate(),
        ).or_layer(
            some_of(env.receiver_lat.0),
            env_origin("SKYWARD_RECEIVER_LAT", env.receiver_lat.1),
        );
        let receiver_lon = Sourced::new(None, Origin::Default).or_layer(
            some_of(file.receiver_lon),
            file_origin.duplicate(),
        ).or_layer(
            some_of(env.receiver_lon.0),
            env_origin("SKYWARD_RECEIVER_LON", env.receiver_lon.1),
        );
        let receiver_alt_m = Sourced::new(altitude_default, Origin::Default).or_layer(
            file.receiver_altitude_m,
            file_origin.duplicate(),
        ).or_layer(env.receiver_alt_m.0, env_origin("SKYWARD_RECEIVER_ALT_M", env.receiver_alt_m.1));
        Config {
            source,
            sample_rate_hz,
            frequency_hz,
            gain_db,
            bind,
            db_path,
            cors_origins,
            log_format,
            impl_set,
            magnitude,
            detector,
            slicer,
            validator,
            receiver_lat,
            receiver_lon,
            receiver_alt_m,
            config_path,
            env_file,
        }
    }
}

/// `Some(v)` wrapped once more, so an absent layer stays absent.
fn some_of<C: Copy>(o: Option<C>) -> (r: Option<Option<C>>)
    ensures
        r == opt_map_some(o),
{
    match o {
        Some(v) => Some(Some(v)),
        None => None,
    }
}

pub open spec fn env_u32_spec(raw: Option<String>) -> Option<u32> {
    match env_value_spec(opt_text(raw)) {
        Some(s) => match parse_unsigned_spec(s, 0xFFFF_FFFF) {
            Some(n) => Some(n as u32),
            None => None,
        },
        None => None,
    }
}

/// The message of the first check a configuration fails, given what its
/// gain text reads as (tenths of a dB, or `None` if not a number); `None`
/// when every check that needs no arithmetic on coordinates passes.
pub open spec fn first_problem<C>(c: Config<C>, gain_tenths: Option<i32>) -> Option<Seq<char>> {
    let spec_text = c.source.value@;
    if crate::source::parse_source_spec(spec_text) is Err {
        Some(crate::source::error_message_view(crate::source::parse_source_spec(spec_text)->Err_0))
    } else if c.sample_rate_hz.value < 2_000_000 {
        Some("sample_rate_hz is "@ + decimal(c.sample_rate_hz.value as nat)
            + ", but Mode S needs at least 2 MS/s: a bit is one microsecond long, so below 2 samples per microsecond the two halves of a bit cannot be told apart"@)
    } else if Gain::parse_spec(c.gain_db.value@, gain_tenths) is Err {
        Some(crate::source::error_message_view(Gain::parse_spec(c.gain_db.value@, gain_tenths)->Err_0))
    } else if c.log_format.value@ != "text"@ && c.log_format.value@ != "json"@ {
        Some("log_format '"@ + c.log_format.value@ + "' must be 'text' or 'json'"@)
    } else if c.impl_set.value@ != "baseline"@ {
        Some("unknown impl_set '"@ + c.impl_set.value@ + "'. Available: "@ + "baseline"@)
    } else if !(c.magnitude.value@ == "naive"@ && c.detector.value@ == "naive"@ && c.slicer.value@ == "naive"@
        && c.validator.value@ == "crc-only"@) {
        Some(stage_problem(c.magnitude.value@, c.detector.value@, c.slicer.value@, c.validator.value@))
    } else if c.receiver_lat.value is Some != c.receiver_lon.value is Some {
        Some("receiver.lat and receiver.lon must both be set, or neither"@)
    } else {
        None
    }
}

/// The message for the first unknown stage name.
pub open spec fn stage_problem(m: Seq<char>, d: Seq<char>, s: Seq<char>, v: Seq<char>) -> Seq<char> {
    if m != "naive"@ {
        unknown_stage_text("magnitude"@, m, "naive"@)
    } else if d != "naive"@ {
        unknown_stage_text("detector"@, d, "naive"@)
    } else if s != "naive"@ {
        unknown_stage_text("slicer"@, s, "naive"@)
    } else {
        unknown_stage_text("validator"@, v, "crc-only"@)
    }
}

pub open spec fn unknown_stage_text(stage: Seq<char>, name: Seq<char>, available: Seq<char>) -> Seq<char> {
    "unknown "@ + stage + " implementation '"@ + name + "'. Available: "@ + available
}

impl<C: Copy> Config<C> {
    /// Reject what is impossible before the radio is touched. The range of
    /// the receiver coordinates is the caller's to check once this passes.
    pub fn validate(&self, gain_tenths: Option<i32>) -> (r: Result<(), ConfigError>)
        ensures
            r is Ok <==> first_problem(*self, gain_tenths) is None,
            r matches Err(e) ==> (e is Invalid && first_problem(*self, gain_tenths) == Some(e->Invalid_0@)),
    {
        match SourceSpec::parse(self.source.value.as_str()) {
            Err(e) => return Err(ConfigError::Invalid(e.message())),
            Ok(_) => {},
        }
        if self.sample_rate_hz.value < 2_000_000 {
            let mut m = String::new();
            push_str(&mut m, "sample_rate_hz is ");
            push_decimal(&mut m, self.sample_rate_hz.value as u64);
            push_str(
                &mut m,
                ", but Mode S needs at least 2 MS/s: a bit is one microsecond long, so below 2 samples per microsecond the two halves of a bit cannot be told apart",
            );
            return Err(ConfigError::Invalid(m));
        }
        match Gain::parse_with(self.gain_db.value.as_str(), gain_tenths) {
            Err(e) => return Err(ConfigError::Invalid(e.message())),
            Ok(_) => {},
        }
        if !str_eq(self.log_format.value.as_str(), "text") && !str_eq(self.log_format.value.as_str(), "json") {
            let mut m = String::new();
            push_str(&mut m, "log_format '");
            push_str(&mut m, self.log_format.value.as_str());
            push_str(&mut m, "' must be 'text' or 'json'");
            return Err(ConfigError::Invalid(m));
        }
        if ImplSet::preset(self.impl_set.value.as_str()).is_none() {
            let mut m = String::new();
            push_str(&mut m, "unknown impl_set '");
            push_str(&mut m, self.impl_set.value.as_str());
            push_str(&mut m, "'. Available: ");
            let names = ImplSet::preset_names();
            let mut i: usize = 0;
            while i < names.len()
                invariant
                    names@.len() == 1,
                    names@[0]@ == "baseline"@,
                    i <= 1,
                    i == 0 ==> m@ == "unknown impl_set '"@ + self.impl_set.value@ + "'. Available: "@,
                    i == 1 ==> m@ == "unknown impl_set '"@ + self.impl_set.value@ + "'. Available: "@ + "baseline"@,
                decreases names@.len() - i,
            {
                if i > 0 {
                    push_str(&mut m, ", ");
                }
                push_str(&mut m, names[i]);
                i = i + 1;
            }
            return Err(ConfigError::Invalid(m));
        }
        match registry::check(&self.impls()) {
            Err(e) => return Err(ConfigError::Invalid(e.message())),
            Ok(_) => {},
        }
        if self.receiver_lat.value.is_some() != self.receiver_lon.value.is_some() {
            return Err(
                ConfigError::Invalid("receiver.lat and receiver.lon must both be set, or neither".to_owned()),
            );
        }
        Ok(())
    }

    /// The fully expanded implementation selection.
    pub fn impls(&self) -> (set: ImplSet)
        ensures
            set.magnitude == self.magnitude.value,
            set.detector == self.detector.value,
            set.slicer == self.slicer.value,
            set.validator == self.validator.value,
    {
        ImplSet {
            magnitude: copy_string(&self.magnitude.value),
            detector: copy_string(&self.detector.value),
            slicer: copy_string(&self.slicer.value),
            validator: copy_string(&self.validator.value),
        }
    }

    /// The receiver position, when both coordinates are set.
    pub fn receiver(&self) -> (r: Option<(C, C)>)
        ensures
            r == (match (self.receiver_lat.value, self.receiver_lon.value) {
                (Some(a), Some(b)) => Some((a, b)),
                _ => None,
            }),
    {
        match (self.receiver_lat.value, self.receiver_lon.value) {
            (Some(a), Some(b)) => Some((a, b)),
            _ => None,
        }
    }
}

/// One line of the dump: the name and value left-aligned in their columns,
/// then the origin.
pub open spec fn dump_row(name: Seq<char>, value: Seq<char>, origin: Origin) -> Seq<char> {
    "  "@ + padded(name, 22) + " "@ + padded(value, 28) + " "@ + origin.text() + "\n"@
}

fn push_row(out: &mut String, name: &str, value: &str, origin: &Origin)
    ensures
        final(out)@ == old(out)@ + dump_row(name@, value@, *origin),
{
    push_str(out, "  ");
    push_padded(out, name, 22);
    push_str(out, " ");
    push_padded(out, value, 28);
    push_str(out, " ");
    let o = origin.to_string();
    push_str(out, o.as_str());
    push_str(out, "\n");
}

fn decimal_string(n: u64) -> (s: String)
    ensures
        s@ == decimal(n as nat),
{
    let mut s = String::new();
    push_decimal(&mut s, n);
    s
}

/// The strings of `items` joined by `","`.
pub open spec fn joined_commas(items: Seq<String>) -> Seq<char>
    decreases items.len(),
{
    if items.len() == 0 {
        Seq::empty()
    } else if items.len() == 1 {
        items[0]@
    } else {
        joined_commas(items.drop_last()) + ","@ + items.last()@
    }
}

fn join_commas(items: &Vec<String>) -> (s: String)
    ensures
        s@ == joined_commas(items@),
{
    let mut s = String::new();
    let mut i: usize = 0;
    while i < items.len()
        invariant
            i <= items@.len(),
            s@ == joined_commas(items@.take(i as int)),
        decreases items@.len() - i,
    {
        if i > 0 {
            push_str(&mut s, ",");
        }
        push_str(&mut s, items[i].as_str());
        proof {
            assert(items@.take(i + 1).drop_last() =~= items@.take(i as int));
            if i == 0 {
                assert(items@.take(0) =~= Seq::<String>::empty());
            }
        }
        i = i + 1;
    }
    proof {
        assert(items@.take(items@.len() as int) =~= items@);
    }
    s
}

impl<C: Copy> Config<C> {
    /// Render every value with its origin. The three coordinates arrive
    /// already rendered, as the caller's number formatting writes them.
    pub fn print_resolved(&self, lat: &str, lon: &str, altitude_m: &str) -> (out: String)
        ensures
            out@ == dump_row("source"@, self.source.value@, self.source.origin) + dump_row(
                "sample_rate_hz"@,
                decimal(self.sample_rate_hz.value as nat),
                self.sample_rate_hz.origin,
            ) + dump_row("frequency_hz"@, decimal(self.frequency_hz.value as nat), self.frequency_hz.origin)
                + dump_row("gain_db"@, self.gain_db.value@, self.gain_db.origin) + dump_row(
                "bind"@,
                self.bind.value@,
                self.bind.origin,
            ) + dump_row("db_path"@, self.db_path.value@, self.db_path.origin) + dump_row(
                "cors_origins"@,
                joined_commas(self.cors_origins.value@),
                self.cors_origins.origin,
            ) + dump_row("log_format"@, self.log_format.value@, self.log_format.origin) + dump_row(
                "impl_set"@,
                self.impl_set.value@,
                self.impl_set.origin,
            ) + dump_row("magnitude"@, self.magnitude.value@, self.magnitude.origin) + dump_row(
                "detector"@,
                self.detector.value@,
                self.detector.origin,
            ) + dump_row("slicer"@, self.slicer.value@, self.slicer.origin) + dump_row(
                "validator"@,
                self.validator.value@,
                self.validator.origin,
            ) + dump_row("receiver.lat"@, lat@, self.receiver_lat.origin) + dump_row(
                "receiver.lon"@,
                lon@,
                self.receiver_lon.origin,
            ) + dump_row("receiver.altitude_m"@, altitude_m@, self.receiver_alt_m.origin),
    {
        let mut out = String::new();
        push_row(&mut out, "source", self.source.value.as_str(), &self.source.origin);
        let t = decimal_string(self.sample_rate_hz.value as u64);
        push_row(&mut out, "sample_rate_hz", t.as_str(), &self.sample_rate_hz.origin);
        let t = decimal_string(self.frequency_hz.value as u64);
        push_row(&mut out, "frequency_hz", t.as_str(), &self.frequency_hz.origin);
        push_row(&mut out, "gain_db", self.gain_db.value.as_str(), &self.gain_db.origin);
        push_row(&mut out, "bind", self.bind.value.as_str(), &self.bind.origin);
        push_row(&mut out, "db_path", self.db_path.value.as_str(), &self.db_path.origin);
        let t = join_commas(&self.cors_origins.value);
        push_row(&mut out, "cors_origins", t.as_str(), &self.cors_origins.origin);
        push_row(&mut out, "log_format", self.log_format.value.as_str(), &self.log_format.origin);
        push_row(&mut out, "impl_set", self.impl_set.value.as_str(), &self.impl_set.origin);
        push_row(&mut out, "magnitude", self.magnitude.value.as_str(), &self.magnitude.origin);
        push_row(&mut out, "detector", self.detector.value.as_str(), &self.detector.origin);
        push_row(&mut out, "slicer", self.slicer.value.as_str(), &self.slicer.origin);
        push_row(&mut out, "validator", self.validator.value.as_str(), &self.validator.origin);
        push_row(&mut out, "receiver.lat", lat, &self.receiver_lat.origin);
        push_row(&mut out, "receiver.lon", lon, &self.receiver_lon.origin);
        push_row(&mut out, "receiver.altitude_m", altitude_m, &self.receiver_alt_m.origin);
        out
    }
}

} // verus!
