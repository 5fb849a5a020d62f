//! Workspace configuration: memory layers, read scopes and HDC settings,
//! validated from the raw values the environment supplies.
use vstd::prelude::*;

use crate::guards::{lemma_split_on_len, split_on};
use crate::layer::{LayerSensitivity, LayerView, MemoryLayer, layers_view};
use crate::text::{cat_str, 
    CharClass, ascii_lower, chars_eq, chars_of, opt_view, slice_chars, string_of, to_ascii_lower,
    trim_chars, trim_spec,
};

verus! {

/// HDC deduplication mode.
///
/// Controls how the write-time dedup check behaves:
/// - `off`: no dedup check at all (fingerprints may still be stored in shadow mode)
/// - `warn`: similar/duplicate detected → write proceeds, warning attached to output
/// - `block`: duplicate detected → write is rejected (force=true bypasses)
#[derive(Debug, Clone, Copy, PartialEq, Eq, Structural)]
pub enum HdcDedupMode {
    /// Dedup check disabled.
    Off,
    /// Warn on similar/duplicate but allow the write.
    Warn,
    /// Block duplicates (force=true overrides).
    Block,
}

impl Default for HdcDedupMode {
    fn default() -> (m: Self)
        ensures
            m == HdcDedupMode::Off,
    {
        HdcDedupMode::Off
    }
}

/// The mode a setting names, compared ignoring ASCII case.
pub open spec fn dedup_mode_spec(s: Seq<char>) -> Option<HdcDedupMode> {
    let l = s.map_values(|c: char| ascii_lower(c));
    if l == "off"@ {
        Some(HdcDedupMode::Off)
    } else if l == "warn"@ {
        Some(HdcDedupMode::Warn)
    } else if l == "block"@ {
        Some(HdcDedupMode::Block)
    } else {
        None
    }
}

fn lower_chars(s: &[char]) -> (r: Vec<char>)
    ensures
        r@ == s@.map_values(|c: char| ascii_lower(c)),
{
    let mut r: Vec<char> = Vec::new();
    let mut i: usize = 0;
    while i < s.len()
        invariant
            0 <= i <= s@.len(),
            r@ == s@.take(i as int).map_values(|c: char| ascii_lower(c)),
        decreases s.len() - i,
    {
        r.push(to_ascii_lower(s[i]));
        i = i + 1;
        assert(r@ =~= s@.take(i as int).map_values(|c: char| ascii_lower(c)));
    }
    assert(s@.take(s@.len() as int) =~= s@);
    r
}

impl HdcDedupMode {
    /// Parse `off`, `warn` or `block`, ignoring ASCII case.
    pub fn from_str(s: &str) -> (m: Option<Self>)
        ensures
            m == dedup_mode_spec(s@),
    {
        let c = chars_of(s);
        let l = lower_chars(c.as_slice());
        let off = chars_of("off");
        let warn = chars_of("warn");
        let block = chars_of("block");
        if chars_eq(l.as_slice(), off.as_slice()) {
            Some(HdcDedupMode::Off)
        } else if chars_eq(l.as_slice(), warn.as_slice()) {
            Some(HdcDedupMode::Warn)
        } else if chars_eq(l.as_slice(), block.as_slice()) {
            Some(HdcDedupMode::Block)
        } else {
            None
        }
    }
}

/// A configuration value that was rejected.
#[derive(Debug)]
pub enum ConfigError {
    /// The value under `key` is invalid, for the reason in `message`.
    InvalidValue { key: String, message: String },
}

/// The key and message of a configuration error.
pub open spec fn config_error_view(e: ConfigError) -> (Seq<char>, Seq<char>) {
    match e {
        ConfigError::InvalidValue { key, message } => (key@, message@),
    }
}

/// A setting taken from its primary variable when that is set, otherwise
/// from its legacy variable, together with the name of the variable used.
pub open spec fn pick_setting_spec(
    primary: Seq<char>,
    primary_value: Option<Seq<char>>,
    legacy: Seq<char>,
    legacy_value: Option<Seq<char>>,
) -> Option<(Seq<char>, Seq<char>)> {
    match primary_value {
        Some(v) => Some((primary, v)),
        None => match legacy_value {
            Some(v) => Some((legacy, v)),
            None => None,
        },
    }
}

/// Choose between a setting's primary and legacy environment variables:
/// the primary one wins when both are set.
pub fn optional_hdc_env(
    primary: &'static str,
    primary_value: Option<String>,
    legacy: &'static str,
    legacy_value: Option<String>,
) -> (r: Option<(&'static str, String)>)
    ensures
        match r {
            Some((k, v)) => pick_setting_spec(
                primary@,
                opt_view(primary_value),
                legacy@,
                opt_view(legacy_value),
            ) == Some((k@, v@)),
            None => pick_setting_spec(
                primary@,
                opt_view(primary_value),
                legacy@,
                opt_view(legacy_value),
            ) is None,
        },
{
    match primary_value {
        Some(v) => Some((primary, v)),
        None => match legacy_value {
            Some(v) => Some((legacy, v)),
            None => None,
        },
    }
}

/// The dedup mode a setting selects: `off` when unset, else the parsed
/// value; any other value is an error naming the variable it came from.
pub fn resolve_dedup_mode(setting: Option<(&'static str, String)>) -> (r: Result<HdcDedupMode, ConfigError>)
    ensures
        match setting {
            None => r == Ok::<HdcDedupMode, ConfigError>(HdcDedupMode::Off),
            Some((key, value)) => match dedup_mode_spec(value@) {
                Some(m) => r == Ok::<HdcDedupMode, ConfigError>(m),
                None => r matches Err(e) && config_error_view(e) == (key@,
                    "must be 'off', 'warn', or 'block', got '"@ + value@ + "'"@),
            },
        },
{
    match setting {
        None => Ok(HdcDedupMode::Off),
        Some((key, value)) => match HdcDedupMode::from_str(value.as_str()) {
            Some(m) => Ok(m),
            None => {
                let a = cat_str("must be 'off', 'warn', or 'block', got '", value.as_str());
                let message = cat_str(a.as_str(), "'");
                Err(ConfigError::InvalidValue { key: String::from_str(key), message })
            },
        },
    }
}

/// Search fusion runs either in shadow mode or live, not both.
pub fn check_search_modes(search_shadow: bool, search_live: bool) -> (r: Result<(), ConfigError>)
    ensures
        match r {
            Ok(()) => !(search_shadow && search_live),
            Err(e) => search_shadow && search_live && config_error_view(e) == (
                "IRONCLAW_HDC_SEARCH_LIVE"@,
                "IRONCLAW_HDC_SEARCH_SHADOW and IRONCLAW_HDC_SEARCH_LIVE are mutually exclusive"@,
            ),
        },
{
    if search_shadow && search_live {
        return Err(
            ConfigError::InvalidValue {
                key: String::from_str("IRONCLAW_HDC_SEARCH_LIVE"),
                message: String::from_str(
                    "IRONCLAW_HDC_SEARCH_SHADOW and IRONCLAW_HDC_SEARCH_LIVE are mutually exclusive",
                ),
            },
        );
    }
    Ok(())
}

/// How search fusion with similarity scores runs: enabled when shadow or
/// live mode is on, and in shadow mode (scores computed, no reranking)
/// unless live; a disabled fusion reports shadow mode.
pub fn hdc_search_mode(shadow: bool, live: bool) -> (r: (bool, bool))
    ensures
        r.0 == (shadow || live),
        r.1 == if shadow || live {
            !live
        } else {
            true
        },
{
    let enabled = shadow || live;
    let shadow_mode = if enabled {
        !live
    } else {
        true
    };
    (enabled, shadow_mode)
}

/// `s` with ASCII letters lowercased.
pub open spec fn ascii_lowercase_spec(s: Seq<char>) -> Seq<char> {
    s.map_values(|c: char| ascii_lower(c))
}

/// A boolean setting: its value trimmed and ASCII-lowercased is `true` or
/// `1` for true, `false` or `0` for false; `default` when unset; any other
/// value is an error naming the key and quoting the value.
pub open spec fn bool_setting_spec(key: Seq<char>, value: Option<Seq<char>>, default: bool) -> Result<
    bool,
    (Seq<char>, Seq<char>),
> {
    match value {
        None => Ok(default),
        Some(v) => {
            let t = ascii_lowercase_spec(trim_spec(v, CharClass::Whitespace));
            if t == "true"@ || t == "1"@ {
                Ok(true)
            } else if t == "false"@ || t == "0"@ {
                Ok(false)
            } else {
                Err((key, "must be 'true' or 'false', got '"@ + v + "'"@))
            }
        },
    }
}

fn ascii_lowercase_chars(s: &[char]) -> (r: Vec<char>)
    ensures
        r@ == ascii_lowercase_spec(s@),
{
    let mut r: Vec<char> = Vec::new();
    let mut i: usize = 0;
    while i < s.len()
        invariant
            0 <= i <= s@.len(),
            r@ == ascii_lowercase_spec(s@.take(i as int)),
        decreases s.len() - i,
    {
        r.push(to_ascii_lower(s[i]));
        proof {
            assert(ascii_lowercase_spec(s@.take(i + 1)) =~= ascii_lowercase_spec(s@.take(i as int)).push(
                ascii_lower(s@[i as int]),
            ));
        }
        i = i + 1;
    }
    assert(s@.take(s@.len() as int) =~= s@);
    r
}

fn chars_are(c: &[char], s: &str) -> (b: bool)
    ensures
        b == (c@ == s@),
{
    let v = chars_of(s);
    chars_eq(c, v.as_slice())
}

/// Parse a boolean setting under `key`, as [`bool_setting_spec`].
pub fn parse_bool_setting(key: &str, value: Option<String>, default: bool) -> (r: Result<bool, ConfigError>)
    ensures
        match r {
            Ok(b) => bool_setting_spec(key@, opt_view(value), default) == Ok::<
                bool,
                (Seq<char>, Seq<char>),
            >(b),
            Err(e) => bool_setting_spec(key@, opt_view(value), default) == Err::<
                bool,
                (Seq<char>, Seq<char>),
            >(config_error_view(e)),
        },
{
    match value {
        None => Ok(default),
        Some(v) => {
            let s = chars_of(v.as_str());
            let t = trim_chars(s.as_slice(), CharClass::Whitespace);
            let l = ascii_lowercase_chars(t.as_slice());
            if chars_are(l.as_slice(), "true") || chars_are(l.as_slice(), "1") {
                Ok(true)
            } else if chars_are(l.as_slice(), "false") || chars_are(l.as_slice(), "0") {
                Ok(false)
            } else {
                let a = cat_str("must be 'true' or 'false', got '", v.as_str());
                let m = cat_str(a.as_str(), "'");
                Err(ConfigError::InvalidValue { key: String::from_str(key), message: m })
            }
        },
    }
}

/// Unicode alphanumeric: the `Alphabetic` or `Numeric` property.
pub uninterp spec fn unicode_alphanumeric(c: char) -> bool;

/// `char::is_alphanumeric`. Among ASCII characters exactly the letters and
/// digits are alphanumeric; beyond ASCII the Unicode tables decide, which the
/// contract leaves to the name.
#[verifier::external_body]
fn char_is_alphanumeric(c: char) -> (b: bool)
    ensures
        b == unicode_alphanumeric(c),
        c <= '\u{7f}' ==> (b == is_ascii_alnum(c)),
{
    c.is_alphanumeric()
}

/// ASCII letter or digit.
pub open spec fn is_ascii_alnum(c: char) -> bool {
    ('a' <= c && c <= 'z') || ('A' <= c && c <= 'Z') || ('0' <= c && c <= '9')
}

/// `char::is_alphanumeric`: among ASCII characters exactly the letters and
/// digits; beyond ASCII the Unicode `Alphabetic` or `Numeric` property.
pub open spec fn alphanumeric(c: char) -> bool {
    if c <= '\u{7f}' {
        is_ascii_alnum(c)
    } else {
        unicode_alphanumeric(c)
    }
}

/// A character allowed in a layer name.
pub open spec fn layer_name_char(c: char) -> bool {
    alphanumeric(c) || c == '_' || c == '-'
}

/// A character allowed in a scope.
pub open spec fn scope_char(c: char) -> bool {
    is_ascii_alnum(c) || c == '_' || c == '-'
}

/// Length of the UTF-8 encoding of `s`.
pub open spec fn utf8_len(s: Seq<char>) -> nat {
    vstd::utf8::encode_utf8(s).len()
}

/// Text made of ASCII characters takes one UTF-8 byte per character.
pub proof fn lemma_ascii_utf8_len(s: Seq<char>)
    requires
        vstd::utf8::is_ascii_chars(s),
    ensures
        utf8_len(s) == s.len(),
{
    vstd::utf8::is_ascii_chars_encode_utf8(s);
}

/// The key under which memory layer errors are reported.
pub const MEMORY_LAYERS_KEY: &'static str = "MEMORY_LAYERS";

/// The key under which read scope errors are reported.
pub const READ_SCOPES_KEY: &'static str = "WORKSPACE_READ_SCOPES";

/// The first check a layer fails, as the error message.
pub open spec fn layer_error_spec(l: LayerView) -> Option<Seq<char>> {
    if trim_spec(l.name, CharClass::Whitespace).len() == 0 {
        Some("layer name must not be empty"@)
    } else if utf8_len(l.name) > 64 {
        Some("layer name '"@ + l.name + "' exceeds 64 characters"@)
    } else if !(forall|i: int| 0 <= i < l.name.len() ==> layer_name_char(#[trigger] l.name[i])) {
        Some(
            "layer name '"@ + l.name
                + "' contains invalid characters (only alphanumeric, _, - allowed)"@,
        )
    } else if trim_spec(l.scope, CharClass::Whitespace).len() == 0 {
        Some("layer '"@ + l.name + "' has an empty scope"@)
    } else if !(forall|i: int| 0 <= i < l.scope.len() ==> scope_char(#[trigger] l.scope[i])) {
        Some(
            "layer '"@ + l.name + "' scope '"@ + l.scope
                + "' contains invalid characters (allowed: a-z, A-Z, 0-9, _, -)"@,
        )
    } else {
        None
    }
}

/// The error of the first layer, in order, that fails a check.
pub open spec fn layers_error_spec(ls: Seq<LayerView>) -> Option<Seq<char>>
    decreases ls.len(),
{
    if ls.len() == 0 {
        None
    } else {
        match layer_error_spec(ls[0]) {
            Some(m) => Some(m),
            None => layers_error_spec(ls.drop_first()),
        }
    }
}

/// The name at `j` repeats an earlier one.
pub open spec fn repeats_earlier(names: Seq<Seq<char>>, j: int) -> bool {
    exists|i: int| 0 <= i < j && #[trigger] names[i] == names[j]
}

/// Position of the first name that repeats an earlier one.
pub open spec fn first_duplicate_spec(names: Seq<Seq<char>>) -> Option<int> {
    if exists|j: int| 0 <= j < names.len() && #[trigger] repeats_earlier(names, j) {
        Some(
            choose|j: int|
                (0 <= j < names.len() && #[trigger] repeats_earlier(names, j)) && forall|k: int|
                    0 <= k < j ==> !repeats_earlier(names, k),
        )
    } else {
        None
    }
}

/// The names of the layers, in order.
pub open spec fn layer_names(ls: Seq<LayerView>) -> Seq<Seq<char>> {
    ls.map_values(|l: LayerView| l.name)
}

/// The outcome of validating a list of memory layers: the message of the
/// first layer that fails a check, else the first duplicated name.
pub open spec fn validate_layers_spec(ls: Seq<LayerView>) -> Option<Seq<char>> {
    match layers_error_spec(ls) {
        Some(m) => Some(m),
        None => match first_duplicate_spec(layer_names(ls)) {
            Some(j) => Some("duplicate layer name '"@ + ls[j].name + "'"@),
            None => None,
        },
    }
}

proof fn lemma_layers_each_valid(ls: Seq<LayerView>, k: int)
    requires
        layers_error_spec(ls) is None,
        0 <= k < ls.len(),
    ensures
        layer_error_spec(ls[k]) is None,
    decreases ls.len(),
{
    if k > 0 {
        assert(ls.drop_first()[k - 1] == ls[k]);
        lemma_layers_each_valid(ls.drop_first(), k - 1);
    }
}

/// Every layer that validation accepts has a non-blank name of at most 64
/// bytes made of alphanumerics, `_` and `-`; a non-blank scope made only of
/// ASCII letters, digits, `_` and `-`; and a name no other layer has.
pub proof fn law_accepted_layers_are_valid(ls: Seq<LayerView>)
    requires
        validate_layers_spec(ls) is None,
    ensures
        forall|k: int|
            0 <= k < ls.len() ==> {
                &&& trim_spec((#[trigger] ls[k]).name, CharClass::Whitespace).len() > 0
                &&& utf8_len(ls[k].name) <= 64
                &&& forall|i: int|
                    0 <= i < ls[k].name.len() ==> {
                        let c = #[trigger] ls[k].name[i];
                        alphanumeric(c) || c == '_' || c == '-'
                    }
                &&& trim_spec(ls[k].scope, CharClass::Whitespace).len() > 0
                &&& forall|i: int|
                    0 <= i < ls[k].scope.len() ==> {
                        let c = #[trigger] ls[k].scope[i];
                        ('a' <= c <= 'z') || ('A' <= c <= 'Z') || ('0' <= c <= '9') || c == '_'
                            || c == '-'
                    }
            },
        forall|j: int, k: int| 0 <= j < k < ls.len() ==> (#[trigger] ls[j]).name != (#[trigger] ls[k]).name,
{
    assert forall|k: int| 0 <= k < ls.len() implies {
        &&& trim_spec((#[trigger] ls[k]).name, CharClass::Whitespace).len() > 0
        &&& utf8_len(ls[k].name) <= 64
        &&& forall|i: int|
            0 <= i < ls[k].name.len() ==> {
                let c = #[trigger] ls[k].name[i];
                alphanumeric(c) || c == '_' || c == '-'
            }
        &&& trim_spec(ls[k].scope, CharClass::Whitespace).len() > 0
        &&& forall|i: int|
            0 <= i < ls[k].scope.len() ==> {
                let c = #[trigger] ls[k].scope[i];
                ('a' <= c <= 'z') || ('A' <= c <= 'Z') || ('0' <= c <= '9') || c == '_' || c == '-'
            }
    } by {
        lemma_layers_each_valid(ls, k);
        assert forall|i: int| 0 <= i < ls[k].name.len() implies {
            let c = #[trigger] ls[k].name[i];
            alphanumeric(c) || c == '_' || c == '-'
        } by {
            assert(layer_name_char(ls[k].name[i]));
        }
        assert forall|i: int| 0 <= i < ls[k].scope.len() implies {
            let c = #[trigger] ls[k].scope[i];
            ('a' <= c <= 'z') || ('A' <= c <= 'Z') || ('0' <= c <= '9') || c == '_' || c == '-'
        } by {
            assert(scope_char(ls[k].scope[i]));
        }
    }
    let names = layer_names(ls);
    assert forall|j: int, k: int| 0 <= j < k < ls.len() implies (#[trigger] ls[j]).name != (
    #[trigger] ls[k]).name by {
        if ls[j].name == ls[k].name {
            assert(names[j] == names[k]);
            assert(repeats_earlier(names, k));
        }
    }
}

fn all_layer_name_chars(s: &[char]) -> (b: bool)
    ensures
        b == forall|i: int| 0 <= i < s@.len() ==> layer_name_char(#[trigger] s@[i]),
{
    let mut i: usize = 0;
    while i < s.len()
        invariant
            0 <= i <= s@.len(),
            forall|j: int| 0 <= j < i ==> layer_name_char(#[trigger] s@[j]),
        decreases s.len() - i,
    {
        let c = s[i];
        if !(char_is_alphanumeric(c) || c == '_' || c == '-') {
            assert(!layer_name_char(s@[i as int]));
            return false;
        }
        i = i + 1;
    }
    true
}

fn all_scope_chars(s: &[char]) -> (b: bool)
    ensures
        b == forall|i: int| 0 <= i < s@.len() ==> scope_char(#[trigger] s@[i]),
{
    let mut i: usize = 0;
    while i < s.len()
        invariant
            0 <= i <= s@.len(),
            forall|j: int| 0 <= j < i ==> scope_char(#[trigger] s@[j]),
        decreases s.len() - i,
    {
        let c = s[i];
        if !(('a' <= c && c <= 'z') || ('A' <= c && c <= 'Z') || ('0' <= c && c <= '9') || c
            == '_' || c == '-') {
            assert(!scope_char(s@[i as int]));
            return false;
        }
        i = i + 1;
    }
    true
}

/// `a + b` as a new string.
fn cat2(a: &str, b: &str) -> (r: String)
    ensures
        r@ == a@ + b@,
{
    let mut r = String::from_str(a);
    r.append(b);
    r
}

/// The error message of the first check a layer fails.
pub fn layer_error(l: &MemoryLayer) -> (r: Option<String>)
    ensures
        opt_view(r) == layer_error_spec(l@),
{
    let name = chars_of(l.name.as_str());
    let scope = chars_of(l.scope.as_str());
    let tn = trim_chars(name.as_slice(), CharClass::Whitespace);
    if tn.len() == 0 {
        return Some(String::from_str("layer name must not be empty"));
    }
    let name_bytes = l.name.as_str().as_bytes();
    if name_bytes.len() > 64 {
        let mut m = cat2("layer name '", l.name.as_str());
        m.append("' exceeds 64 characters");
        return Some(m);
    }
    if !all_layer_name_chars(name.as_slice()) {
        let mut m = cat2("layer name '", l.name.as_str());
        m.append("' contains invalid characters (only alphanumeric, _, - allowed)");
        return Some(m);
    }
    let ts = trim_chars(scope.as_slice(), CharClass::Whitespace);
    if ts.len() == 0 {
        let mut m = cat2("layer '", l.name.as_str());
        m.append("' has an empty scope");
        return Some(m);
    }
    if !all_scope_chars(scope.as_slice()) {
        let mut m = cat2("layer '", l.name.as_str());
        m.append("' scope '");
        m.append(l.scope.as_str());
        m.append("' contains invalid characters (allowed: a-z, A-Z, 0-9, _, -)");
        return Some(m);
    }
    None
}

/// Whether the name of layer `j` repeats an earlier layer's name.
fn repeats_earlier_name(layers: &[MemoryLayer], j: usize) -> (b: bool)
    requires
        j < layers@.len(),
    ensures
        b == repeats_earlier(layer_names(layers_view(layers@)), j as int),
{
    let ghost names = layer_names(layers_view(layers@));
    let mut i: usize = 0;
    while i < j
        invariant
            names == layer_names(layers_view(layers@)),
            0 <= i <= j < layers@.len(),
            forall|k: int| 0 <= k < i ==> names[k] != names[j as int],
        decreases j - i,
    {
        if layers[i].name == layers[j].name {
            assert(names[i as int] == names[j as int]);
            return true;
        }
        i = i + 1;
    }
    false
}

/// Validate memory layer definitions: every name non-empty, at most 64 bytes
/// and made of alphanumerics, `_` and `-`; every scope non-empty and made of
/// ASCII alphanumerics, `_` and `-`; and no name used twice.
pub fn validate_memory_layers(layers: &[MemoryLayer]) -> (r: Result<(), ConfigError>)
    ensures
        match r {
            Ok(()) => validate_layers_spec(layers_view(layers@)) is None,
            Err(e) => validate_layers_spec(layers_view(layers@)) == Some(config_error_view(e).1)
                && config_error_view(e).0 == MEMORY_LAYERS_KEY@,
        },
{
    let ghost lv = layers_view(layers@);
    let mut i: usize = 0;
    assert(lv.skip(0) =~= lv);
    while i < layers.len()
        invariant
            lv == layers_view(layers@),
            0 <= i <= layers@.len(),
            layers_error_spec(lv) == layers_error_spec(lv.skip(i as int)),
        decreases layers.len() - i,
    {
        assert(lv.skip(i as int)[0] == layers@[i as int]@);
        assert(lv.skip(i as int).drop_first() =~= lv.skip(i + 1));
        match layer_error(&layers[i]) {
            Some(m) => {
                return Err(
                    ConfigError::InvalidValue { key: String::from_str(MEMORY_LAYERS_KEY), message: m },
                );
            },
            None => {},
        }
        i = i + 1;
    }
    assert(lv.skip(layers@.len() as int).len() == 0);
    assert(layers_error_spec(lv) is None);
    let ghost names = layer_names(lv);
    let mut j: usize = 0;
    while j < layers.len()
        invariant
            lv == layers_view(layers@),
            names == layer_names(lv),
            0 <= j <= layers@.len(),
            forall|k: int| 0 <= k < j ==> !repeats_earlier(names, k),
            layers_error_spec(lv) is None,
        decreases layers.len() - j,
    {
        if repeats_earlier_name(layers, j) {
            let mut m = cat2("duplicate layer name '", layers[j].name.as_str());
            m.append("'");
            proof {
                assert(first_duplicate_spec(names) == Some(j as int));
            }
            return Err(
                ConfigError::InvalidValue { key: String::from_str(MEMORY_LAYERS_KEY), message: m },
            );
        }
        j = j + 1;
    }
    assert(names.len() == layers@.len());
    assert(first_duplicate_spec(names) is None);
    Ok(())
}

/// The comma-separated entries of a read-scope setting, each trimmed of
/// whitespace, with empty entries dropped.
pub open spec fn read_scope_entries(segs: Seq<Seq<char>>) -> Seq<Seq<char>>
    decreases segs.len(),
{
    if segs.len() == 0 {
        segs
    } else {
        let prev = read_scope_entries(segs.drop_last());
        let t = trim_spec(segs.last(), CharClass::Whitespace);
        if t.len() > 0 {
            prev.push(t)
        } else {
            prev
        }
    }
}

/// The read scopes named by a `WORKSPACE_READ_SCOPES` value.
pub open spec fn parse_read_scopes_spec(raw: Seq<char>) -> Seq<Seq<char>> {
    read_scope_entries(split_on(raw, ','))
}

/// The views of a list of strings.
pub open spec fn strings_view(v: Seq<String>) -> Seq<Seq<char>> {
    v.map_values(|s: String| s@)
}

/// Split a `WORKSPACE_READ_SCOPES` value on commas, trimming each entry and
/// dropping empty ones.
pub fn parse_read_scopes(raw: &str) -> (v: Vec<String>)
    ensures
        strings_view(v@) == parse_read_scopes_spec(raw@),
{
    let s = chars_of(raw);
    let mut v: Vec<String> = Vec::new();
    let mut cur: Vec<char> = Vec::new();
    let mut i: usize = 0;
    assert(s@.take(0) =~= Seq::<char>::empty());
    proof {
        lemma_split_on_len(s@.take(0), ',');
    }
    while i < s.len()
        invariant
            0 <= i <= s@.len(),
            s@ == raw@,
            split_on(s@.take(i as int), ',').len() >= 1,
            cur@ == split_on(s@.take(i as int), ',').last(),
            strings_view(v@) == read_scope_entries(split_on(s@.take(i as int), ',').drop_last()),
        decreases s.len() - i,
    {
        let ghost prev = split_on(s@.take(i as int), ',');
        let c = s[i];
        assert(s@.take(i + 1).drop_last() =~= s@.take(i as int));
        proof {
            lemma_split_on_len(s@.take(i + 1), ',');
        }
        if c == ',' {
            assert(split_on(s@.take(i + 1), ',') == prev.push(Seq::<char>::empty()));
            assert(prev.push(Seq::<char>::empty()).drop_last() =~= prev);
            assert(prev =~= prev.drop_last().push(cur@));
            assert(prev.drop_last().push(cur@).drop_last() =~= prev.drop_last());
            let t = trim_chars(cur.as_slice(), CharClass::Whitespace);
            if t.len() > 0 {
                let ghost before = v@;
                v.push(string_of(t.as_slice()));
                assert(strings_view(v@) =~= strings_view(before).push(t@));
            }
            cur = Vec::new();
        } else {
            assert(split_on(s@.take(i + 1), ',') == prev.update(
                prev.len() - 1,
                prev.last().push(c),
            ));
            assert(prev.update(prev.len() - 1, prev.last().push(c)).drop_last()
                =~= prev.drop_last());
            cur.push(c);
        }
        i = i + 1;
    }
    assert(s@.take(s@.len() as int) =~= s@);
    let ghost segs = split_on(s@, ',');
    assert(segs =~= segs.drop_last().push(cur@));
    assert(segs.drop_last().push(cur@).drop_last() =~= segs.drop_last());
    let t = trim_chars(cur.as_slice(), CharClass::Whitespace);
    if t.len() > 0 {
        let ghost before = v@;
        v.push(string_of(t.as_slice()));
        assert(strings_view(v@) =~= strings_view(before).push(t@));
    }
    v
}

/// The first check a read scope fails, as the error message.
pub open spec fn read_scope_error_spec(scope: Seq<char>) -> Option<Seq<char>> {
    if utf8_len(scope) > 128 {
        Some(
            "scope '"@ + scope.take(if scope.len() < 32 {
                scope.len() as int
            } else {
                32
            }) + "...' exceeds 128 characters"@,
        )
    } else if !(forall|i: int| 0 <= i < scope.len() ==> scope_char(#[trigger] scope[i])) {
        Some("scope '"@ + scope + "' contains invalid characters (allowed: a-z, A-Z, 0-9, _, -)"@)
    } else {
        None
    }
}

/// The error of the first read scope, in order, that fails a check.
pub open spec fn read_scopes_error_spec(scopes: Seq<Seq<char>>) -> Option<Seq<char>>
    decreases scopes.len(),
{
    if scopes.len() == 0 {
        None
    } else {
        match read_scope_error_spec(scopes[0]) {
            Some(m) => Some(m),
            None => read_scopes_error_spec(scopes.drop_first()),
        }
    }
}

/// The error message of the first check a read scope fails.
pub fn read_scope_error(scope: &String) -> (r: Option<String>)
    ensures
        opt_view(r) == read_scope_error_spec(scope@),
{
    let c = chars_of(scope.as_str());
    let bytes = scope.as_str().as_bytes();
    if bytes.len() > 128 {
        let n = if c.len() < 32 {
            c.len()
        } else {
            32
        };
        let prefix = slice_chars(c.as_slice(), 0, n);
        let p = string_of(prefix.as_slice());
        let mut m = cat2("scope '", p.as_str());
        m.append("...' exceeds 128 characters");
        return Some(m);
    }
    if !all_scope_chars(c.as_slice()) {
        let mut m = cat2("scope '", scope.as_str());
        m.append("' contains invalid characters (allowed: a-z, A-Z, 0-9, _, -)");
        return Some(m);
    }
    None
}

/// Validate read scopes: each at most 128 bytes and made of ASCII
/// alphanumerics, `_` and `-`.
pub fn validate_read_scopes(scopes: &[String]) -> (r: Result<(), ConfigError>)
    ensures
        match r {
            Ok(()) => read_scopes_error_spec(strings_view(scopes@)) is None,
            Err(e) => read_scopes_error_spec(strings_view(scopes@)) == Some(config_error_view(e).1)
                && config_error_view(e).0 == READ_SCOPES_KEY@,
        },
{
    let ghost sv = strings_view(scopes@);
    let mut i: usize = 0;
    assert(sv.skip(0) =~= sv);
    while i < scopes.len()
        invariant
            sv == strings_view(scopes@),
            0 <= i <= scopes@.len(),
            read_scopes_error_spec(sv) == read_scopes_error_spec(sv.skip(i as int)),
        decreases scopes.len() - i,
    {
        assert(sv.skip(i as int)[0] == scopes@[i as int]@);
        assert(sv.skip(i as int).drop_first() =~= sv.skip(i + 1));
        match read_scope_error(&scopes[i]) {
            Some(m) => {
                return Err(
                    ConfigError::InvalidValue { key: String::from_str(READ_SCOPES_KEY), message: m },
                );
            },
            None => {},
        }
        i = i + 1;
    }
    assert(sv.skip(scopes@.len() as int).len() == 0);
    Ok(())
}

/// The memory layers and read scopes of a workspace.
pub struct WorkspaceSettings {
    /// Memory layer definitions.
    pub memory_layers: Vec<MemoryLayer>,
    /// Additional user scopes for workspace reads.
    pub read_scopes: Vec<String>,
}

/// Resolve the layer and scope settings of a workspace from the values of
/// `MEMORY_LAYERS` (already parsed; `None` when unset) and
/// `WORKSPACE_READ_SCOPES` (`None` when unset).
///
/// Unset layers default to the user's single private layer; the layers are
/// validated first, then the read scopes.
pub fn resolve_workspace_settings(
    user_id: &str,
    memory_layers: Option<Vec<MemoryLayer>>,
    read_scopes: Option<String>,
) -> (r: Result<WorkspaceSettings, ConfigError>)
    ensures
        ({
            let layers = match memory_layers {
                Some(v) => layers_view(v@),
                None => seq![
                    LayerView {
                        name: "private"@,
                        scope: user_id@,
                        writable: true,
                        sensitivity: LayerSensitivity::Private,
                    },
                ],
            };
            let scopes = match read_scopes {
                Some(s) => parse_read_scopes_spec(s@),
                None => Seq::empty(),
            };
            match r {
                Ok(cfg) => validate_layers_spec(layers) is None && read_scopes_error_spec(scopes)
                    is None && layers_view(cfg.memory_layers@) == layers && strings_view(
                    cfg.read_scopes@,
                ) == scopes,
                Err(e) => (validate_layers_spec(layers) is Some && config_error_view(e) == (
                    MEMORY_LAYERS_KEY@,
                    validate_layers_spec(layers)->0,
                )) || (validate_layers_spec(layers) is None && read_scopes_error_spec(scopes)
                    is Some && config_error_view(e) == (
                    READ_SCOPES_KEY@,
                    read_scopes_error_spec(scopes)->0,
                )),
            }
        }),
{
    let layers = match memory_layers {
        Some(v) => v,
        None => MemoryLayer::default_for_user(user_id),
    };
    proof {
        if memory_layers is None {
            assert(layers_view(layers@) =~= seq![
                LayerView {
                    name: "private"@,
                    scope: user_id@,
                    writable: true,
                    sensitivity: LayerSensitivity::Private,
                },
            ]);
        }
    }
    match validate_memory_layers(layers.as_slice()) {
        Ok(()) => {},
        Err(e) => {
            return Err(e);
        },
    }
    let scopes = match read_scopes {
        Some(s) => parse_read_scopes(s.as_str()),
        None => {
            let v: Vec<String> = Vec::new();
            assert(strings_view(v@) =~= Seq::<Seq<char>>::empty());
            v
        },
    };
    match validate_read_scopes(scopes.as_slice()) {
        Ok(()) => {},
        Err(e) => {
            return Err(e);
        },
    }
    Ok(WorkspaceSettings { memory_layers: layers, read_scopes: scopes })
}

/// Arguments for `ironclaw memory hdc backfill`.
#[derive(Debug, Clone)]
pub struct HdcBackfillArgs {
    /// Only backfill documents for this user ID.
    pub user: Option<String>,
    /// Maximum number of documents to fingerprint.
    pub limit: Option<usize>,
    /// Compute fingerprints but don't write to database.
    pub dry_run: bool,
    /// Batch size for processing.
    pub batch_size: usize,
}


} // verus!
