//! Compiler-flag resolution from layered configuration sources, and the
//! flag-aware cache-key contribution.

use crate::errors::Error;
use crate::text::{
    clone_strings, contains_char, has_prefix, has_suffix, is_prefix, is_suffix, join_spaces,
    join_with_spaces, split_whitespace_tokens, split_ws, str_eq,
};
use crate::tree::{entries_of, ser_entries, ser_value, serialize, spec_get, ConfigValue};
use crate::xargo::Home;
use std::collections::hash_map::DefaultHasher;
use std::hash::Hasher;
use vstd::prelude::*;
use vstd::string::StrSliceExecFns;
use vstd::string::StringExecFns;
use vstd::utf8::encode_utf8;
use vstd::utf8::encode_utf8_decode_utf8;

verus! {

broadcast use vstd::std_specs::vec::group_vec_axioms, vstd::seq::group_seq_axioms;

/// An ordered list of compiler flags, constructed fresh per invocation.
pub struct Rustflags {
    flags: Vec<String>,
}

impl View for Rustflags {
    type V = Seq<Seq<char>>;

    closed spec fn view(&self) -> Seq<Seq<char>> {
        self.flags.deep_view()
    }
}

/// A flag value that names a linker argument: such a value varies across
/// machines without affecting the cached artifacts.
pub open spec fn is_link_arg(t: Seq<char>) -> bool {
    is_prefix("link-arg="@, t) || is_prefix("link-args="@, t)
}

/// The byte sequences a flag list feeds to the hasher: tokens are hashed in
/// order, except that a `-C` marker followed by a linker-argument value is
/// skipped together with that value; a trailing `-C` is hashed alone.
pub open spec fn hashed_writes(s: Seq<Seq<char>>) -> Seq<Seq<u8>>
    decreases s.len(),
{
    if s.len() == 0 {
        Seq::empty()
    } else if s[0] == "-C"@ {
        if s.len() >= 2 {
            if is_link_arg(s[1]) {
                hashed_writes(s.subrange(2, s.len() as int))
            } else {
                seq![encode_utf8(s[0]), encode_utf8(s[1])] + hashed_writes(
                    s.subrange(2, s.len() as int),
                )
            }
        } else {
            seq![encode_utf8(s[0])]
        }
    } else {
        seq![encode_utf8(s[0])] + hashed_writes(s.subrange(1, s.len() as int))
    }
}

/// The left-to-right scan of `s` consumes exactly `s`: no `-C` marker pairs
/// with a token beyond the end of `s`.
pub open spec fn scan_closed(s: Seq<Seq<char>>) -> bool
    decreases s.len(),
{
    if s.len() == 0 {
        true
    } else if s[0] == "-C"@ {
        s.len() >= 2 && scan_closed(s.subrange(2, s.len() as int))
    } else {
        scan_closed(s.subrange(1, s.len() as int))
    }
}

/// The scan treats a closed prefix independently of what follows it.
pub proof fn lemma_hashed_writes_concat(p: Seq<Seq<char>>, q: Seq<Seq<char>>)
    requires
        scan_closed(p),
    ensures
        hashed_writes(p + q) == hashed_writes(p) + hashed_writes(q),
    decreases p.len(),
{
    if p.len() == 0 {
        assert(p + q =~= q);
        assert(hashed_writes(p) + hashed_writes(q) =~= hashed_writes(q));
    } else if p[0] == "-C"@ {
        let rest = p.subrange(2, p.len() as int);
        assert((p + q)[0] == p[0]);
        assert((p + q)[1] == p[1]);
        assert((p + q).subrange(2, (p + q).len() as int) =~= rest + q);
        lemma_hashed_writes_concat(rest, q);
        if is_link_arg(p[1]) {
        } else {
            assert(seq![encode_utf8(p[0]), encode_utf8(p[1])] + (hashed_writes(rest)
                + hashed_writes(q)) =~= (seq![encode_utf8(p[0]), encode_utf8(p[1])]
                + hashed_writes(rest)) + hashed_writes(q));
        }
    } else {
        let rest = p.subrange(1, p.len() as int);
        assert((p + q)[0] == p[0]);
        assert((p + q).subrange(1, (p + q).len() as int) =~= rest + q);
        lemma_hashed_writes_concat(rest, q);
        assert(seq![encode_utf8(p[0])] + (hashed_writes(rest) + hashed_writes(q)) =~= (seq![
            encode_utf8(p[0]),
        ] + hashed_writes(rest)) + hashed_writes(q));
    }
}

/// The cache-key contribution ignores a linker-argument pair's value: two
/// flag lists that differ only in that value contribute identically.
pub proof fn lemma_cache_key_skips_linker_args(
    p: Seq<Seq<char>>,
    v1: Seq<char>,
    v2: Seq<char>,
    q: Seq<Seq<char>>,
)
    requires
        scan_closed(p),
        is_link_arg(v1),
        is_link_arg(v2),
    ensures
        hashed_writes(p + seq!["-C"@, v1] + q) == hashed_writes(p + seq!["-C"@, v2] + q),
{
    let m = "-C"@;
    let s1 = seq![m, v1] + q;
    let s2 = seq![m, v2] + q;
    assert(p + seq![m, v1] + q =~= p + s1);
    assert(p + seq![m, v2] + q =~= p + s2);
    lemma_hashed_writes_concat(p, s1);
    lemma_hashed_writes_concat(p, s2);
    assert(s1.subrange(2, s1.len() as int) =~= q);
    assert(s2.subrange(2, s2.len() as int) =~= q);
    assert(hashed_writes(s1) == hashed_writes(q));
    assert(hashed_writes(s2) == hashed_writes(q));
}

/// The cache-key contribution tracks a `-C` pair whose value is not a linker
/// argument: changing that value changes the contribution.
pub proof fn lemma_cache_key_tracks_pair_change(
    p: Seq<Seq<char>>,
    v1: Seq<char>,
    v2: Seq<char>,
    q: Seq<Seq<char>>,
)
    requires
        scan_closed(p),
        !is_link_arg(v1),
        !is_link_arg(v2),
        v1 != v2,
    ensures
        hashed_writes(p + seq!["-C"@, v1] + q) != hashed_writes(p + seq!["-C"@, v2] + q),
{
    let m = "-C"@;
    let s1 = seq![m, v1] + q;
    let s2 = seq![m, v2] + q;
    assert(p + seq![m, v1] + q =~= p + s1);
    assert(p + seq![m, v2] + q =~= p + s2);
    lemma_hashed_writes_concat(p, s1);
    lemma_hashed_writes_concat(p, s2);
    assert(s1.subrange(2, s1.len() as int) =~= q);
    assert(s2.subrange(2, s2.len() as int) =~= q);
    assert(hashed_writes(s1) == seq![encode_utf8(m), encode_utf8(v1)] + hashed_writes(q));
    assert(hashed_writes(s2) == seq![encode_utf8(m), encode_utf8(v2)] + hashed_writes(q));
    encode_utf8_decode_utf8(v1);
    encode_utf8_decode_utf8(v2);
    assert(encode_utf8(v1) != encode_utf8(v2));
    let i = hashed_writes(p).len() as int;
    assert(hashed_writes(p + s1)[i + 1] == encode_utf8(v1));
    assert(hashed_writes(p + s2)[i + 1] == encode_utf8(v2));
}

/// The cache-key contribution tracks a standalone flag: changing a token
/// that is not a `-C` marker and stands outside any pair changes the
/// contribution.
pub proof fn lemma_cache_key_tracks_flag_change(
    p: Seq<Seq<char>>,
    v1: Seq<char>,
    v2: Seq<char>,
    q: Seq<Seq<char>>,
)
    requires
        scan_closed(p),
        v1 != "-C"@,
        v2 != "-C"@,
        v1 != v2,
    ensures
        hashed_writes(p + seq![v1] + q) != hashed_writes(p + seq![v2] + q),
{
    let s1 = seq![v1] + q;
    let s2 = seq![v2] + q;
    assert(p + seq![v1] + q =~= p + s1);
    assert(p + seq![v2] + q =~= p + s2);
    lemma_hashed_writes_concat(p, s1);
    lemma_hashed_writes_concat(p, s2);
    assert(s1.subrange(1, s1.len() as int) =~= q);
    assert(s2.subrange(1, s2.len() as int) =~= q);
    assert(hashed_writes(s1) == seq![encode_utf8(v1)] + hashed_writes(q));
    assert(hashed_writes(s2) == seq![encode_utf8(v2)] + hashed_writes(q));
    encode_utf8_decode_utf8(v1);
    encode_utf8_decode_utf8(v2);
    let i = hashed_writes(p).len() as int;
    assert(hashed_writes(p + s1)[i] == encode_utf8(v1));
    assert(hashed_writes(p + s2)[i] == encode_utf8(v2));
}

/// The flag list followed by `--sysroot <path>`, joined with single spaces.
pub open spec fn rendered(flags: Seq<Seq<char>>, sysroot: Seq<char>) -> Seq<char> {
    join_spaces(flags + seq!["--sysroot"@, sysroot])
}

impl Rustflags {
    /// A flag set holding exactly the given tokens, in order.
    pub fn new(flags: Vec<String>) -> (r: Rustflags)
        ensures
            r@ == flags.deep_view(),
    {
        Rustflags { flags }
    }

    /// Folds the flag tokens into the running hash, skipping each `-C`
    /// marker paired with a linker-argument value, so the cache key stays
    /// reproducible across environments.
    pub fn hash(&self, hasher: &mut DefaultHasher)
        ensures
            final (hasher)@ == old(hasher)@ + hashed_writes(self@),
    {
        let n = self.flags.len();
        proof {
            assert(self@.len() == n);
            assert(self@.subrange(0, n as int) =~= self@);
        }
        let mut i: usize = 0;
        #[verifier::loop_isolation(false)]
        while i < n
            invariant
                i <= n,
                hasher@ + hashed_writes(self@.subrange(i as int, n as int)) == old(hasher)@
                    + hashed_writes(self@),
            decreases n - i,
        {
            let ghost suf = self@.subrange(i as int, n as int);
            proof {
                assert(suf[0] == self@[i as int]);
                assert(self.flags@[i as int]@ == self@[i as int]);
                assert(suf.subrange(1, suf.len() as int) =~= self@.subrange(i as int + 1, n as int));
                if i as int + 1 < n {
                    assert(suf[1] == self@[i as int + 1]);
                    assert(self.flags@[i as int + 1]@ == self@[i as int + 1]);
                    assert(suf.subrange(2, suf.len() as int) =~= self@.subrange(
                        i as int + 2,
                        n as int,
                    ));
                }
            }
            let is_marker = str_eq(self.flags[i].as_str(), "-C");
            if is_marker && i + 1 < n {
                let nxt = self.flags[i + 1].as_str();
                if has_prefix(nxt, "link-arg=") || has_prefix(nxt, "link-args=") {
                    i += 2;
                } else {
                    let ghost before = hasher@;
                    hasher.write(self.flags[i].as_str().as_bytes());
                    hasher.write(nxt.as_bytes());
                    proof {
                        assert(hasher@ =~= before + seq![
                            encode_utf8(suf[0]),
                            encode_utf8(suf[1]),
                        ]);
                        assert(before + (seq![encode_utf8(suf[0]), encode_utf8(suf[1])]
                            + hashed_writes(suf.subrange(2, suf.len() as int))) =~= hasher@
                            + hashed_writes(suf.subrange(2, suf.len() as int)));
                    }
                    i += 2;
                }
            } else {
                let ghost before = hasher@;
                hasher.write(self.flags[i].as_str().as_bytes());
                proof {
                    assert(hasher@ =~= before.push(encode_utf8(suf[0])));
                    if suf[0] == "-C"@ {
                        assert(suf.len() == 1);
                        assert(hashed_writes(suf) == seq![encode_utf8(suf[0])]);
                        assert(before + hashed_writes(suf) =~= hasher@);
                        assert(suf.subrange(1, suf.len() as int).len() == 0);
                        assert(hasher@ + hashed_writes(self@.subrange(i as int + 1, n as int))
                            =~= hasher@);
                    } else {
                        assert(before + (seq![encode_utf8(suf[0])] + hashed_writes(
                            suf.subrange(1, suf.len() as int),
                        )) =~= hasher@ + hashed_writes(suf.subrange(1, suf.len() as int)));
                    }
                }
                i += 1;
            }
        }
        proof {
            assert(self@.subrange(n as int, n as int).len() == 0);
            assert(hasher@ + hashed_writes(self@.subrange(n as int, n as int)) =~= hasher@);
        }
    }

    /// Renders the flags for the invocation environment: refuses a sysroot
    /// path containing a space unless `allow_spaces` is set, and otherwise
    /// appends `--sysroot <path>` and joins everything with single spaces.
    pub fn for_xargo(&self, home: &Home, allow_spaces: bool) -> (r: Result<String, Error>)
        ensures
            match r {
                Ok(s) => (allow_spaces || !home@.contains(' ')) && s@ == rendered(self@, home@),
                Err(e) => !allow_spaces && home@.contains(' ') && (e matches Error::SysrootSpaces {
                    sysroot,
                } && sysroot@ == home@),
            },
    {
        let sys = home.as_str();
        if !allow_spaces && contains_char(sys, ' ') {
            return Err(Error::SysrootSpaces { sysroot: sys.to_owned() });
        }
        let mut fs = clone_strings(self.flags_vec());
        fs.push(String::from_str("--sysroot"));
        fs.push(sys.to_owned());
        proof {
            assert(fs.deep_view() =~= self@ + seq!["--sysroot"@, home@]);
        }
        let joined = join_with_spaces(&fs);
        Ok(joined)
    }

    fn flags_vec(&self) -> (r: &Vec<String>)
        ensures
            r.deep_view() == self@,
    {
        &self.flags
    }
}

/// A parsed project configuration: the directory it was found in, and its
/// configuration tree.
pub struct Config {
    parent_path: String,
    table: ConfigValue,
}

/// The value reached by two successive key lookups.
pub open spec fn lookup2(t: ConfigValue, k1: Seq<char>, k2: Seq<char>) -> Option<ConfigValue> {
    match spec_get(t, k1) {
        Some(v) => spec_get(v, k2),
        None => None,
    }
}

/// The value reached by three successive key lookups.
pub open spec fn lookup3(t: ConfigValue, k1: Seq<char>, k2: Seq<char>, k3: Seq<char>) -> Option<
    ConfigValue,
> {
    match lookup2(t, k1, k2) {
        Some(v) => spec_get(v, k3),
        None => None,
    }
}

impl Config {
    /// The configuration tree.
    pub closed spec fn table_of(&self) -> ConfigValue {
        self.table
    }

    /// The directory the configuration was found in.
    pub closed spec fn parent_of(&self) -> Seq<char> {
        self.parent_path@
    }

    /// A configuration found in `parent_path` with tree `table`.
    pub fn new(parent_path: String, table: ConfigValue) -> (r: Config)
        ensures
            r.table_of() == table,
            r.parent_of() == parent_path@,
    {
        Config { parent_path, table }
    }

    fn table(&self) -> (r: &ConfigValue)
        ensures
            *r == self.table_of(),
    {
        &self.table
    }
}

fn lookup_chain2<'a>(t: &'a ConfigValue, k1: &str, k2: &str) -> (r: Option<&'a ConfigValue>)
    ensures
        match r {
            Some(v) => lookup2(*t, k1@, k2@) == Some(*v),
            None => lookup2(*t, k1@, k2@) is None,
        },
{
    match t.get(k1) {
        Some(v1) => v1.get(k2),
        None => None,
    }
}

fn lookup_chain3<'a>(t: &'a ConfigValue, k1: &str, k2: &str, k3: &str) -> (r: Option<
    &'a ConfigValue,
>)
    ensures
        match r {
            Some(v) => lookup3(*t, k1@, k2@, k3@) == Some(*v),
            None => lookup3(*t, k1@, k2@, k3@) is None,
        },
{
    match lookup_chain2(t, k1, k2) {
        Some(v2) => v2.get(k3),
        None => None,
    }
}

/// The elements of an array value; meaningful only for the array kind.
pub open spec fn arr_items(v: ConfigValue) -> Seq<Seq<char>> {
    match v {
        ConfigValue::Arr(items) => items.deep_view(),
        _ => Seq::empty(),
    }
}

fn string_array(v: &ConfigValue) -> (r: Option<Vec<String>>)
    ensures
        match r {
            Some(out) => v is Arr && out.deep_view() == arr_items(*v),
            None => !(v is Arr),
        },
{
    match v {
        ConfigValue::Arr(items) => {
            let out = clone_strings(items);
            proof {
                assert(out.deep_view() =~= items.deep_view());
            }
            Some(out)
        },
        _ => None,
    }
}

/// The key path of a target-scoped entry, as reported in errors.
pub open spec fn target_key(target: Seq<char>, tool: Seq<char>) -> Seq<char> {
    "target."@ + target + "."@ + tool
}

/// The key path of a build-wide entry, as reported in errors.
pub open spec fn build_key(tool: Seq<char>) -> Seq<char> {
    "build."@ + tool
}

fn target_key_string(target: &str, tool: &str) -> (r: String)
    ensures
        r@ == target_key(target@, tool@),
{
    let mut out = String::from_str("target.");
    out.append(target);
    out.append(".");
    out.append(tool);
    proof {
        assert(out@ =~= target_key(target@, tool@));
    }
    out
}

fn build_key_string(tool: &str) -> (r: String)
    ensures
        r@ == build_key(tool@),
{
    let mut out = String::from_str("build.");
    out.append(tool);
    proof {
        assert(out@ =~= build_key(tool@));
    }
    out
}

/// The view of an optional environment override.
pub open spec fn opt_view(s: Option<&str>) -> Option<Seq<char>> {
    match s {
        Some(v) => Some(v@),
        None => None,
    }
}

/// The view of an optional configuration.
pub open spec fn cfg_view(config: Option<&Config>) -> Option<ConfigValue> {
    match config {
        Some(c) => Some(c.table_of()),
        None => None,
    }
}

/// The resolved flag list for a tool category, or the malformed key path.
/// Precedence: the environment override is tokenized and used verbatim; then
/// the target-scoped entry; then the build-wide entry; then no flags. A
/// present entry that is not an array of strings is an error naming its key;
/// an absent entry is not.
pub open spec fn spec_flags(
    env: Option<Seq<char>>,
    config: Option<ConfigValue>,
    target: Seq<char>,
    tool: Seq<char>,
) -> Result<Seq<Seq<char>>, Seq<char>> {
    match env {
        Some(v) => Ok(split_ws(v)),
        None => match config {
            None => Ok(Seq::empty()),
            Some(table) => match lookup3(table, "target"@, target, tool) {
                Some(v) => if v is Arr {
                    Ok(arr_items(v))
                } else {
                    Err(target_key(target, tool))
                },
                None => match lookup2(table, "build"@, tool) {
                    Some(v) => if v is Arr {
                        Ok(arr_items(v))
                    } else {
                        Err(build_key(tool))
                    },
                    None => Ok(Seq::empty()),
                },
            },
        },
    }
}

/// Resolves the flags for `tool`: the environment override value, if one is
/// given, wins over the configuration tree; a malformed entry is an error
/// naming the offending key.
pub fn flags(env_value: Option<&str>, config: Option<&Config>, target: &str, tool: &str) -> (r:
    Result<Vec<String>, Error>)
    ensures
        match r {
            Ok(v) => spec_flags(opt_view(env_value), cfg_view(config), target@, tool@)
                == Ok::<Seq<Seq<char>>, Seq<char>>(v.deep_view()),
            Err(e) => e matches Error::ConfigKeyNotArray { key } && spec_flags(
                opt_view(env_value),
                cfg_view(config),
                target@,
                tool@,
            ) == Err::<Seq<Seq<char>>, Seq<char>>(key@),
        },
{
    if let Some(v) = env_value {
        return Ok(split_whitespace_tokens(v));
    }
    let cfg = match config {
        Some(c) => c,
        None => {
            let out: Vec<String> = Vec::new();
            proof {
                assert(out.deep_view() =~= Seq::<Seq<char>>::empty());
            }
            return Ok(out);
        },
    };
    let table = cfg.table();
    if let Some(v) = lookup_chain3(table, "target", target, tool) {
        match string_array(v) {
            Some(out) => Ok(out),
            None => Err(Error::ConfigKeyNotArray { key: target_key_string(target, tool) }),
        }
    } else {
        if let Some(v) = lookup_chain2(table, "build", tool) {
            match string_array(v) {
                Some(out) => Ok(out),
                None => Err(Error::ConfigKeyNotArray { key: build_key_string(tool) }),
            }
        } else {
            let out: Vec<String> = Vec::new();
            proof {
                assert(out.deep_view() =~= Seq::<Seq<char>>::empty());
            }
            Ok(out)
        }
    }
}

/// How the build target is specified in the configuration.
#[derive(Debug, PartialEq)]
pub enum TargetSpec {
    /// A plain target triple, used as given.
    Triple(String),
    /// A path to a target-description file, joined under the configuration's
    /// directory; it must be canonicalized before use as a cache-key input.
    JsonFile(String),
}

/// The text of a string value; meaningful only for the string kind.
pub open spec fn str_of(v: ConfigValue) -> Seq<char> {
    match v {
        ConfigValue::Str(s) => s@,
        _ => Seq::empty(),
    }
}

impl Config {
    /// The configured build target, if any: a `build.target` entry that is
    /// not a string is an error naming that key; a target ending in `.json`
    /// names a target-description file under this configuration's directory.
    pub fn target(&self) -> (r: Result<Option<TargetSpec>, Error>)
        ensures
            match r {
                Ok(o) => match o {
                    None => lookup2(self.table_of(), "build"@, "target"@) is None,
                    Some(ts) => match lookup2(self.table_of(), "build"@, "target"@) {
                        Some(v) => v is Str && if is_suffix(".json"@, str_of(v)) {
                            ts matches TargetSpec::JsonFile(p) && p@ == self.parent_of() + "/"@
                                + str_of(v)
                        } else {
                            ts matches TargetSpec::Triple(t) && t@ == str_of(v)
                        },
                        None => false,
                    },
                },
                Err(e) => e matches Error::ConfigKeyNotString { key } && key@ == "build.target"@
                    && (match lookup2(self.table_of(), "build"@, "target"@) {
                    Some(v) => !(v is Str),
                    None => false,
                }),
            },
    {
        let v = match lookup_chain2(&self.table, "build", "target") {
            Some(v) => v,
            None => {
                return Ok(None);
            },
        };
        match v {
            ConfigValue::Str(s) => {
                if has_suffix(s.as_str(), ".json") {
                    let mut p = self.parent_path.clone();
                    p.append("/");
                    p.append(s.as_str());
                    proof {
                        assert(p@ =~= self.parent_of() + "/"@ + s@);
                    }
                    Ok(Some(TargetSpec::JsonFile(p)))
                } else {
                    Ok(Some(TargetSpec::Triple(s.clone())))
                }
            },
            _ => Err(Error::ConfigKeyNotString { key: String::from_str("build.target") }),
        }
    }
}

/// A parsed project manifest.
pub struct Toml {
    table: ConfigValue,
}

/// The release profile of a manifest: the subtree that contributes to the
/// cache key.
pub struct Profile<'t> {
    table: &'t ConfigValue,
}

impl Toml {
    /// The manifest tree.
    pub closed spec fn table_of(&self) -> ConfigValue {
        self.table
    }

    /// A manifest with tree `table`.
    pub fn new(table: ConfigValue) -> (r: Toml)
        ensures
            r.table_of() == table,
    {
        Toml { table }
    }

    /// The `profile.release` part of the manifest.
    pub fn profile<'a>(&'a self) -> (r: Option<Profile<'a>>)
        ensures
            match r {
                Some(p) => lookup2(self.table_of(), "profile"@, "release"@) == Some(p.value()),
                None => lookup2(self.table_of(), "profile"@, "release"@) is None,
            },
    {
        match lookup_chain2(&self.table, "profile", "release") {
            Some(v) => Some(Profile { table: v }),
            None => None,
        }
    }
}

/// The entries of a profile table with the `lto` key removed: `lto` does not
/// affect the cached library artifacts.
pub open spec fn entries_without_lto(es: Seq<(String, ConfigValue)>) -> Seq<(String, ConfigValue)>
    decreases es.len(),
{
    if es.len() == 0 {
        Seq::empty()
    } else {
        (if es[0].0@ == "lto"@ {
            Seq::<(String, ConfigValue)>::empty()
        } else {
            seq![es[0]]
        }) + entries_without_lto(es.subrange(1, es.len() as int))
    }
}

proof fn lemma_without_lto_concat(a: Seq<(String, ConfigValue)>, b: Seq<(String, ConfigValue)>)
    ensures
        entries_without_lto(a + b) == entries_without_lto(a) + entries_without_lto(b),
    decreases a.len(),
{
    if a.len() == 0 {
        assert(a + b =~= b);
        assert(entries_without_lto(a) + entries_without_lto(b) =~= entries_without_lto(b));
    } else {
        let rest = a.subrange(1, a.len() as int);
        assert((a + b)[0] == a[0]);
        assert((a + b).subrange(1, (a + b).len() as int) =~= rest + b);
        lemma_without_lto_concat(rest, b);
        let chunk = if a[0].0@ == "lto"@ {
            Seq::<(String, ConfigValue)>::empty()
        } else {
            seq![a[0]]
        };
        assert(chunk + (entries_without_lto(rest) + entries_without_lto(b)) =~= (chunk
            + entries_without_lto(rest)) + entries_without_lto(b));
    }
}

proof fn lemma_without_lto_snoc(es: Seq<(String, ConfigValue)>, i: int)
    requires
        0 <= i < es.len(),
    ensures
        entries_without_lto(es.subrange(0, i + 1)) == entries_without_lto(es.subrange(0, i)) + (
        if es[i].0@ == "lto"@ {
            Seq::<(String, ConfigValue)>::empty()
        } else {
            seq![es[i]]
        }),
{
    let one = seq![es[i]];
    assert(es.subrange(0, i + 1) =~= es.subrange(0, i) + one);
    lemma_without_lto_concat(es.subrange(0, i), one);
    let chunk = if es[i].0@ == "lto"@ {
        Seq::<(String, ConfigValue)>::empty()
    } else {
        seq![es[i]]
    };
    assert(one.subrange(1, 1).len() == 0);
    assert(entries_without_lto(one.subrange(1, 1)) =~= Seq::<(String, ConfigValue)>::empty());
    assert(one[0] == es[i]);
    assert(entries_without_lto(one) == chunk + entries_without_lto(one.subrange(1, 1)));
    assert(entries_without_lto(one) =~= chunk);
}

/// The digest contribution of the release profile: once `lto` is removed, an
/// empty table contributes nothing at all, and a non-empty one contributes
/// its canonical text. A profile that is not a table contributes its own
/// canonical text.
pub open spec fn profile_digest(t: ConfigValue) -> Option<Seq<char>> {
    match t {
        ConfigValue::Table(es) => {
            let kept = entries_without_lto(es@);
            if kept.len() == 0 {
                None
            } else {
                Some(seq!['{'] + ser_entries(kept) + seq!['}'])
            }
        },
        _ => Some(ser_value(t)),
    }
}

/// The byte sequences the profile feeds to the hasher.
pub open spec fn digest_writes(t: ConfigValue) -> Seq<Seq<u8>> {
    match profile_digest(t) {
        Some(s) => seq![encode_utf8(s)],
        None => Seq::empty(),
    }
}

/// The digest contribution ignores the `lto` key: two profile tables whose
/// entries agree once `lto` is removed contribute identically — both nothing
/// when the remainder is empty, and both the same text otherwise.
pub proof fn lemma_digest_ignores_lto(t1: ConfigValue, t2: ConfigValue)
    requires
        t1 is Table,
        t2 is Table,
        entries_without_lto(entries_of(t1)) == entries_without_lto(entries_of(t2)),
    ensures
        profile_digest(t1) == profile_digest(t2),
        digest_writes(t1) == digest_writes(t2),
{
}

impl<'t> Profile<'t> {
    /// The profile subtree this handle points at.
    pub closed spec fn value(&self) -> ConfigValue {
        *self.table
    }

    /// A profile handle over an existing value.
    pub fn from_value(table: &'t ConfigValue) -> (r: Profile<'t>)
        ensures
            r.value() == *table,
    {
        Profile { table }
    }

    /// The cache-key text of this profile, or nothing when removing `lto`
    /// leaves an empty table.
    pub fn digest(&self) -> (r: Option<String>)
        ensures
            match r {
                Some(s) => profile_digest(self.value()) == Some(s@),
                None => profile_digest(self.value()) is None,
            },
    {
        proof {
            reveal_strlit("{");
            reveal_strlit("}");
            reveal_strlit(",");
            reveal_strlit("=");
        }
        match self.table {
            ConfigValue::Table(es) => {
                let n = es.len();
                let mut out = String::new();
                out.append("{");
                let mut any = false;
                let mut i: usize = 0;
                #[verifier::loop_isolation(false)]
                while i < n
                    invariant
                        i <= n,
                        n == es@.len(),
                        any == (entries_without_lto(es@.subrange(0, i as int)).len() > 0),
                        out@ == seq!['{'] + ser_entries(
                            entries_without_lto(es@.subrange(0, i as int)),
                        ),
                    decreases n - i,
                {
                    proof {
                        lemma_without_lto_snoc(es@, i as int);
                        reveal_strlit(",");
                        reveal_strlit("=");
                    }
                    if str_eq(es[i].0.as_str(), "lto") {
                        proof {
                            assert(entries_without_lto(es@.subrange(0, i as int + 1))
                                =~= entries_without_lto(es@.subrange(0, i as int)));
                        }
                    } else {
                        if any {
                            out.append(",");
                        }
                        out.append(es[i].0.as_str());
                        out.append("=");
                        proof {
                            assert(decreases_to!(*self.table => *es));
                            assert(decreases_to!(*es => es@));
                            assert(decreases_to!(es@ => es@[i as int]));
                        }
                        let sv = serialize(&es[i].1);
                        out.append(sv.as_str());
                        any = true;
                        proof {
                            let kept = entries_without_lto(es@.subrange(0, i as int));
                            let kept2 = entries_without_lto(es@.subrange(0, i as int + 1));
                            assert(kept2 =~= kept + seq![es@[i as int]]);
                            assert(kept2.subrange(0, kept2.len() - 1) =~= kept);
                            assert(kept2[kept2.len() - 1] == es@[i as int]);
                            if kept.len() == 0 {
                                assert(out@ =~= seq!['{'] + (kept2[0].0@ + seq!['='] + ser_value(
                                    kept2[0].1,
                                )));
                            } else {
                                assert(out@ =~= seq!['{'] + (ser_entries(
                                    kept2.subrange(0, kept2.len() - 1),
                                ) + seq![','] + (kept2[kept2.len() - 1].0@ + seq!['='] + ser_value(
                                    kept2[kept2.len() - 1].1,
                                ))));
                            }
                        }
                    }
                    i += 1;
                }
                proof {
                    assert(es@.subrange(0, n as int) =~= es@);
                }
                if any {
                    out.append("}");
                    proof {
                        assert(out@ =~= seq!['{'] + ser_entries(entries_without_lto(es@))
                            + seq!['}']);
                    }
                    Some(out)
                } else {
                    None
                }
            },
            _ => Some(serialize(self.table)),
        }
    }

    /// Folds the profile's digest contribution, if any, into the running
    /// hash.
    pub fn hash(&self, hasher: &mut DefaultHasher)
        ensures
            final (hasher)@ == old(hasher)@ + digest_writes(self.value()),
    {
        match self.digest() {
            Some(s) => {
                let ghost before = hasher@;
                hasher.write(s.as_str().as_bytes());
                proof {
                    assert(hasher@ =~= before + seq![encode_utf8(s@)]);
                }
            },
            None => {
                proof {
                    assert(hasher@ + Seq::<Seq<u8>>::empty() =~= hasher@);
                }
            },
        }
    }
}

/// Resolves the compiler-flag category `rustflags` into a flag set.
pub fn rustflags(env_value: Option<&str>, config: Option<&Config>, target: &str) -> (r: Result<
    Rustflags,
    Error,
>)
    ensures
        match r {
            Ok(f) => spec_flags(opt_view(env_value), cfg_view(config), target@, "rustflags"@)
                == Ok::<Seq<Seq<char>>, Seq<char>>(f@),
            Err(e) => e matches Error::ConfigKeyNotArray { key } && spec_flags(
                opt_view(env_value),
                cfg_view(config),
                target@,
                "rustflags"@,
            ) == Err::<Seq<Seq<char>>, Seq<char>>(key@),
        },
{
    match flags(env_value, config, target, "rustflags") {
        Ok(v) => Ok(Rustflags::new(v)),
        Err(e) => Err(e),
    }
}

} // verus!
