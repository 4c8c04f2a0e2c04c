//! Settings: the config file, the environment, and their defaults.
use crate::text::{
    chars_of, decimal, decimal_int, is_blank, is_space, is_trimmed, lacks,
    law_parted_at_the_first_separator, law_parts_are_found, law_split_at_a_separator,
    law_trim_leaves_the_rest, law_trim_takes_the_ends, lemma_trimmed, opt_view, split, split_on,
    split_once, split_once_str, string_of, trim, trim_str, views,
};
use vstd::hash_map::StringHashMap;
use vstd::prelude::*;

verus! {

/// The contents of a map of strings.
pub open spec fn string_map(m: StringHashMap<String>) -> Map<Seq<char>, Seq<char>> {
    m@.map_values(|s: String| s@)
}

/// The map of the entries that are there; of two with one key, the later one.
pub open spec fn collect(entries: Seq<Option<(Seq<char>, Seq<char>)>>) -> Map<Seq<char>, Seq<char>>
    decreases entries.len(),
{
    if entries.len() == 0 {
        Map::empty()
    } else {
        match entries.last() {
            Some(e) => collect(entries.drop_last()).insert(e.0, e.1),
            None => collect(entries.drop_last()),
        }
    }
}

// ---------------------------------------------------------------------------
// The config file
// ---------------------------------------------------------------------------

/// A value without the double quotes around it, where there are two.
pub open spec fn unquoted(v: Seq<char>) -> Seq<char> {
    if v.len() >= 2 && v[0] == '"' && v.last() == '"' {
        v.subrange(1, v.len() - 1)
    } else {
        v
    }
}

/// The setting that a line of a config file makes, if it makes one.
pub open spec fn setting_of(line: Seq<char>) -> Option<(Seq<char>, Seq<char>)> {
    let l = trim(line);
    if l.len() == 0 || l[0] == '#' {
        None
    } else {
        match split_once(l, '=') {
            Some(p) => if trim(p.0).len() > 0 {
                Some((trim(p.0), unquoted(trim(p.1))))
            } else {
                None
            },
            None => None,
        }
    }
}

/// The settings of a config file.
pub open spec fn config_map(s: Seq<char>) -> Map<Seq<char>, Seq<char>> {
    collect(split(s, '\n').map_values(|l: Seq<char>| setting_of(l)))
}

fn unquote(v: &str) -> (r: String)
    ensures
        r@ == unquoted(v@),
{
    let cs = chars_of(v);
    let n = cs.len();
    if n >= 2 && cs[0] == '"' && cs[n - 1] == '"' {
        string_of(&cs, 1, n - 1)
    } else {
        v.to_owned()
    }
}

fn parse_setting(line: &str) -> (r: Option<(String, String)>)
    ensures
        match r {
            Some(p) => setting_of(line@) == Some((p.0@, p.1@)),
            None => setting_of(line@) is None,
        },
{
    let line = trim_str(line);
    let cs = chars_of(line.as_str());
    if cs.len() == 0 || cs[0] == '#' {
        return None;
    }
    match split_once_str(line.as_str(), '=') {
        Some(p) => {
            let k = trim_str(p.0.as_str());
            if k.as_str().is_empty() {
                return None;
            }
            let v = trim_str(p.1.as_str());
            Some((k, unquote(v.as_str())))
        },
        None => None,
    }
}

/// Parses a `KEY=VALUE` config file. Lines starting with `#` and blank
/// lines are skipped. Keys with no `=` are skipped. Surrounding double
/// quotes around the value (`KEY="value"`) are stripped. Whitespace
/// around the key and around the value (outside the quotes) is trimmed.
pub fn parse_config(s: &str) -> (r: StringHashMap<String>)
    ensures
        string_map(r) == config_map(s@),
{
    let lines = split_on(s, '\n');
    let ghost entries = split(s@, '\n').map_values(|l: Seq<char>| setting_of(l));
    let mut out: StringHashMap<String> = StringHashMap::new();
    let mut i: usize = 0;
    proof {
        assert(string_map(out) =~= Map::empty());
    }
    while i < lines.len()
        invariant
            i <= lines@.len(),
            views(lines@) == split(s@, '\n'),
            entries == split(s@, '\n').map_values(|l: Seq<char>| setting_of(l)),
            string_map(out) == collect(entries.take(i as int)),
        decreases lines@.len() - i,
    {
        let line = lines[i].as_str();
        proof {
            assert(line@ == views(lines@)[i as int]);
            assert(entries.take(i + 1).drop_last() =~= entries.take(i as int));
            assert(entries.take(i + 1).last() == setting_of(line@));
        }
        let ghost before = out;
        if let Some(p) = parse_setting(line) {
            out.insert(p.0, p.1);
            proof {
                assert(string_map(out) =~= string_map(before).insert(p.0@, p.1@));
            }
        }
        i += 1;
    }
    proof {
        assert(entries.take(i as int) =~= entries);
    }
    out
}

// ---------------------------------------------------------------------------
// Allowed hosts
// ---------------------------------------------------------------------------

/// The parts that hold more than white space, trimmed, in order.
pub open spec fn trimmed_parts(parts: Seq<Seq<char>>) -> Seq<Seq<char>>
    decreases parts.len(),
{
    if parts.len() == 0 {
        Seq::empty()
    } else {
        let head = trimmed_parts(parts.drop_last());
        let last = trim(parts.last());
        if last.len() > 0 {
            head.push(last)
        } else {
            head
        }
    }
}

/// Parses a comma-separated list: white space around entries is trimmed, and
/// empty entries are skipped.
pub fn parse_list(s: &str) -> (r: Vec<String>)
    ensures
        views(r@) == trimmed_parts(split(s@, ',')),
{
    let parts = split_on(s, ',');
    let mut out: Vec<String> = Vec::new();
    let mut i: usize = 0;
    proof {
        assert(views(out@) =~= Seq::empty());
    }
    while i < parts.len()
        invariant
            i <= parts@.len(),
            views(parts@) == split(s@, ','),
            views(out@) == trimmed_parts(split(s@, ',').take(i as int)),
        decreases parts@.len() - i,
    {
        let h = trim_str(parts[i].as_str());
        let ghost before = out@;
        proof {
            let all = split(s@, ',');
            assert(parts@[i as int]@ == views(parts@)[i as int]);
            assert(all.take(i + 1).drop_last() =~= all.take(i as int));
            assert(all.take(i + 1).last() == parts@[i as int]@);
        }
        if !h.as_str().is_empty() {
            out.push(h);
            proof {
                assert(views(out@) =~= views(before).push(h@));
            }
        }
        i += 1;
    }
    proof {
        assert(split(s@, ',').take(i as int) =~= split(s@, ','));
    }
    out
}

/// Parses the allowed hosts, of the form `host,host:port,...`. White space
/// around entries is trimmed; empty entries are skipped.
pub fn parse_allowed_hosts(s: &str) -> (r: Vec<String>)
    ensures
        views(r@) == trimmed_parts(split(s@, ',')),
{
    parse_list(s)
}

/// Every allowed host is trimmed and not empty.
pub proof fn law_hosts_are_trimmed(parts: Seq<Seq<char>>, i: int)
    requires
        0 <= i < trimmed_parts(parts).len(),
    ensures
        trimmed_parts(parts)[i].len() > 0,
        !is_space(trimmed_parts(parts)[i][0]),
        !is_space(trimmed_parts(parts)[i].last()),
    decreases parts.len(),
{
    let head = trimmed_parts(parts.drop_last());
    if i < head.len() {
        law_hosts_are_trimmed(parts.drop_last(), i);
    } else {
        lemma_trimmed(parts.last());
    }
}

// ---------------------------------------------------------------------------
// Aliases
// ---------------------------------------------------------------------------

/// The alias and the label of one entry, if both are there.
pub open spec fn alias_of(pair: Seq<char>) -> Option<(Seq<char>, Seq<char>)> {
    match split_once(trim(pair), ':') {
        Some(p) => if trim(p.0).len() > 0 && trim(p.1).len() > 0 {
            Some((trim(p.0), trim(p.1)))
        } else {
            None
        },
        None => None,
    }
}

/// The aliases of a setting.
pub open spec fn alias_map(s: Seq<char>) -> Map<Seq<char>, Seq<char>> {
    collect(split(s, ',').map_values(|p: Seq<char>| alias_of(p)))
}

fn parse_alias(pair: &str) -> (r: Option<(String, String)>)
    ensures
        match r {
            Some(p) => alias_of(pair@) == Some((p.0@, p.1@)),
            None => alias_of(pair@) is None,
        },
{
    let pair = trim_str(pair);
    match split_once_str(pair.as_str(), ':') {
        Some(p) => {
            let k = trim_str(p.0.as_str());
            let v = trim_str(p.1.as_str());
            if k.as_str().is_empty() || v.as_str().is_empty() {
                None
            } else {
                Some((k, v))
            }
        },
        None => None,
    }
}

/// Parses aliases of the form `alias:real,alias2:real2`. White space around
/// entries and around the colon is trimmed. Empty pairs and malformed entries
/// (no colon, empty side) are skipped silently.
pub fn parse_aliases(s: &str) -> (r: StringHashMap<String>)
    ensures
        string_map(r) == alias_map(s@),
{
    let parts = split_on(s, ',');
    let ghost entries = split(s@, ',').map_values(|p: Seq<char>| alias_of(p));
    let mut out: StringHashMap<String> = StringHashMap::new();
    let mut i: usize = 0;
    proof {
        assert(string_map(out) =~= Map::empty());
    }
    while i < parts.len()
        invariant
            i <= parts@.len(),
            views(parts@) == split(s@, ','),
            entries == split(s@, ',').map_values(|p: Seq<char>| alias_of(p)),
            string_map(out) == collect(entries.take(i as int)),
        decreases parts@.len() - i,
    {
        let part = parts[i].as_str();
        proof {
            assert(part@ == views(parts@)[i as int]);
            assert(entries.take(i + 1).drop_last() =~= entries.take(i as int));
            assert(entries.take(i + 1).last() == alias_of(part@));
        }
        let ghost before = out;
        if let Some(p) = parse_alias(part) {
            out.insert(p.0, p.1);
            proof {
                assert(string_map(out) =~= string_map(before).insert(p.0@, p.1@));
            }
        }
        i += 1;
    }
    proof {
        assert(entries.take(i as int) =~= entries);
    }
    out
}

proof fn lemma_collected(entries: Seq<Option<(Seq<char>, Seq<char>)>>, k: Seq<char>)
    requires
        collect(entries).contains_key(k),
    ensures
        exists|i: int|
            0 <= i < entries.len() && #[trigger] entries[i] == Some((k, collect(entries)[k])),
    decreases entries.len(),
{
    let n = entries.len() - 1;
    if entries.last() is Some && entries.last()->Some_0.0 == k {
        assert(entries[n] == Some((k, collect(entries)[k])));
    } else {
        lemma_collected(entries.drop_last(), k);
        let i = choose|i: int|
            0 <= i < n && #[trigger] entries.drop_last()[i] == Some(
                (k, collect(entries.drop_last())[k]),
            );
        assert(entries[i] == Some((k, collect(entries)[k])));
    }
}

/// No alias is empty, and none stands for an empty label.
pub proof fn law_alias_sides_are_not_empty(s: Seq<char>, k: Seq<char>)
    requires
        alias_map(s).contains_key(k),
    ensures
        k.len() > 0,
        alias_map(s)[k].len() > 0,
{
    lemma_collected(split(s, ',').map_values(|p: Seq<char>| alias_of(p)), k);
}

/// No key of a config file is empty.
pub proof fn law_config_keys_are_not_empty(s: Seq<char>, k: Seq<char>)
    requires
        config_map(s).contains_key(k),
    ensures
        k.len() > 0,
{
    lemma_collected(split(s, '\n').map_values(|l: Seq<char>| setting_of(l)), k);
}

/// Where two entries set one key, the later one counts.
pub proof fn law_later_entry_wins(
    entries: Seq<Option<(Seq<char>, Seq<char>)>>,
    k: Seq<char>,
    v: Seq<char>,
)
    ensures
        collect(entries.push(Some((k, v))))[k] == v,
        collect(entries.push(Some((k, v)))).contains_key(k),
{
    assert(entries.push(Some((k, v))).drop_last() =~= entries);
}

// ---------------------------------------------------------------------------
// Resolution
// ---------------------------------------------------------------------------

/// The entries that pairs of strings make.
pub open spec fn pair_entries(pairs: Seq<(String, String)>) -> Seq<
    Option<(Seq<char>, Seq<char>)>,
> {
    pairs.map_values(|p: (String, String)| Some((p.0@, p.1@)))
}

/// The environment as a map, from its variables.
pub fn environment(pairs: &Vec<(String, String)>) -> (r: StringHashMap<String>)
    ensures
        string_map(r) == collect(pair_entries(pairs@)),
{
    let ghost entries = pair_entries(pairs@);
    let mut out: StringHashMap<String> = StringHashMap::new();
    let mut i: usize = 0;
    proof {
        assert(string_map(out) =~= Map::empty());
    }
    while i < pairs.len()
        invariant
            i <= pairs@.len(),
            entries == pair_entries(pairs@),
            string_map(out) == collect(entries.take(i as int)),
        decreases pairs@.len() - i,
    {
        let ghost before = out;
        out.insert(pairs[i].0.clone(), pairs[i].1.clone());
        proof {
            let p = pairs@[i as int];
            assert(entries.take(i + 1).drop_last() =~= entries.take(i as int));
            assert(entries.take(i + 1).last() == Some((p.0@, p.1@)));
            assert(string_map(out) =~= string_map(before).insert(p.0@, p.1@));
        }
        i += 1;
    }
    proof {
        assert(entries.take(i as int) =~= entries);
    }
    out
}

/// The value of a setting: the environment's, or else the config file's.
pub open spec fn setting(
    env: Map<Seq<char>, Seq<char>>,
    config: Map<Seq<char>, Seq<char>>,
    key: Seq<char>,
) -> Option<Seq<char>> {
    if env.contains_key(key) {
        Some(env[key])
    } else if config.contains_key(key) {
        Some(config[key])
    } else {
        None
    }
}

/// Resolves a config value, preferring the process environment over any value
/// loaded from the config file. Empty environment values are treated as set.
pub fn cfg_var(env: &StringHashMap<String>, config: &StringHashMap<String>, key: &str) -> (r:
    Option<String>)
    ensures
        opt_view(r) == setting(string_map(*env), string_map(*config), key@),
{
    match env.get(key) {
        Some(v) => Some(v.clone()),
        None => match config.get(key) {
            Some(v) => Some(v.clone()),
            None => None,
        },
    }
}

/// The number that decimal digits write.
pub open spec fn digits_value(s: Seq<char>) -> int
    decreases s.len(),
{
    if s.len() == 0 {
        0
    } else {
        digits_value(s.drop_last()) * 10 + (s.last() as int - '0' as int)
    }
}

/// Whether every character is a decimal digit.
pub open spec fn all_digits(s: Seq<char>) -> bool {
    forall|i: int| 0 <= i < s.len() ==> '0' <= #[trigger] s[i] <= '9'
}

/// The digits of a number, without a plus sign before them.
pub open spec fn unsigned_digits(s: Seq<char>) -> Seq<char> {
    if s.len() > 1 && s[0] == '+' {
        s.skip(1)
    } else {
        s
    }
}

/// The port that a text writes, if it writes one.
pub open spec fn port_of(s: Seq<char>) -> Option<u16> {
    let d = unsigned_digits(s);
    if d.len() > 0 && all_digits(d) && digits_value(d) <= u16::MAX {
        Some(digits_value(d) as u16)
    } else {
        None
    }
}

proof fn lemma_digits_value_grows(s: Seq<char>, i: int)
    requires
        all_digits(s),
        0 <= i <= s.len(),
    ensures
        0 <= digits_value(s.take(i)) <= digits_value(s),
    decreases s.len(),
{
    if i == s.len() {
        assert(s.take(i) =~= s);
        if i > 0 {
            lemma_digits_value_grows(s.drop_last(), i - 1);
            assert(s.drop_last().take(i - 1) =~= s.drop_last());
        }
    } else {
        lemma_digits_value_grows(s.drop_last(), i);
        assert(s.drop_last().take(i) =~= s.take(i));
    }
}

fn digit_value(c: char) -> (r: u32)
    requires
        '0' <= c <= '9',
    ensures
        r == c as int - '0' as int,
{
    c as u32 - '0' as u32
}

/// Parses a port number, as `u16::from_str` does: decimal digits, optionally
/// after a plus sign.
pub fn parse_port(s: &str) -> (r: Option<u16>)
    ensures
        r == port_of(s@),
{
    let cs = chars_of(s);
    let start: usize = if cs.len() > 1 && cs[0] == '+' {
        1
    } else {
        0
    };
    let ghost d = unsigned_digits(s@);
    proof {
        assert(cs@.skip(start as int) =~= d);
        assert(d.take(0) =~= Seq::empty());
    }
    if start == cs.len() {
        return None;
    }
    let mut value: u32 = 0;
    let mut i: usize = start;
    while i < cs.len()
        invariant
            start <= i <= cs@.len(),
            cs@.skip(start as int) == d,
            d == unsigned_digits(s@),
            all_digits(d.take(i - start)),
            value == digits_value(d.take(i - start)),
            value <= 65535,
        decreases cs@.len() - i,
    {
        let c = cs[i];
        proof {
            assert(d[i - start] == c);
            assert(d.take(i - start + 1).drop_last() =~= d.take(i - start));
        }
        if !('0' <= c && c <= '9') {
            return None;
        }
        value = value * 10 + digit_value(c);
        proof {
            assert forall|j: int| 0 <= j < i - start + 1 implies '0' <= #[trigger] d.take(
                i - start + 1,
            )[j] <= '9' by {
                if j < i - start {
                    assert(d.take(i - start)[j] == d[j]);
                }
            }
        }
        if value > 65535 {
            proof {
                if all_digits(d) {
                    lemma_digits_value_grows(d, i - start + 1);
                }
            }
            return None;
        }
        i += 1;
    }
    proof {
        assert(d.take(i - start) =~= d);
    }
    Some(value as u16)
}

/// The settings that the salon runs under.
pub struct Settings {
    pub port: u16,
    pub bind: String,
    pub db_path: String,
    pub aliases: StringHashMap<String>,
    pub allowed_hosts: Vec<String>,
}

/// The settings over characters.
#[verifier::ext_equal]
pub struct SettingsView {
    pub port: u16,
    pub bind: Seq<char>,
    pub db_path: Seq<char>,
    pub aliases: Map<Seq<char>, Seq<char>>,
    pub allowed_hosts: Seq<Seq<char>>,
}

impl View for Settings {
    type V = SettingsView;

    open spec fn view(&self) -> SettingsView {
        SettingsView {
            port: self.port,
            bind: self.bind@,
            db_path: self.db_path@,
            aliases: string_map(self.aliases),
            allowed_hosts: views(self.allowed_hosts@),
        }
    }
}

/// A value, or a default.
pub open spec fn value_or(o: Option<Seq<char>>, default: Seq<char>) -> Seq<char> {
    match o {
        Some(v) => v,
        None => default,
    }
}

/// The settings that an environment and a config file make, with the defaults
/// for what neither sets, or sets to no port number.
pub open spec fn settings_of(
    env: Map<Seq<char>, Seq<char>>,
    config: Map<Seq<char>, Seq<char>>,
) -> SettingsView {
    SettingsView {
        port: match setting(env, config, "AGENT_SALON_PORT"@) {
            Some(v) => match port_of(v) {
                Some(p) => p,
                None => 9315,
            },
            None => 9315,
        },
        bind: value_or(setting(env, config, "AGENT_SALON_BIND"@), "0.0.0.0"@),
        db_path: value_or(setting(env, config, "AGENT_SALON_DB"@), "./agent-salon.db"@),
        aliases: match setting(env, config, "AGENT_SALON_ALIASES"@) {
            Some(v) => alias_map(v),
            None => Map::empty(),
        },
        allowed_hosts: match setting(env, config, "AGENT_SALON_ALLOWED_HOSTS"@) {
            Some(v) => trimmed_parts(split(v, ',')),
            None => Seq::empty(),
        },
    }
}

/// Resolves every setting.
pub fn resolve_settings(env: &StringHashMap<String>, config: &StringHashMap<String>) -> (r:
    Settings)
    ensures
        r@ == settings_of(string_map(*env), string_map(*config)),
{
    let port: u16 = match cfg_var(env, config, "AGENT_SALON_PORT") {
        Some(v) => match parse_port(v.as_str()) {
            Some(p) => p,
            None => 9315,
        },
        None => 9315,
    };
    let bind = match cfg_var(env, config, "AGENT_SALON_BIND") {
        Some(v) => v,
        None => "0.0.0.0".to_owned(),
    };
    let db_path = match cfg_var(env, config, "AGENT_SALON_DB") {
        Some(v) => v,
        None => "./agent-salon.db".to_owned(),
    };
    let aliases = match cfg_var(env, config, "AGENT_SALON_ALIASES") {
        Some(v) => parse_aliases(v.as_str()),
        None => StringHashMap::new(),
    };
    let allowed_hosts = match cfg_var(env, config, "AGENT_SALON_ALLOWED_HOSTS") {
        Some(v) => parse_allowed_hosts(v.as_str()),
        None => Vec::new(),
    };
    let r = Settings { port, bind, db_path, aliases, allowed_hosts };
    proof {
        assert(r@ =~= settings_of(string_map(*env), string_map(*config)));
    }
    r
}

/// What the environment sets, no config file changes.
pub proof fn law_environment_wins(
    env: Map<Seq<char>, Seq<char>>,
    config: Map<Seq<char>, Seq<char>>,
    other: Map<Seq<char>, Seq<char>>,
    key: Seq<char>,
)
    requires
        env.contains_key(key),
    ensures
        setting(env, config, key) == setting(env, other, key),
        setting(env, config, key) == Some(env[key]),
{
}

// ---------------------------------------------------------------------------
// What is read
// ---------------------------------------------------------------------------

proof fn lemma_collect_push(
    parts: Seq<Seq<char>>,
    part: Seq<char>,
    entry: spec_fn(Seq<char>) -> Option<(Seq<char>, Seq<char>)>,
)
    ensures
        collect(parts.push(part).map_values(entry)) == match entry(part) {
            Some(e) => collect(parts.map_values(entry)).insert(e.0, e.1),
            None => collect(parts.map_values(entry)),
        },
{
    let all = parts.push(part).map_values(entry);
    assert(all.drop_last() =~= parts.map_values(entry));
    assert(all.last() == entry(part));
}

proof fn lemma_collect_one(
    part: Seq<char>,
    entry: spec_fn(Seq<char>) -> Option<(Seq<char>, Seq<char>)>,
)
    ensures
        collect(seq![part].map_values(entry)) == match entry(part) {
            Some(e) => Map::empty().insert(e.0, e.1),
            None => Map::empty(),
        },
{
    let none: Seq<Seq<char>> = Seq::empty();
    lemma_collect_push(none, part, entry);
    assert(none.push(part) =~= seq![part]);
    assert(none.map_values(entry) =~= Seq::empty());
}

proof fn lemma_last_line(before: Seq<char>, line: Seq<char>)
    requires
        lacks(line, '\n'),
    ensures
        config_map(before + seq!['\n'] + line) == match setting_of(line) {
            Some(e) => config_map(before).insert(e.0, e.1),
            None => config_map(before),
        },
        config_map(line) == match setting_of(line) {
            Some(e) => Map::empty().insert(e.0, e.1),
            None => Map::empty(),
        },
{
    law_split_at_a_separator(before, line, '\n');
    law_split_at_a_separator(line, line, '\n');
    lemma_collect_push(split(before, '\n'), line, |l: Seq<char>| setting_of(l));
    lemma_collect_one(line, |l: Seq<char>| setting_of(l));
}

proof fn lemma_blank_lacks(s: Seq<char>, c: char)
    requires
        is_blank(s),
        !is_space(c),
    ensures
        lacks(s, c),
{
    assert forall|i: int| 0 <= i < s.len() implies #[trigger] s[i] != c by {
        assert(is_space(s[i]));
    }
}

/// A key and a value with a separator between them, and white space around.
pub open spec fn spaced_pair(
    k: Seq<char>,
    sep: char,
    v: Seq<char>,
    w: (Seq<char>, Seq<char>, Seq<char>, Seq<char>),
) -> Seq<char> {
    w.0 + (k + w.1 + seq![sep] + (w.2 + v)) + w.3
}

proof fn lemma_spaced_pair(
    k: Seq<char>,
    sep: char,
    v: Seq<char>,
    w: (Seq<char>, Seq<char>, Seq<char>, Seq<char>),
)
    requires
        is_blank(w.0) && is_blank(w.1) && is_blank(w.2) && is_blank(w.3),
        k.len() > 0 && is_trimmed(k) && lacks(k, sep),
        v.len() > 0 && is_trimmed(v),
        !is_space(sep),
    ensures
        trim(spaced_pair(k, sep, v, w)) == k + w.1 + seq![sep] + (w.2 + v),
        trim(spaced_pair(k, sep, v, w)).len() > 0,
        trim(spaced_pair(k, sep, v, w))[0] == k[0],
        split_once(trim(spaced_pair(k, sep, v, w)), sep) == Some((k + w.1, w.2 + v)),
        trim(k + w.1) == k,
        trim(w.2 + v) == v,
{
    let inner = k + w.1 + seq![sep] + (w.2 + v);
    assert(inner[0] == k[0]);
    assert(inner.last() == v.last());
    law_trim_takes_the_ends(w.0, inner, w.3);
    lemma_blank_lacks(w.1, sep);
    assert forall|i: int| 0 <= i < (k + w.1).len() implies #[trigger] (k + w.1)[i] != sep by {
        if i >= k.len() {
            assert((k + w.1)[i] == w.1[i - k.len()]);
        } else {
            assert((k + w.1)[i] == k[i]);
        }
    }
    law_parts_are_found(k + w.1, w.2 + v, sep);
    let none: Seq<char> = Seq::empty();
    law_trim_takes_the_ends(none, k, w.1);
    assert(none + k + w.1 =~= k + w.1);
    law_trim_takes_the_ends(w.2, v, none);
    assert(w.2 + v + none =~= w.2 + v);
}

/// A line `KEY=VALUE` sets its key to its value, whatever stands in the lines
/// before it and however much white space stands around the two; double quotes
/// around the value are taken away.
pub proof fn law_a_line_sets_its_key(
    before: Seq<char>,
    k: Seq<char>,
    v: Seq<char>,
    w: (Seq<char>, Seq<char>, Seq<char>, Seq<char>),
)
    requires
        is_blank(w.0) && is_blank(w.1) && is_blank(w.2) && is_blank(w.3),
        k.len() > 0 && is_trimmed(k) && lacks(k, '=') && k[0] != '#',
        v.len() > 0 && is_trimmed(v) && !(v.len() >= 2 && v[0] == '"' && v.last() == '"'),
        lacks(spaced_pair(k, '=', v, w), '\n'),
        lacks(spaced_pair(k, '=', seq!['"'] + v + seq!['"'], w), '\n'),
    ensures
        config_map(before + seq!['\n'] + spaced_pair(k, '=', v, w)) == config_map(before).insert(
            k,
            v,
        ),
        config_map(before + seq!['\n'] + spaced_pair(k, '=', seq!['"'] + v + seq!['"'], w))
            == config_map(before).insert(k, v),
        config_map(spaced_pair(k, '=', v, w)) == Map::<Seq<char>, Seq<char>>::empty().insert(k, v),
{
    let quoted = seq!['"'] + v + seq!['"'];
    assert(quoted[0] == '"');
    assert(quoted.last() == '"');
    assert(quoted.subrange(1, quoted.len() - 1) =~= v);
    lemma_last_line(before, spaced_pair(k, '=', v, w));
    lemma_last_line(before, spaced_pair(k, '=', quoted, w));
    lemma_spaced_pair(k, '=', v, w);
    lemma_spaced_pair(k, '=', quoted, w);
}

/// A blank line, a comment and a line without `=` or without a key set nothing.
pub proof fn law_other_lines_set_nothing(before: Seq<char>, line: Seq<char>)
    requires
        lacks(line, '\n'),
        is_blank(line) || (trim(line).len() > 0 && trim(line)[0] == '#') || lacks(line, '=') || (
        exists|i: int|
            0 <= i < line.len() && #[trigger] line[i] == '=' && is_blank(line.take(i))),
    ensures
        config_map(before + seq!['\n'] + line) == config_map(before),
{
    lemma_last_line(before, line);
    law_trim_leaves_the_rest(line);
    let t = trim(line);
    let (a, b) = choose|a: Seq<char>, b: Seq<char>|
        #![trigger is_blank(a), is_blank(b)]
        is_blank(a) && is_blank(b) && line == a + t + b;
    let none: Seq<char> = Seq::empty();
    if is_blank(line) {
        law_trim_takes_the_ends(line, none, none);
        assert(line + none + none =~= line);
    } else if t.len() > 0 && t[0] == '#' {
    } else if lacks(line, '=') {
        assert forall|i: int| 0 <= i < t.len() implies #[trigger] t[i] != '=' by {
            assert(line[a.len() + i] == t[i]);
        }
        law_parted_at_the_first_separator(t, '=');
        if let Some(p) = split_once(t, '=') {
            assert(t[p.0.len() as int] == '=');
        }
    } else {
        let i = choose|i: int|
            0 <= i < line.len() && #[trigger] line[i] == '=' && is_blank(line.take(i));
        let n = a.len() as int;
        if i < n {
            assert(a[i] == line[i]);
            assert(is_space('='));
        }
        if n < i {
            assert(line.take(i)[n] == line[n]);
            if t.len() > 0 {
                assert(line[n] == t[0]);
            } else {
                assert(line[i] == b[i - n]);
                assert(is_space('='));
            }
        }
        if t.len() > 0 {
            assert(t[0] == line[n]);
            assert(t =~= none + seq!['='] + t.skip(1));
            law_parts_are_found(none, t.skip(1), '=');
            law_trim_takes_the_ends(none, none, none);
            assert(none + none + none =~= none);
        }
    }
}

proof fn lemma_last_alias(before: Seq<char>, pair: Seq<char>)
    requires
        lacks(pair, ','),
    ensures
        alias_map(before + seq![','] + pair) == match alias_of(pair) {
            Some(e) => alias_map(before).insert(e.0, e.1),
            None => alias_map(before),
        },
        alias_map(pair) == match alias_of(pair) {
            Some(e) => Map::empty().insert(e.0, e.1),
            None => Map::empty(),
        },
{
    law_split_at_a_separator(before, pair, ',');
    law_split_at_a_separator(pair, pair, ',');
    lemma_collect_push(split(before, ','), pair, |p: Seq<char>| alias_of(p));
    lemma_collect_one(pair, |p: Seq<char>| alias_of(p));
}

/// An entry `alias:label` makes the alias stand for the label, whatever entries
/// come before it and however much white space stands around the two.
pub proof fn law_an_entry_makes_an_alias(
    before: Seq<char>,
    k: Seq<char>,
    v: Seq<char>,
    w: (Seq<char>, Seq<char>, Seq<char>, Seq<char>),
)
    requires
        is_blank(w.0) && is_blank(w.1) && is_blank(w.2) && is_blank(w.3),
        k.len() > 0 && is_trimmed(k) && lacks(k, ':'),
        v.len() > 0 && is_trimmed(v),
        lacks(spaced_pair(k, ':', v, w), ','),
    ensures
        alias_map(before + seq![','] + spaced_pair(k, ':', v, w)) == alias_map(before).insert(k, v),
        alias_map(spaced_pair(k, ':', v, w)) == Map::<Seq<char>, Seq<char>>::empty().insert(k, v),
{
    lemma_last_alias(before, spaced_pair(k, ':', v, w));
    lemma_spaced_pair(k, ':', v, w);
}

/// An entry without a colon, or with nothing on one side of its first colon,
/// makes no alias.
pub proof fn law_other_entries_make_none(before: Seq<char>, a: Seq<char>, b: Seq<char>)
    requires
        lacks(a + seq![':'] + b, ','),
        lacks(a, ':'),
        is_blank(a) || is_blank(b),
    ensures
        alias_map(before + seq![','] + a) == alias_map(before),
        alias_map(before + seq![','] + (a + seq![':'] + b)) == alias_map(before),
{
    let none: Seq<char> = Seq::empty();
    let pair = a + seq![':'] + b;
    assert forall|i: int| 0 <= i < a.len() implies #[trigger] a[i] != ',' by {
        assert(pair[i] == a[i]);
    }
    lemma_last_alias(before, a);
    lemma_last_alias(before, pair);
    lemma_no_alias_without_colon(a);
    law_trim_leaves_the_rest(a);
    law_trim_leaves_the_rest(b);
    let ta = trim(a);
    let tb = trim(b);
    let (a1, a2) = choose|x: Seq<char>, y: Seq<char>|
        #![trigger is_blank(x), is_blank(y)]
        is_blank(x) && is_blank(y) && a == x + ta + y;
    let (b1, b2) = choose|x: Seq<char>, y: Seq<char>|
        #![trigger is_blank(x), is_blank(y)]
        is_blank(x) && is_blank(y) && b == x + tb + y;
    if is_blank(a) {
        law_trim_takes_the_ends(a, none, none);
        assert(a + none + none =~= a);
        if is_blank(b) {
            law_trim_takes_the_ends(b, none, none);
            assert(b + none + none =~= b);
            let inner = seq![':'];
            assert(a + inner + b =~= pair);
            law_trim_takes_the_ends(a, inner, b);
            assert(none + seq![':'] + none =~= inner);
            law_parts_are_found(none, none, ':');
        } else {
            let inner = seq![':'] + (b1 + tb);
            assert(tb.len() > 0) by {
                if tb.len() == 0 {
                    assert forall|i: int| 0 <= i < b.len() implies is_space(#[trigger] b[i]) by {
                        if i < b1.len() {
                            assert(b[i] == b1[i]);
                        } else {
                            assert(b[i] == b2[i - b1.len()]);
                        }
                    }
                }
            }
            assert(inner.last() == tb.last());
            assert(a + inner + b2 =~= pair);
            law_trim_takes_the_ends(a, inner, b2);
            assert(none + seq![':'] + (b1 + tb) =~= inner);
            law_parts_are_found(none, b1 + tb, ':');
        }
        law_trim_takes_the_ends(none, none, none);
        assert(none + none + none =~= none);
    } else {
        law_trim_takes_the_ends(b, none, none);
        assert(b + none + none =~= b);
        assert(ta.len() > 0) by {
            if ta.len() == 0 {
                assert forall|i: int| 0 <= i < a.len() implies is_space(#[trigger] a[i]) by {
                    if i < a1.len() {
                        assert(a[i] == a1[i]);
                    } else {
                        assert(a[i] == a2[i - a1.len()]);
                    }
                }
            }
        }
        let inner = ta + a2 + seq![':'];
        assert(inner[0] == ta[0]);
        assert(a1 + inner + b =~= pair);
        law_trim_takes_the_ends(a1, inner, b);
        assert forall|i: int| 0 <= i < (ta + a2).len() implies #[trigger] (ta + a2)[i] != ':' by {
            assert(a[a1.len() + i] == (ta + a2)[i]);
        }
        assert(ta + a2 + seq![':'] + none =~= inner);
        law_parts_are_found(ta + a2, none, ':');
        law_trim_takes_the_ends(none, none, none);
        assert(none + none + none =~= none);
    }
}

proof fn lemma_no_alias_without_colon(a: Seq<char>)
    requires
        lacks(a, ':'),
    ensures
        alias_of(a) is None,
{
    law_trim_leaves_the_rest(a);
    let t = trim(a);
    let (x, y) = choose|x: Seq<char>, y: Seq<char>|
        #![trigger is_blank(x), is_blank(y)]
        is_blank(x) && is_blank(y) && a == x + t + y;
    law_parted_at_the_first_separator(t, ':');
    if let Some(p) = split_once(t, ':') {
        let i = p.0.len() as int;
        assert(t[i] == ':');
        assert(a[x.len() + i] == t[i]);
    }
}

/// One more entry is one more item of the list, trimmed, unless it is blank.
pub proof fn law_one_more_entry_is_listed(
    before: Seq<char>,
    a: Seq<char>,
    h: Seq<char>,
    b: Seq<char>,
)
    requires
        is_blank(a) && is_blank(b),
        is_trimmed(h),
        lacks(a + h + b, ','),
    ensures
        h.len() > 0 ==> trimmed_parts(split(before + seq![','] + (a + h + b), ','))
            == trimmed_parts(split(before, ',')).push(h),
        h.len() == 0 ==> trimmed_parts(split(before + seq![','] + (a + h + b), ','))
            == trimmed_parts(split(before, ',')),
        h.len() > 0 ==> trimmed_parts(split(a + h + b, ',')) == seq![h],
{
    let part = a + h + b;
    law_split_at_a_separator(before, part, ',');
    law_split_at_a_separator(part, part, ',');
    law_trim_takes_the_ends(a, h, b);
    let all = split(before, ',').push(part);
    assert(all.drop_last() =~= split(before, ','));
    assert(all.last() == part);
    let one = seq![part];
    assert(one.drop_last().len() == 0);
    assert(trimmed_parts(one.drop_last()) =~= Seq::empty());
    assert(one.last() == part);
    assert(trimmed_parts(seq![part]) =~= if h.len() > 0 {
        seq![h]
    } else {
        Seq::empty()
    });
}

/// A number is written in digits that stand for it, with no zero in front unless
/// it is zero; a negative one after a minus sign.
pub proof fn law_decimal_stands_for_the_number(n: nat)
    ensures
        decimal(n).len() > 0,
        all_digits(decimal(n)),
        digits_value(decimal(n)) == n,
        n > 0 ==> decimal(n)[0] != '0',
        decimal_int(n as int) == decimal(n),
        n > 0 ==> decimal_int(-(n as int)) == seq!['-'] + decimal(n),
    decreases n,
{
    if n < 10 {
        let s = decimal(n);
        assert(s.drop_last() =~= Seq::empty());
        assert(digits_value(s.drop_last()) == 0);
    } else {
        law_decimal_stands_for_the_number((n / 10) as nat);
        let s = decimal(n);
        assert(s.drop_last() =~= decimal((n / 10) as nat));
        assert(s.last() as int - '0' as int == n % 10);
    }
}

/// A port is read from its decimal digits, with or without a plus sign, and
/// from nothing that is too large, empty, or holds anything else.
pub proof fn law_ports_are_read(n: nat, s: Seq<char>)
    ensures
        n <= 65535 ==> port_of(decimal(n)) == Some(n as u16),
        n <= 65535 ==> port_of(seq!['+'] + decimal(n)) == Some(n as u16),
        n > 65535 ==> port_of(decimal(n)) is None,
        s.len() == 0 ==> port_of(s) is None,
        (exists|i: int| 0 < i < s.len() && !('0' <= #[trigger] s[i] <= '9')) ==> port_of(
            s,
        ) is None,
        s.len() > 0 && s[0] != '+' && !('0' <= s[0] <= '9') ==> port_of(s) is None,
{
    law_decimal_stands_for_the_number(n);
    let d = decimal(n);
    assert('0' <= d[0] <= '9');
    let plus = seq!['+'] + d;
    assert(plus.skip(1) =~= d);
    if exists|i: int| 0 < i < s.len() && !('0' <= #[trigger] s[i] <= '9') {
        let i = choose|i: int| 0 < i < s.len() && !('0' <= #[trigger] s[i] <= '9');
        if s[0] == '+' {
            assert(s.skip(1)[i - 1] == s[i]);
        }
    }
}

/// Each setting is made from the environment's text where the environment holds
/// its variable, whatever the config file says; else from the config file's
/// text, where that sets it; else it is the default.
pub proof fn law_each_setting_has_its_source(
    env: Map<Seq<char>, Seq<char>>,
    config: Map<Seq<char>, Seq<char>>,
)
    ensures
        settings_of(env, config).aliases == if env.contains_key("AGENT_SALON_ALIASES"@) {
            alias_map(env["AGENT_SALON_ALIASES"@])
        } else if config.contains_key("AGENT_SALON_ALIASES"@) {
            alias_map(config["AGENT_SALON_ALIASES"@])
        } else {
            Map::empty()
        },
        settings_of(env, config).allowed_hosts == if env.contains_key(
            "AGENT_SALON_ALLOWED_HOSTS"@,
        ) {
            trimmed_parts(split(env["AGENT_SALON_ALLOWED_HOSTS"@], ','))
        } else if config.contains_key("AGENT_SALON_ALLOWED_HOSTS"@) {
            trimmed_parts(split(config["AGENT_SALON_ALLOWED_HOSTS"@], ','))
        } else {
            Seq::empty()
        },
        settings_of(env, config).bind == if env.contains_key("AGENT_SALON_BIND"@) {
            env["AGENT_SALON_BIND"@]
        } else if config.contains_key("AGENT_SALON_BIND"@) {
            config["AGENT_SALON_BIND"@]
        } else {
            "0.0.0.0"@
        },
        settings_of(env, config).db_path == if env.contains_key("AGENT_SALON_DB"@) {
            env["AGENT_SALON_DB"@]
        } else if config.contains_key("AGENT_SALON_DB"@) {
            config["AGENT_SALON_DB"@]
        } else {
            "./agent-salon.db"@
        },
        env.contains_key("AGENT_SALON_PORT"@) && port_of(env["AGENT_SALON_PORT"@]) is Some
            ==> Some(settings_of(env, config).port) == port_of(env["AGENT_SALON_PORT"@]),
        env.contains_key("AGENT_SALON_PORT"@) && port_of(env["AGENT_SALON_PORT"@]) is None
            ==> settings_of(env, config).port == 9315,
        !env.contains_key("AGENT_SALON_PORT"@) && config.contains_key("AGENT_SALON_PORT"@)
            && port_of(config["AGENT_SALON_PORT"@]) is Some ==> Some(
            settings_of(env, config).port,
        ) == port_of(config["AGENT_SALON_PORT"@]),
        !env.contains_key("AGENT_SALON_PORT"@) && config.contains_key("AGENT_SALON_PORT"@)
            && port_of(config["AGENT_SALON_PORT"@]) is None ==> settings_of(env, config).port
            == 9315,
        !env.contains_key("AGENT_SALON_PORT"@) && !config.contains_key("AGENT_SALON_PORT"@)
            ==> settings_of(env, config).port == 9315,
{
}

/// What one variable holds changes no setting but its own: two environments that
/// agree on a variable, with config files that agree on it, give one value.
pub proof fn law_settings_are_independent(
    a: Map<Seq<char>, Seq<char>>,
    b: Map<Seq<char>, Seq<char>>,
    c: Map<Seq<char>, Seq<char>>,
    d: Map<Seq<char>, Seq<char>>,
    key: Seq<char>,
)
    requires
        a.contains_key(key) == b.contains_key(key),
        a.contains_key(key) ==> a[key] == b[key],
        c.contains_key(key) == d.contains_key(key),
        c.contains_key(key) ==> c[key] == d[key],
    ensures
        key == "AGENT_SALON_PORT"@ ==> settings_of(a, c).port == settings_of(b, d).port,
        key == "AGENT_SALON_BIND"@ ==> settings_of(a, c).bind == settings_of(b, d).bind,
        key == "AGENT_SALON_DB"@ ==> settings_of(a, c).db_path == settings_of(b, d).db_path,
        key == "AGENT_SALON_ALIASES"@ ==> settings_of(a, c).aliases == settings_of(b, d).aliases,
        key == "AGENT_SALON_ALLOWED_HOSTS"@ ==> settings_of(a, c).allowed_hosts == settings_of(
            b,
            d,
        ).allowed_hosts,
{
}

/// The environment is a map of its variables: the last of one name counts.
pub proof fn law_environment_holds_its_variables(
    entries: Seq<Option<(Seq<char>, Seq<char>)>>,
    k: Seq<char>,
    v: Seq<char>,
)
    ensures
        collect(entries.push(Some((k, v)))) == collect(entries).insert(k, v),
        collect(entries.push(None)) == collect(entries),
        collect(Seq::empty()) == Map::<Seq<char>, Seq<char>>::empty(),
{
    assert(entries.push(Some((k, v))).drop_last() =~= entries);
    assert(entries.push(None).drop_last() =~= entries);
}

/// Every variable of the environment is taken, an empty one too.
pub proof fn law_every_variable_is_taken(pairs: Seq<(String, String)>, p: (String, String))
    ensures
        collect(pair_entries(pairs.push(p))) == collect(pair_entries(pairs)).insert(p.0@, p.1@),
        collect(pair_entries(Seq::empty())) == Map::<Seq<char>, Seq<char>>::empty(),
{
    let all = pair_entries(pairs.push(p));
    assert(all.drop_last() =~= pair_entries(pairs));
    assert(all.last() == Some((p.0@, p.1@)));
    assert(pair_entries(Seq::empty()).len() == 0);
}

/// What stands in double quotes is the value, whatever it is, and nothing after
/// the `=` is an empty value.
pub proof fn law_quotes_hold_the_value(
    before: Seq<char>,
    k: Seq<char>,
    v: Seq<char>,
    w: (Seq<char>, Seq<char>, Seq<char>, Seq<char>),
)
    requires
        is_blank(w.0) && is_blank(w.1) && is_blank(w.2) && is_blank(w.3),
        k.len() > 0 && is_trimmed(k) && lacks(k, '=') && k[0] != '#',
        lacks(spaced_pair(k, '=', seq!['"'] + v + seq!['"'], w), '\n'),
        lacks(w.0 + (k + w.1 + seq!['=']) + w.2, '\n'),
    ensures
        config_map(before + seq!['\n'] + spaced_pair(k, '=', seq!['"'] + v + seq!['"'], w))
            == config_map(before).insert(k, v),
        config_map(before + seq!['\n'] + (w.0 + (k + w.1 + seq!['=']) + w.2)) == config_map(
            before,
        ).insert(k, Seq::empty()),
{
    let quoted = seq!['"'] + v + seq!['"'];
    assert(quoted[0] == '"');
    assert(quoted.last() == '"');
    assert(quoted.subrange(1, quoted.len() - 1) =~= v);
    lemma_last_line(before, spaced_pair(k, '=', quoted, w));
    lemma_spaced_pair(k, '=', quoted, w);
    let none: Seq<char> = Seq::empty();
    let inner = k + w.1 + seq!['='];
    lemma_last_line(before, w.0 + inner + w.2);
    assert(inner[0] == k[0]);
    assert(inner.last() == '=');
    law_trim_takes_the_ends(w.0, inner, w.2);
    lemma_spaced_pair(k, '=', quoted, w);
    assert(lacks(k + w.1, '=')) by {
        lemma_blank_lacks(w.1, '=');
    }
    law_parts_are_found(k + w.1, none, '=');
    assert(inner + none =~= inner);
    law_trim_takes_the_ends(none, none, none);
    assert(none + none + none =~= none);
}

} // verus!
