//! Project configuration: `landed.toml` at the crate root.
//!
//! Entry points are the hardest part of reachability, and no heuristic gets
//! them right everywhere: a task that is spawned, a handler in a registry and
//! a callback in a field each break the chain from `main`. So the developer
//! may say what production means:
//!
//! ```toml
//! # landed.toml
//! roots  = ["handle_webhook", "daemon_process_*"]
//! ignore = ["generated_*", "legacy_shim"]
//! ```

use vstd::prelude::*;

use crate::text::chars_of;
use crate::text::copy_all;
use crate::text::same;
use crate::text::texts;

verus! {

// ---------------------------------------------------------------------------
// Patterns
// ---------------------------------------------------------------------------

/// `name` fits `pattern`, in which `*` stands for any text, also the empty
/// one, and every other character for itself.
pub open spec fn glob(pattern: Seq<char>, name: Seq<char>) -> bool
    decreases pattern.len(), name.len(),
{
    if pattern.len() == 0 {
        name.len() == 0
    } else if pattern[0] == '*' {
        glob(pattern.skip(1), name) || (name.len() > 0 && glob(pattern, name.skip(1)))
    } else {
        name.len() > 0 && name[0] == pattern[0] && glob(pattern.skip(1), name.skip(1))
    }
}

/// A star in front fits exactly where some part of the name can be left to it.
pub proof fn star_takes_any_text(pattern: Seq<char>, name: Seq<char>)
    requires
        pattern.len() > 0,
        pattern[0] == '*',
    ensures
        glob(pattern, name) == exists|k: int|
            0 <= k <= name.len() && #[trigger] glob(pattern.skip(1), name.skip(k)),
    decreases name.len(),
{
    let rest = pattern.skip(1);
    assert(name.skip(0) =~= name);
    if glob(rest, name) {
        assert(glob(rest, name.skip(0)));
    }
    if name.len() > 0 {
        let t = name.skip(1);
        star_takes_any_text(pattern, t);
        if glob(pattern, t) {
            let k = choose|k: int| 0 <= k <= t.len() && #[trigger] glob(rest, t.skip(k));
            assert(t.skip(k) =~= name.skip(k + 1));
            assert(glob(rest, name.skip(k + 1)));
        }
        if !glob(rest, name) && exists|k: int|
            0 <= k <= name.len() && #[trigger] glob(rest, name.skip(k)) {
            let k = choose|k: int| 0 <= k <= name.len() && #[trigger] glob(rest, name.skip(k));
            assert(t.skip(k - 1) =~= name.skip(k));
            assert(glob(rest, t.skip(k - 1)));
        }
    }
}

/// Whether `name` fits `pattern`, in which only `*` is special. The work is
/// the product of the two lengths, whatever the pattern.
pub fn matches(pattern: &str, name: &str) -> (r: bool)
    ensures
        r == glob(pattern@, name@),
{
    let p = chars_of(pattern);
    let s = chars_of(name);
    let n: usize = s.len();
    // row[j] says whether the rest of the name from j fits the rest of the
    // pattern.
    let mut row: Vec<bool> = Vec::new();
    let mut j: usize = 0;
    proof {
        assert(p@.skip(p@.len() as int) =~= Seq::<char>::empty());
    }
    while j < n
        invariant
            0 <= j <= n,
            n == s@.len(),
            row@.len() == j,
            p@.skip(p@.len() as int).len() == 0,
            forall|k: int|
                0 <= k < j ==> #[trigger] row@[k] == glob(p@.skip(p@.len() as int), s@.skip(k)),
        decreases n - j,
    {
        row.push(false);
        j += 1;
    }
    row.push(true);
    let mut i: usize = p.len();
    while i > 0
        invariant
            0 <= i <= p@.len(),
            n == s@.len(),
            row@.len() == n + 1,
            forall|k: int|
                0 <= k <= n ==> #[trigger] row@[k] == glob(p@.skip(i as int), s@.skip(k)),
        decreases i,
    {
        let c = p[i - 1];
        let ghost pat = p@.skip(i - 1);
        proof {
            assert(pat[0] == c);
            assert(pat.skip(1) =~= p@.skip(i as int));
        }
        let mut next: Vec<bool> = row.clone();
        proof {
            assert(next@ =~= row@);
        }
        let mut k: usize = n + 1;
        while k > 0
            invariant
                0 <= k <= n + 1,
                n == s@.len(),
                row@.len() == n + 1,
                next@.len() == n + 1,
                pat.len() > 0,
                pat[0] == c,
                forall|x: int| 0 <= x <= n ==> #[trigger] row@[x] == glob(pat.skip(1), s@.skip(x)),
                forall|x: int| k <= x <= n ==> #[trigger] next@[x] == glob(pat, s@.skip(x)),
            decreases k,
        {
            k -= 1;
            let fits: bool = if c == '*' {
                proof {
                    if k < n {
                        assert(s@.skip(k as int).skip(1) =~= s@.skip(k + 1));
                    }
                }
                row[k] || (k < n && next[k + 1])
            } else {
                proof {
                    if k < n {
                        assert(s@.skip(k as int)[0] == s@[k as int]);
                        assert(s@.skip(k as int).skip(1) =~= s@.skip(k + 1));
                    }
                }
                k < n && s[k] == c && row[k + 1]
            };
            next.set(k, fits);
        }
        row = next;
        i -= 1;
    }
    proof {
        assert(p@.skip(0) =~= p@);
        assert(s@.skip(0) =~= s@);
    }
    row[0]
}

/// A pattern without a star fits itself alone.
pub proof fn plain_pattern_is_itself(pattern: Seq<char>, name: Seq<char>)
    requires
        !pattern.contains('*'),
    ensures
        glob(pattern, name) == (pattern == name),
    decreases pattern.len(),
{
    if pattern.len() > 0 {
        assert(pattern.contains(pattern[0]));
        let rest = pattern.skip(1);
        assert forall|i: int| 0 <= i < rest.len() implies rest[i] != '*' by {
            assert(pattern.contains(pattern[i + 1]));
        }
        if name.len() > 0 {
            plain_pattern_is_itself(rest, name.skip(1));
            if rest == name.skip(1) && pattern[0] == name[0] {
                assert(pattern =~= seq![pattern[0]] + rest);
                assert(name =~= seq![name[0]] + name.skip(1));
            }
        }
    } else {
        assert(pattern =~= name || name.len() > 0);
    }
}

/// A lone star fits everything.
pub proof fn star_fits_all(name: Seq<char>)
    ensures
        glob(seq!['*'], name),
{
    let p = seq!['*'];
    star_takes_any_text(p, name);
    assert(glob(p.skip(1), name.skip(name.len() as int)));
}

// ---------------------------------------------------------------------------
// The configuration
// ---------------------------------------------------------------------------

/// What a configuration says.
#[verifier::ext_equal]
pub struct ConfigView {
    pub roots: Seq<Seq<char>>,
    pub ignore: Seq<Seq<char>>,
}

/// `name` fits one of `patterns`.
pub open spec fn any_fits(patterns: Seq<Seq<char>>, name: Seq<char>) -> bool {
    exists|i: int| 0 <= i < patterns.len() && glob(#[trigger] patterns[i], name)
}

#[derive(Debug, Clone)]
pub struct Config {
    /// Extra production entry points; all that they reach is live. Patterns
    /// may use `*`.
    pub roots: Vec<String>,
    /// Never reported, whatever the analysis concludes.
    pub ignore: Vec<String>,
}

impl View for Config {
    type V = ConfigView;

    open spec fn view(&self) -> ConfigView {
        ConfigView { roots: texts(self.roots@), ignore: texts(self.ignore@) }
    }
}

impl Default for Config {
    fn default() -> (r: Self)
        ensures
            r@ == (ConfigView { roots: seq![], ignore: seq![] }),
    {
        let r = Config { roots: Vec::new(), ignore: Vec::new() };
        assert(r@ =~= (ConfigView { roots: seq![], ignore: seq![] }));
        r
    }
}

/// Why a configuration was refused.
#[derive(Debug)]
pub enum ConfigError {
    /// Not a table of lists of strings; holds what the parser said.
    Malformed(String),
    /// A key that means nothing here.
    UnknownKey(String),
}

fn any_matches(patterns: &Vec<String>, name: &str) -> (r: bool)
    ensures
        r == any_fits(texts(patterns@), name@),
{
    let mut i: usize = 0;
    while i < patterns.len()
        invariant
            0 <= i <= patterns@.len(),
            forall|k: int| 0 <= k < i ==> !glob(#[trigger] texts(patterns@)[k], name@),
        decreases patterns@.len() - i,
    {
        if matches(patterns[i].as_str(), name) {
            assert(glob(texts(patterns@)[i as int], name@));
            return true;
        }
        i += 1;
    }
    false
}

/// What `toml::from_str` reads out of a text as a table of lists of strings:
/// the keys in order, each with its list, or what it says of a text that is no
/// such table.
pub uninterp spec fn toml_lists(text: Seq<char>) -> Result<
    Seq<(Seq<char>, Seq<Seq<char>>)>,
    Seq<char>,
>;

/// The model of a table of lists.
pub open spec fn lists_view(v: Seq<(String, Vec<String>)>) -> Seq<(Seq<char>, Seq<Seq<char>>)> {
    v.map_values(|e: (String, Vec<String>)| (e.0@, texts(e.1@)))
}

/// Calls `toml::from_str` for a map from strings to lists of strings: what it
/// gives back, and what `Error::to_string` says where it fails, is a function
/// of the text.
#[verifier::external_body]
fn read_lists(text: &str) -> (r: Result<Vec<(String, Vec<String>)>, String>)
    ensures
        match r {
            Ok(v) => toml_lists(text@) == Ok::<Seq<(Seq<char>, Seq<Seq<char>>)>, Seq<char>>(
                lists_view(v@),
            ),
            Err(m) => toml_lists(text@) == Err::<Seq<(Seq<char>, Seq<Seq<char>>)>, Seq<char>>(m@),
        },
{
    match toml::from_str::<std::collections::BTreeMap<String, Vec<String>>>(text) {
        Ok(table) => Ok(table.into_iter().collect()),
        Err(e) => Err(e.to_string()),
    }
}

/// The list under the last `key` in a table, or the empty list.
pub open spec fn list_under(table: Seq<(Seq<char>, Seq<Seq<char>>)>, key: Seq<char>) -> Seq<
    Seq<char>,
>
    decreases table.len(),
{
    if table.len() == 0 {
        seq![]
    } else if table.last().0 == key {
        table.last().1
    } else {
        list_under(table.drop_last(), key)
    }
}

/// The key means something here.
pub open spec fn known_key(key: Seq<char>) -> bool {
    key == "roots"@ || key == "ignore"@
}

/// The first key of a table that means nothing here.
pub open spec fn stray_key(table: Seq<(Seq<char>, Seq<Seq<char>>)>) -> Option<Seq<char>>
    decreases table.len(),
{
    if table.len() == 0 {
        None
    } else {
        match stray_key(table.drop_last()) {
            Some(key) => Some(key),
            None => if known_key(table.last().0) {
                None
            } else {
                Some(table.last().0)
            },
        }
    }
}

/// `r` is what a table configures: its two lists, or its first stray key.
pub open spec fn configured(
    table: Seq<(Seq<char>, Seq<Seq<char>>)>,
    r: Result<Config, ConfigError>,
) -> bool {
    match stray_key(table) {
        None => r matches Ok(c) && c@ == (ConfigView {
            roots: list_under(table, "roots"@),
            ignore: list_under(table, "ignore"@),
        }),
        Some(key) => r matches Err(ConfigError::UnknownKey(k)) && k@ == key,
    }
}

/// `r` is what the nearer of two texts configures, and nothing where there is
/// neither.
pub open spec fn nearer_configures(
    here: Option<Seq<char>>,
    above: Option<Seq<char>>,
    r: Result<Config, ConfigError>,
) -> bool {
    match (here, above) {
        (Some(text), _) => configured_by(text, r),
        (None, Some(text)) => configured_by(text, r),
        (None, None) => r matches Ok(c) && c@ == (ConfigView { roots: seq![], ignore: seq![] }),
    }
}

/// The text that was handed on, where there is one.
pub open spec fn handed(s: Option<&str>) -> Option<Seq<char>> {
    match s {
        Some(t) => Some(t@),
        None => None,
    }
}

/// `r` is what the text of a `landed.toml` configures.
pub open spec fn configured_by(text: Seq<char>, r: Result<Config, ConfigError>) -> bool {
    match toml_lists(text) {
        Err(why) => r matches Err(ConfigError::Malformed(m)) && m@ == why,
        Ok(table) => configured(table, r),
    }
}

proof fn stray_stays(table: Seq<(Seq<char>, Seq<Seq<char>>)>, n: int)
    requires
        0 <= n <= table.len(),
        stray_key(table.take(n)) is Some,
    ensures
        stray_key(table) == stray_key(table.take(n)),
    decreases table.len(),
{
    if n < table.len() {
        assert(table.drop_last().take(n) =~= table.take(n));
        stray_stays(table.drop_last(), n);
    } else {
        assert(table.take(n) =~= table);
    }
}

impl Config {
    /// The configuration in the text of `landed.toml`. An unknown key is
    /// refused: one that is silently accepted appears to work and does
    /// nothing.
    pub fn parse(text: &str) -> (r: Result<Self, ConfigError>)
        ensures
            configured_by(text@, r),
    {
        match read_lists(text) {
            Ok(table) => Config::of_lists(&table),
            Err(message) => Err(ConfigError::Malformed(message)),
        }
    }

    /// The configuration in a table of lists.
    pub fn of_lists(table: &Vec<(String, Vec<String>)>) -> (r: Result<Self, ConfigError>)
        ensures
            configured(lists_view(table@), r),
    {
        let ghost all = lists_view(table@);
        let mut c = Config::default();
        let mut i: usize = 0;
        while i < table.len()
            invariant
                0 <= i <= table@.len(),
                all == lists_view(table@),
                stray_key(all.take(i as int)) is None,
                c@.roots == list_under(all.take(i as int), "roots"@),
                c@.ignore == list_under(all.take(i as int), "ignore"@),
            decreases table@.len() - i,
        {
            let key = table[i].0.as_str();
            proof {
                assert(all[i as int] == (table@[i as int].0@, texts(table@[i as int].1@)));
                assert(all.take(i + 1).drop_last() =~= all.take(i as int));
                reveal_strlit("roots");
                reveal_strlit("ignore");
                assert("roots"@.len() != "ignore"@.len());
                assert(all.take(i + 1).last() == all[i as int]);
            }
            if same(key, "roots") {
                c.roots = copy_all(&table[i].1);
            } else if same(key, "ignore") {
                c.ignore = copy_all(&table[i].1);
            } else {
                proof {
                    stray_stays(all, i + 1);
                }
                return Err(ConfigError::UnknownKey(table[i].0.clone()));
            }
            i += 1;
        }
        assert(all.take(all.len() as int) =~= all);
        Ok(c)
    }

    /// The configuration of a directory, given the text of the `landed.toml`
    /// in it and of the one in the directory above, where they exist: the
    /// nearer one counts. That there is none is the norm.
    pub fn load(here: Option<&str>, above: Option<&str>) -> (r: Result<Self, ConfigError>)
        ensures
            nearer_configures(handed(here), handed(above), r),
            match (here, above) {
                (Some(text), _) => configured_by(text@, r),
                (None, Some(text)) => configured_by(text@, r),
                (None, None) => r matches Ok(c) && c@ == (ConfigView {
                    roots: seq![],
                    ignore: seq![],
                }),
            },
    {
        match (here, above) {
            (Some(text), _) => Config::parse(text),
            (None, Some(text)) => Config::parse(text),
            (None, None) => Ok(Config::default()),
        }
    }

    pub fn is_root(&self, name: &str) -> (r: bool)
        ensures
            r == any_fits(self@.roots, name@),
    {
        any_matches(&self.roots, name)
    }

    pub fn is_ignored(&self, name: &str) -> (r: bool)
        ensures
            r == any_fits(self@.ignore, name@),
    {
        any_matches(&self.ignore, name)
    }

    pub fn is_empty(&self) -> (r: bool)
        ensures
            r == (self@.roots.len() == 0 && self@.ignore.len() == 0),
    {
        self.roots.len() == 0 && self.ignore.len() == 0
    }
}

} // verus!
