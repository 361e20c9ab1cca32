//! Baselines: adopt the tool without fixing the backlog first.
//!
//! A baseline records what was already there, so that a gate can stop at new
//! unreachable code while the backlog is dealt with apart from it, or never.

use vstd::prelude::*;

use crate::calendar::moment;
use crate::calendar::moment_of;
use crate::config::Config;
use crate::config::ConfigView;
use crate::findings::directly_dead;
use crate::findings::never_run;
use crate::findings::never_run_graph;
use crate::findings::unreachable_code;
use crate::findings::FindingView;
use crate::frontend::mir_dump::crate_dir;
use crate::frontend::mir_dump::manifest_dir;
use crate::ir::views;
use crate::number::decimal;
use crate::number::padded;
use crate::number::padded_of;
use crate::order::arrange;
use crate::order::arranged;
use crate::order::keyed;
use crate::order::less;
use crate::order::rising;
use crate::order::sorted_unique;
use crate::order::text_less;
use crate::order::texts_less;
use crate::order::Keyed;
use crate::order::Precedence;
use crate::paths::under;
use crate::scan::Scan;
use crate::scan::ScanView;
use crate::seqs::filter_step;
use crate::text::chars_of;
use crate::text::cut_last;
use crate::text::cut_last_once;
use crate::text::drop_prefixes;
use crate::text::join;
use crate::text::join_strings;
use crate::text::no_prefixes;
use crate::text::same;
use crate::text::string_of;
use crate::text::strip_prefix;
use crate::text::texts;
use crate::text::without_prefix;

verus! {

/// The name of the file, kept next to `Cargo.toml` and committed.
pub const DEFAULT_FILE: &'static str = ".landed-baseline.json";

/// The version of the tool. The rules of the analysis change with it.
pub const VERSION: &'static str = "0.1.0";

/// Which analysis produced a baseline. The two answer different questions, so
/// one is never compared with the other.
#[derive(Debug, Clone, Copy, PartialEq, Eq, Structural)]
pub enum Mode {
    /// Function by function: does a caller outside tests exist?
    Direct,
    /// Reachability from the entry points of production.
    Graph,
}

/// The mode in which an analysis runs.
pub open spec fn mode_of(graph: bool) -> Mode {
    if graph {
        Mode::Graph
    } else {
        Mode::Direct
    }
}

impl Mode {
    pub fn of(graph: bool) -> (r: Self)
        ensures
            r == mode_of(graph),
    {
        if graph {
            Mode::Graph
        } else {
            Mode::Direct
        }
    }

    pub open spec fn word(self) -> Seq<char> {
        match self {
            Mode::Direct => "Direct"@,
            Mode::Graph => "Graph"@,
        }
    }
}

// ---------------------------------------------------------------------------
// Entries
// ---------------------------------------------------------------------------

/// What an entry says.
#[verifier::ext_equal]
pub struct AcceptedView {
    pub name: Seq<char>,
    pub file: Seq<char>,
}

/// One accepted finding, known by name and file and never by line: a finding
/// that moved because something above it grew is the same finding.
#[derive(Debug, Clone, PartialEq, Eq, PartialOrd, Ord)]
pub struct Entry {
    pub name: String,
    /// Relative to the crate root, so that the file serves on every machine.
    pub file: String,
}

impl View for Entry {
    type V = AcceptedView;

    open spec fn view(&self) -> AcceptedView {
        AcceptedView { name: self.name@, file: self.file@ }
    }
}

/// The texts by which entries are ordered: the name, then the file.
pub open spec fn entry_key(e: AcceptedView) -> Seq<Seq<char>> {
    seq![e.name, e.file]
}

/// `a` comes before `b`: by name, then by file.
pub open spec fn entry_less(a: AcceptedView, b: AcceptedView) -> bool {
    text_less(a.name, b.name) || (a.name == b.name && text_less(a.file, b.file))
}

proof fn keys_as_entries(a: AcceptedView, b: AcceptedView)
    ensures
        texts_less(entry_key(a), entry_key(b)) == entry_less(a, b),
        entry_key(a) == entry_key(b) ==> a == b,
{
    reveal_with_fuel(texts_less, 3);
    crate::order::text_less_irreflexive(a.name);
    let x = entry_key(a);
    let y = entry_key(b);
    assert(x.skip(1)[0] == a.file);
    assert(y.skip(1)[0] == b.file);
    assert(x.skip(1).skip(1).len() == 0);
    assert(y.skip(1).skip(1).len() == 0);
    if x == y {
        assert(x[0] == y[0] && x[1] == y[1]);
    }
}

impl Keyed for Entry {
    open spec fn key(&self) -> Seq<Seq<char>> {
        entry_key(self@)
    }

    fn before(&self, other: &Self) -> (r: bool) {
        proof {
            keys_as_entries(self@, other@);
        }
        less(self.name.as_str(), other.name.as_str()) || (same(
            self.name.as_str(),
            other.name.as_str(),
        ) && less(self.file.as_str(), other.file.as_str()))
    }
}

/// Entries by name, then by file.
pub struct ByEntry;

impl Precedence<Entry> for ByEntry {
    open spec fn ahead(&self, a: Entry, b: Entry) -> bool {
        entry_less(a@, b@)
    }

    fn goes_ahead(&self, a: &Entry, b: &Entry) -> (r: bool) {
        proof {
            keys_as_entries(a@, b@);
        }
        a.before(b)
    }
}

impl Entry {
    pub fn copy(&self) -> (r: Self)
        ensures
            r@ == self@,
    {
        Entry { name: self.name.clone(), file: self.file.clone() }
    }

    pub fn is(&self, other: &Self) -> (r: bool)
        ensures
            r == (self@ == other@),
    {
        same(self.name.as_str(), other.name.as_str()) && same(
            self.file.as_str(),
            other.file.as_str(),
        )
    }
}

/// Every entry stands strictly before those behind it.
pub open spec fn entries_rise(s: Seq<AcceptedView>) -> bool {
    forall|i: int, j: int| 0 <= i < j < s.len() ==> entry_less(#[trigger] s[i], #[trigger] s[j])
}

fn holds(list: &Vec<Entry>, e: &Entry) -> (r: bool)
    ensures
        r == views(list@).contains(e@),
{
    let mut i: usize = 0;
    while i < list.len()
        invariant
            0 <= i <= list@.len(),
            forall|k: int| 0 <= k < i ==> (#[trigger] views(list@)[k]) != e@,
        decreases list@.len() - i,
    {
        assert(views(list@)[i as int] == list@[i as int]@);
        if list[i].is(e) {
            return true;
        }
        i += 1;
    }
    false
}

/// The entries in order, each once.
fn ordered(entries: Vec<Entry>) -> (r: Vec<Entry>)
    ensures
        entries_rise(views(r@)),
        rising(r@),
        views(r@).to_set() == views(entries@).to_set(),
{
    let ghost given = entries@;
    let r = sorted_unique(entries);
    proof {
        let s = views(r@);
        let t = views(given);
        assert forall|i: int, j: int| 0 <= i < j < s.len() implies entry_less(
            #[trigger] s[i],
            #[trigger] s[j],
        ) by {
            assert(texts_less(r@[i].key(), r@[j].key()));
            keys_as_entries(s[i], s[j]);
        }
        assert forall|e: AcceptedView| s.to_set().contains(e) == t.to_set().contains(e) by {
            keyed_entries(r@, e);
            keyed_entries(given, e);
            assert(keyed(r@, entry_key(e)) == keyed(given, entry_key(e)));
        }
        assert(s.to_set() =~= t.to_set());
    }
    r
}

proof fn keyed_entries(s: Seq<Entry>, e: AcceptedView)
    ensures
        keyed(s, entry_key(e)) == views(s).contains(e),
{
    if keyed(s, entry_key(e)) {
        let i = choose|i: int| 0 <= i < s.len() && (#[trigger] s[i]).key() == entry_key(e);
        keys_as_entries(s[i]@, e);
        assert(views(s)[i] == e);
    }
    if views(s).contains(e) {
        let i = choose|i: int| 0 <= i < s.len() && views(s)[i] == e;
        assert(s[i].key() == entry_key(e));
    }
}

// ---------------------------------------------------------------------------
// Fingerprints
// ---------------------------------------------------------------------------

/// What a fingerprint says.
#[verifier::ext_equal]
pub struct FingerprintView {
    pub tool_version: Seq<char>,
    pub config_digest: Seq<char>,
}

/// The analysis that produced a baseline. Findings move when the analysis
/// changes, not only when the code does; this lets that be said.
#[derive(Debug, Clone, PartialEq, Eq)]
pub struct Fingerprint {
    pub tool_version: String,
    /// Digest of the declared roots and ignores, in order.
    pub config_digest: String,
}

impl View for Fingerprint {
    type V = FingerprintView;

    open spec fn view(&self) -> FingerprintView {
        FingerprintView { tool_version: self.tool_version@, config_digest: self.config_digest@ }
    }
}

/// What a configuration declares, each with the list that it stands in.
pub open spec fn declarations(c: ConfigView) -> Seq<Seq<char>> {
    c.roots.map_values(|r: Seq<char>| "r:"@ + r) + c.ignore.map_values(
        |i: Seq<char>| "i:"@ + i,
    )
}

/// FNV-1a over bytes, in 64 bits. It tells an accidental mismatch, not a
/// forged one.
pub open spec fn fnv(bytes: Seq<u8>) -> u64
    decreases bytes.len(),
{
    if bytes.len() == 0 {
        0xcbf2_9ce4_8422_2325
    } else {
        (fnv(bytes.drop_last()) ^ (bytes.last() as u64)).wrapping_mul(0x1000_0000_01b3)
    }
}

/// The digest of a text: sixteen hexadecimal digits.
pub open spec fn digested(s: Seq<char>) -> Seq<char> {
    padded(fnv(vstd::utf8::encode_utf8(s)) as nat, 16, 16)
}

/// The order of texts.
pub open spec fn by_text() -> spec_fn(Seq<char>, Seq<char>) -> bool {
    |a: Seq<char>, b: Seq<char>| text_less(a, b)
}

/// The fingerprint of an analysis under a configuration.
pub open spec fn fingerprint(c: ConfigView) -> FingerprintView {
    FingerprintView {
        tool_version: VERSION@,
        config_digest: digested(join(arranged(declarations(c), by_text()), "\n"@)),
    }
}

fn digest(s: &str) -> (r: String)
    ensures
        r@ == digested(s@),
{
    let bytes = s.as_bytes();
    let mut h: u64 = 0xcbf2_9ce4_8422_2325;
    let mut i: usize = 0;
    let len: usize = bytes.len();
    assert(bytes@.take(0) =~= Seq::<u8>::empty());
    while i < len
        invariant
            0 <= i <= len,
            len == bytes@.len(),
            h == fnv(bytes@.take(i as int)),
        decreases len - i,
    {
        proof {
            let t = bytes@.take(i + 1);
            assert(t.drop_last() =~= bytes@.take(i as int));
            assert(t.last() == bytes@[i as int]);
        }
        h = (h ^ (bytes[i] as u64)).wrapping_mul(0x1000_0000_01b3);
        i += 1;
    }
    assert(bytes@.take(len as int) =~= bytes@);
    padded_of(h, 16, 16)
}

/// Texts in order.
pub struct ByText;

impl Precedence<String> for ByText {
    open spec fn ahead(&self, a: String, b: String) -> bool {
        text_less(a@, b@)
    }

    fn goes_ahead(&self, a: &String, b: &String) -> (r: bool) {
        less(a.as_str(), b.as_str())
    }
}

fn add_marked(out: &mut Vec<String>, mark: &str, list: &Vec<String>)
    ensures
        texts(final(out)@) == texts(old(out)@) + texts(list@).map_values(
            |x: Seq<char>| mark@ + x,
        ),
{
    let ghost f = |x: Seq<char>| mark@ + x;
    let ghost all = texts(list@);
    let ghost start = texts(out@);
    let mut i: usize = 0;
    assert(start =~= start + all.take(0).map_values(f));
    while i < list.len()
        invariant
            0 <= i <= list@.len(),
            all == texts(list@),
            f == (|x: Seq<char>| mark@ + x),
            texts(out@) == start + all.take(i as int).map_values(f),
        decreases list@.len() - i,
    {
        let ghost before = texts(out@);
        let mut item = mark.to_owned();
        item.append(list[i].as_str());
        out.push(item);
        proof {
            assert(texts(out@) =~= before.push(f(all[i as int])));
            assert(all.take(i + 1).map_values(f) =~= all.take(i as int).map_values(f).push(
                f(all[i as int]),
            ));
        }
        i += 1;
    }
    assert(all.take(all.len() as int) =~= all);
}

impl Fingerprint {
    /// The fingerprint of the analysis under `config`.
    pub fn of(config: &Config) -> (r: Self)
        ensures
            r@ == fingerprint(config@),
    {
        let mut parts: Vec<String> = Vec::new();
        proof {
            assert(texts(parts@) =~= seq![]);
        }
        add_marked(&mut parts, "r:", &config.roots);
        add_marked(&mut parts, "i:", &config.ignore);
        proof {
            assert(texts(parts@) =~= declarations(config@));
            let f = |s: String| s@;
            let ahead = |a: String, b: String| ByText.ahead(a, b);
            crate::seqs::arranged_maps(parts@, f, ahead, by_text());
        }
        let sorted = arrange(parts, &ByText);
        Fingerprint {
            tool_version: VERSION.to_owned(),
            config_digest: digest(join_strings(&sorted, "\n").as_str()),
        }
    }
}

proof fn same_members_mapped(
    s: Seq<Seq<char>>,
    t: Seq<Seq<char>>,
    f: spec_fn(Seq<char>) -> Seq<char>,
)
    requires
        s.to_multiset() == t.to_multiset(),
    ensures
        s.map_values(f).to_multiset() == t.map_values(f).to_multiset(),
    decreases s.len(),
{
    broadcast use vstd::seq_lib::group_to_multiset_ensures;

    if s.len() == 0 {
        vstd::seq_lib::to_multiset_len(s);
        vstd::seq_lib::to_multiset_len(t);
        assert(s.map_values(f) =~= t.map_values(f));
    } else {
        let x = s[0];
        assert(s.to_multiset().count(x) > 0);
        assert(t.contains(x));
        let i = t.index_of(x);
        let u = s.skip(1);
        let v = t.remove(i);
        assert(s =~= u.insert(0, x));
        assert(t =~= v.insert(i, x));
        vstd::seq_lib::to_multiset_insert(u, 0, x);
        vstd::seq_lib::to_multiset_insert(v, i, x);
        assert(u.to_multiset() =~= s.to_multiset().remove(x));
        assert(v.to_multiset() =~= t.to_multiset().remove(x));
        same_members_mapped(u, v, f);
        assert(s.map_values(f) =~= u.map_values(f).insert(0, f(x)));
        assert(t.map_values(f) =~= v.map_values(f).insert(i, f(x)));
        vstd::seq_lib::to_multiset_insert(u.map_values(f), 0, f(x));
        vstd::seq_lib::to_multiset_insert(v.map_values(f), i, f(x));
    }
}

proof fn same_members_arranged(s: Seq<Seq<char>>, t: Seq<Seq<char>>)
    requires
        s.to_multiset() == t.to_multiset(),
    ensures
        arranged(s, by_text()) == arranged(t, by_text()),
{
    let ahead = by_text();
    let leq = |a: Seq<char>, b: Seq<char>| !text_less(b, a);
    let x = arranged(s, ahead);
    let y = arranged(t, ahead);
    crate::order::text_order();
    crate::order::arranged_keeps(s, ahead);
    crate::order::arranged_keeps(t, ahead);
    crate::order::arranged_in_order(s, ahead);
    crate::order::arranged_in_order(t, ahead);
    assert forall|a: Seq<char>| #[trigger] leq(a, a) by {
        crate::order::text_less_irreflexive(a);
    }
    assert forall|a: Seq<char>, b: Seq<char>| #[trigger] leq(a, b) && #[trigger] leq(
        b,
        a,
    ) implies a == b by {
        crate::order::text_less_total(a, b);
    }
    assert forall|a: Seq<char>, b: Seq<char>, c: Seq<char>| #[trigger] leq(a, b) && #[trigger] leq(
        b,
        c,
    ) implies leq(a, c) by {
        assert(!ahead(b, a) && !ahead(c, b));
    }
    assert forall|a: Seq<char>, b: Seq<char>| #[trigger] leq(a, b) || leq(b, a) by {
        if ahead(b, a) {
            assert(!ahead(a, b));
        }
    }
    assert(vstd::relations::total_ordering(leq));
    assert(vstd::relations::sorted_by(x, leq)) by {
        assert forall|i: int, j: int| 0 <= i < j < x.len() implies #[trigger] leq(x[i], x[j]) by {
            assert(!ahead(x[j], x[i]));
        }
    }
    assert(vstd::relations::sorted_by(y, leq)) by {
        assert forall|i: int, j: int| 0 <= i < j < y.len() implies #[trigger] leq(y[i], y[j]) by {
            assert(!ahead(y[j], y[i]));
        }
    }
    vstd::seq_lib::lemma_sorted_unique(x, y, leq);
}

/// The order in which a configuration lists its entries is no part of the
/// fingerprint.
pub proof fn fingerprint_ignores_order(a: ConfigView, b: ConfigView)
    requires
        a.roots.to_multiset() == b.roots.to_multiset(),
        a.ignore.to_multiset() == b.ignore.to_multiset(),
    ensures
        fingerprint(a) == fingerprint(b),
{
    let r = |r: Seq<char>| "r:"@ + r;
    let i = |i: Seq<char>| "i:"@ + i;
    same_members_mapped(a.roots, b.roots, r);
    same_members_mapped(a.ignore, b.ignore, i);
    vstd::seq_lib::lemma_multiset_commutative(a.roots.map_values(r), a.ignore.map_values(i));
    vstd::seq_lib::lemma_multiset_commutative(b.roots.map_values(r), b.ignore.map_values(i));
    same_members_arranged(declarations(a), declarations(b));
}

// ---------------------------------------------------------------------------
// Baselines
// ---------------------------------------------------------------------------

#[derive(Debug, Clone)]
pub struct Baseline {
    /// Version of the format, so that a later one is detected and not misread.
    pub version: u32,
    pub created: String,
    pub mode: Mode,
    /// What produced it. Files from before the field existed have none.
    pub fingerprint: Option<Fingerprint>,
    /// In order and each once, so that the file has a stable diff.
    pub accepted: Vec<Entry>,
}

/// What was found where a baseline is kept.
pub enum Stored {
    /// The file could not be read; holds the reason.
    Unreadable(String),
    /// Not the text of a baseline; holds the reason.
    Malformed(String),
    Read(Baseline),
}

/// What a fingerprint says, where there is one.
pub open spec fn taken(f: Option<Fingerprint>) -> Option<FingerprintView> {
    match f {
        Some(f) => Some(f@),
        None => None,
    }
}

/// Why a baseline taken under `taken` may not describe the analysis `now`.
pub open spec fn drift(taken: Option<FingerprintView>, now: FingerprintView) -> Option<Seq<char>> {
    match taken {
        None => Some(
            "taken before baselines recorded which analysis produced them, so drift cannot be detected"@,
        ),
        Some(f) => if f == now {
            None
        } else {
            let version = "taken with landed "@ + f.tool_version + ", running "@ + now.tool_version;
            let config = "landed.toml has changed since it was taken"@;
            Some(
                if f.config_digest == now.config_digest {
                    version
                } else if f.tool_version == now.tool_version {
                    config
                } else {
                    version + "; "@ + config
                },
            )
        },
    }
}

/// Why what is stored at `path` is no baseline that can be used.
pub open spec fn refused(path: Seq<char>, stored: Stored) -> Option<Seq<char>> {
    match stored {
        Stored::Unreadable(e) => Some("could not read baseline "@ + path + ": "@ + e@),
        Stored::Malformed(e) => Some(path + " is not a valid baseline: "@ + e@),
        Stored::Read(b) => if b.version == 1 {
            None
        } else {
            Some(
                "baseline "@ + path + " is version "@ + decimal(b.version as nat)
                    + ", this build understands version 1"@,
            )
        },
    }
}

/// Why a baseline of one mode does not serve a run in another.
pub open spec fn mode_clash(path: Seq<char>, mode: Mode) -> Seq<char> {
    "baseline "@ + path + " was taken in "@ + mode.word()
        + " mode; re-run with the matching analysis or retake it, because the difference between the two analyses would be reported as a change in the code"@
}

/// Reads the clock with `SystemTime::now`: the whole seconds that
/// `duration_since` counts from the epoch, or nothing where the clock stands
/// before it. Nothing is claimed of what it shows.
#[verifier::external_body]
fn clock() -> (r: Option<u64>)
{
    match std::time::SystemTime::now().duration_since(std::time::UNIX_EPOCH) {
        Ok(d) => Some(d.as_secs()),
        Err(_) => None,
    }
}

/// What a baseline records of the time at which it was taken.
pub open spec fn dated(now: Option<u64>) -> Seq<char> {
    match now {
        Some(secs) => moment(secs as nat),
        None => "unknown"@,
    }
}

impl Baseline {
    /// The accepted entries stand in order, each once.
    pub open spec fn well_formed(&self) -> bool {
        entries_rise(views(self.accepted@))
    }

    /// A baseline of what was found, without a fingerprint.
    pub fn new(mode: Mode, entries: Vec<Entry>) -> (r: Self)
        ensures
            r.well_formed(),
            r.version == 1,
            r.mode == mode,
            r.fingerprint is None,
            views(r.accepted@).to_set() == views(entries@).to_set(),
            accepts(r, mode, views(entries@)),
            exists|now: Option<u64>| r.created@ == #[trigger] dated(now),
    {
        Baseline::with_fingerprint(mode, entries, None)
    }

    /// A baseline of what was found, dated by the clock.
    pub fn with_fingerprint(
        mode: Mode,
        entries: Vec<Entry>,
        fingerprint: Option<Fingerprint>,
    ) -> (r: Self)
        ensures
            r.well_formed(),
            r.version == 1,
            r.mode == mode,
            r.fingerprint == fingerprint,
            views(r.accepted@).to_set() == views(entries@).to_set(),
            accepts(r, mode, views(entries@)),
            exists|now: Option<u64>| r.created@ == #[trigger] dated(now),
    {
        Baseline::taken_at(clock(), mode, entries, fingerprint)
    }

    /// A baseline of what was found, taken when the clock showed `now`.
    pub fn taken_at(
        now: Option<u64>,
        mode: Mode,
        entries: Vec<Entry>,
        fingerprint: Option<Fingerprint>,
    ) -> (r: Self)
        ensures
            r.well_formed(),
            r.version == 1,
            r.mode == mode,
            r.fingerprint == fingerprint,
            views(r.accepted@).to_set() == views(entries@).to_set(),
            accepts(r, mode, views(entries@)),
            r.created@ == dated(now),
    {
        let created = match now {
            Some(secs) => moment_of(secs),
            None => "unknown".to_owned(),
        };
        Baseline { version: 1, created, mode, fingerprint, accepted: ordered(entries) }
    }

    /// Why the baseline may no longer describe the same analysis. Said rather
    /// than enforced: a stale baseline is mostly still of use.
    pub fn staleness(&self, now: &Fingerprint) -> (r: Option<String>)
        ensures
            crate::ir::opt(r) == drift(taken(self.fingerprint), now@),
    {
        match &self.fingerprint {
            None => Some(
                "taken before baselines recorded which analysis produced them, so drift cannot be detected".to_owned(),
            ),
            Some(f) => {
                let one_version = same(f.tool_version.as_str(), now.tool_version.as_str());
                let one_config = same(f.config_digest.as_str(), now.config_digest.as_str());
                proof {
                    if one_version && one_config {
                        assert(f@ =~= now@);
                    }
                }
                if one_version && one_config {
                    return None;
                }
                let mut why = String::new();
                if !one_version {
                    why.append("taken with landed ");
                    why.append(f.tool_version.as_str());
                    why.append(", running ");
                    why.append(now.tool_version.as_str());
                }
                if !one_version && !one_config {
                    why.append("; ");
                }
                if !one_config {
                    why.append("landed.toml has changed since it was taken");
                }
                assert(Some(why@) =~= drift(taken(self.fingerprint), now@));
                Some(why)
            },
        }
    }

    /// The baseline that is stored at `path`, or why it cannot be used.
    pub fn load(path: &str, stored: Stored) -> (r: Result<Self, String>)
        ensures
            match refused(path@, stored) {
                Some(why) => r matches Err(m) && m@ == why,
                None => stored matches Stored::Read(b) && r == Ok::<Baseline, String>(b),
            },
    {
        match stored {
            Stored::Unreadable(e) => {
                let mut m = "could not read baseline ".to_owned();
                m.append(path);
                m.append(": ");
                m.append(e.as_str());
                Err(m)
            },
            Stored::Malformed(e) => {
                let mut m = path.to_owned();
                m.append(" is not a valid baseline: ");
                m.append(e.as_str());
                Err(m)
            },
            Stored::Read(b) => {
                if b.version == 1 {
                    return Ok(b);
                }
                let mut m = "baseline ".to_owned();
                m.append(path);
                m.append(" is version ");
                m.append(padded_of(b.version as u64, 10, 0).as_str());
                m.append(", this build understands version 1");
                Err(m)
            },
        }
    }

    /// The baseline serves a run in the mode `want`, or why it does not.
    pub fn serves(&self, want: Mode, path: &str) -> (r: Result<(), String>)
        ensures
            if self.mode == want {
                r is Ok
            } else {
                r matches Err(m) && m@ == mode_clash(path@, self.mode)
            },
    {
        if self.mode == want {
            return Ok(());
        }
        let mut m = "baseline ".to_owned();
        m.append(path);
        m.append(" was taken in ");
        match self.mode {
            Mode::Direct => m.append("Direct"),
            Mode::Graph => m.append("Graph"),
        }
        m.append(
            " mode; re-run with the matching analysis or retake it, because the difference between the two analyses would be reported as a change in the code",
        );
        Err(m)
    }
}

/// A baseline is never stale under the analysis that took it.
pub proof fn a_fresh_baseline_is_not_stale(c: ConfigView)
    ensures
        drift(Some(fingerprint(c)), fingerprint(c)) is None,
{
}

/// Whatever differs is named, and only where something does.
pub proof fn staleness_means_a_difference(f: FingerprintView, now: FingerprintView)
    ensures
        (drift(Some(f), now) is None) == (f == now),
{
}

// ---------------------------------------------------------------------------
// Comparing
// ---------------------------------------------------------------------------

/// The baseline is one that accepts just these entries, under an analysis.
pub open spec fn accepts(b: Baseline, mode: Mode, entries: Seq<AcceptedView>) -> bool {
    &&& b.version == 1
    &&& b.mode == mode
    &&& entries_rise(views(b.accepted@))
    &&& views(b.accepted@).to_set() == entries.to_set()
}

/// What the comparison of what is found with what is accepted gives.
pub open spec fn compares(
    accepted: Seq<AcceptedView>,
    current: Seq<AcceptedView>,
    c: Comparison,
) -> bool {
    &&& views(c.added@) == news(accepted, current)
    &&& c.carried == olds(accepted, current).len()
    &&& entries_rise(views(c.cleared@))
    &&& forall|e: AcceptedView| #[trigger]
        views(c.cleared@).contains(e) == (accepted.contains(e) && !current.contains(e))
}

/// What changed since a baseline was taken.
#[derive(Debug)]
pub struct Comparison {
    /// Findings that are not in the baseline: what a gate stops at.
    pub added: Vec<Entry>,
    /// Accepted entries that are gone: mended, deleted or renamed.
    pub cleared: Vec<Entry>,
    /// How many are still there and still accepted.
    pub carried: usize,
}

impl Default for Comparison {
    fn default() -> (r: Self)
        ensures
            r.added@ == Seq::<Entry>::empty(),
            r.cleared@ == Seq::<Entry>::empty(),
            r.carried == 0,
    {
        Comparison { added: Vec::new(), cleared: Vec::new(), carried: 0 }
    }
}

/// The order of entries.
pub open spec fn by_entry() -> spec_fn(AcceptedView, AcceptedView) -> bool {
    |a: AcceptedView, b: AcceptedView| entry_less(a, b)
}

/// The findings that a baseline does not hold, in order.
pub open spec fn news(accepted: Seq<AcceptedView>, current: Seq<AcceptedView>) -> Seq<
    AcceptedView,
> {
    arranged(current.filter(|e: AcceptedView| !accepted.contains(e)), by_entry())
}

/// The findings that a baseline holds.
pub open spec fn olds(accepted: Seq<AcceptedView>, current: Seq<AcceptedView>) -> Seq<
    AcceptedView,
> {
    current.filter(|e: AcceptedView| accepted.contains(e))
}

/// What the baseline holds of `current`, what it does not, and what of it is
/// gone.
pub fn compare(baseline: &Baseline, current: &Vec<Entry>) -> (r: Comparison)
    ensures
        compares(views(baseline.accepted@), views(current@), r),
        views(r.added@) == news(views(baseline.accepted@), views(current@)),
        r.carried == olds(views(baseline.accepted@), views(current@)).len(),
        entries_rise(views(r.cleared@)),
        forall|e: AcceptedView| #[trigger]
            views(r.cleared@).contains(e) == (views(baseline.accepted@).contains(e) && !views(
                current@,
            ).contains(e)),
{
    let ghost accepted = views(baseline.accepted@);
    let ghost all = views(current@);
    let ghost fresh = |e: AcceptedView| !accepted.contains(e);
    let ghost known = |e: AcceptedView| accepted.contains(e);
    let mut added: Vec<Entry> = Vec::new();
    let mut carried: usize = 0;
    let mut i: usize = 0;
    proof {
        reveal(Seq::filter);
        assert(views(added@) =~= all.take(0).filter(fresh));
    }
    while i < current.len()
        invariant
            0 <= i <= current@.len(),
            accepted == views(baseline.accepted@),
            all == views(current@),
            fresh == (|e: AcceptedView| !accepted.contains(e)),
            known == (|e: AcceptedView| accepted.contains(e)),
            views(added@) == all.take(i as int).filter(fresh),
            carried == all.take(i as int).filter(known).len(),
            carried <= i,
        decreases current@.len() - i,
    {
        proof {
            assert(all[i as int] == current@[i as int]@);
            filter_step(all, fresh, i as int);
            filter_step(all, known, i as int);
        }
        if holds(&baseline.accepted, &current[i]) {
            carried += 1;
        } else {
            let ghost before = added@;
            added.push(current[i].copy());
            proof {
                assert(views(added@) =~= views(before).push(all[i as int]));
            }
        }
        i += 1;
    }
    assert(all.take(all.len() as int) =~= all);
    let mut gone: Vec<Entry> = Vec::new();
    let mut k: usize = 0;
    while k < baseline.accepted.len()
        invariant
            0 <= k <= baseline.accepted@.len(),
            accepted == views(baseline.accepted@),
            all == views(current@),
            forall|e: AcceptedView| #[trigger]
                views(gone@).contains(e) == (accepted.take(k as int).contains(e) && !all.contains(
                    e,
                )),
        decreases baseline.accepted@.len() - k,
    {
        let ghost before = views(gone@);
        let ghost x = accepted[k as int];
        assert(x == baseline.accepted@[k as int]@);
        if !holds(current, &baseline.accepted[k]) {
            gone.push(baseline.accepted[k].copy());
            proof {
                assert(views(gone@) =~= before.push(x));
            }
        }
        proof {
            assert(accepted.take(k + 1) =~= accepted.take(k as int).push(x));
            assert forall|e: AcceptedView| #[trigger]
                views(gone@).contains(e) == (accepted.take(k + 1).contains(e) && !all.contains(
                    e,
                )) by {
                crate::seqs::pushed_members(accepted.take(k as int), x, e);
                crate::seqs::pushed_members(before, x, e);
                assert(before.contains(e) == (accepted.take(k as int).contains(e)
                    && !all.contains(e)));
            }
        }
        k += 1;
    }
    assert(accepted.take(accepted.len() as int) =~= accepted);
    let ghost left = gone@;
    let cleared = ordered(gone);
    proof {
        assert forall|e: AcceptedView| #[trigger]
            views(cleared@).contains(e) == (accepted.contains(e) && !all.contains(e)) by {
            assert(views(cleared@).to_set().contains(e) == views(left).to_set().contains(e));
        }
        let ahead = |a: Entry, b: Entry| ByEntry.ahead(a, b);
        crate::seqs::arranged_maps(added@, |e: Entry| e@, ahead, by_entry());
    }
    let added = arrange(added, &ByEntry);
    Comparison { added, cleared, carried }
}

proof fn parted(accepted: Seq<AcceptedView>, current: Seq<AcceptedView>)
    ensures
        current.filter(|e: AcceptedView| accepted.contains(e)).len() + current.filter(
            |e: AcceptedView| !accepted.contains(e),
        ).len() == current.len(),
    decreases current.len(),
{
    reveal(Seq::filter);
    if current.len() > 0 {
        parted(accepted, current.drop_last());
    }
}

/// Every finding is either carried or new.
pub proof fn every_finding_is_counted(accepted: Seq<AcceptedView>, current: Seq<AcceptedView>)
    ensures
        olds(accepted, current).len() + news(accepted, current).len() == current.len(),
{
    parted(accepted, current);
    crate::order::arranged_keeps(
        current.filter(|e: AcceptedView| !accepted.contains(e)),
        by_entry(),
    );
}

/// What is reported as new is found now and not accepted, and all of that is.
pub proof fn new_means_not_accepted(
    accepted: Seq<AcceptedView>,
    current: Seq<AcceptedView>,
    e: AcceptedView,
)
    ensures
        news(accepted, current).contains(e) == (current.contains(e) && !accepted.contains(e)),
{
    let fresh = |e: AcceptedView| !accepted.contains(e);
    crate::seqs::filter_members(current, fresh, e);
    crate::seqs::arranged_members(current.filter(fresh), by_entry(), e);
}

/// An unchanged codebase stays green: where all that is found is accepted,
/// nothing is new and everything is carried.
pub proof fn unchanged_code_reports_nothing_new(
    accepted: Seq<AcceptedView>,
    current: Seq<AcceptedView>,
)
    requires
        forall|e: AcceptedView| #[trigger] current.contains(e) ==> accepted.contains(e),
    ensures
        news(accepted, current).len() == 0,
        olds(accepted, current).len() == current.len(),
{
    if news(accepted, current).len() > 0 {
        let e = news(accepted, current)[0];
        assert(news(accepted, current).contains(e));
        new_means_not_accepted(accepted, current, e);
    }
    every_finding_is_counted(accepted, current);
}

// ---------------------------------------------------------------------------
// Places
// ---------------------------------------------------------------------------

/// `file` as it is told from the directory `root`. Where it lies elsewhere,
/// from the last `src` directory on.
pub open spec fn relative_to(file: Seq<char>, root: Seq<char>) -> Seq<char> {
    match without_prefix(file, root) {
        Some(rest) => no_prefixes(rest, "/"@),
        None => match cut_last(file, "/src/"@) {
            Some((_, tail)) => "src/"@ + tail,
            None => file,
        },
    }
}

/// `file` as it is told from the directory `root`, whose path is absolute and
/// free of links.
pub fn relative(file: &str, root: &str) -> (r: String)
    ensures
        r@ == relative_to(file@, root@),
{
    let c = chars_of(file);
    match strip_prefix(&c, root) {
        Some(rest) => string_of(drop_prefixes(rest, "/")),
        None => match cut_last_once(&c, "/src/") {
            Some((_, tail)) => {
                let mut out = "src/".to_owned();
                out.append(string_of(tail).as_str());
                out
            },
            None => file.to_owned(),
        },
    }
}

/// Where the baseline of a scanned path is kept: beside its manifest, given
/// whether the path and the directory above it hold one.
pub fn default_path(scan_path: &str, here: bool, above: bool) -> (r: String)
    ensures
        r@ == under(manifest_dir(scan_path@, here, above), DEFAULT_FILE@),
{
    crate::paths::join(crate_dir(scan_path, here, above).as_str(), DEFAULT_FILE)
}

// ---------------------------------------------------------------------------
// What is found now
// ---------------------------------------------------------------------------

/// The findings of a run.
pub open spec fn found(s: ScanView, graph: bool) -> Seq<FindingView> {
    if graph {
        unreachable_code(s)
    } else {
        directly_dead(s)
    }
}

/// A finding as a baseline knows it.
pub open spec fn entry_of(f: FindingView, root: Seq<char>) -> AcceptedView {
    AcceptedView { name: f.name, file: relative_to(f.file, root) }
}

/// Findings as a baseline knows them.
pub open spec fn entries_of(found: Seq<FindingView>, root: Seq<char>) -> Seq<AcceptedView> {
    found.map_values(|f: FindingView| entry_of(f, root))
}

/// What a run finds, as entries in order, each once.
pub fn entries_now(scan: &Scan, graph: bool, root: &str) -> (r: Vec<Entry>)
    ensures
        entries_rise(views(r@)),
        views(r@).to_set() == entries_of(found(scan@, graph), root@).to_set(),
{
    let findings = if graph {
        never_run_graph(scan)
    } else {
        never_run(scan)
    };
    let ghost all = found(scan@, graph);
    let ghost told = |f: FindingView| entry_of(f, root@);
    let mut out: Vec<Entry> = Vec::new();
    let mut i: usize = 0;
    assert(views(out@) =~= all.take(0).map_values(told));
    while i < findings.len()
        invariant
            0 <= i <= findings@.len(),
            all == views(findings@),
            told == (|f: FindingView| entry_of(f, root@)),
            views(out@) == all.take(i as int).map_values(told),
        decreases findings@.len() - i,
    {
        let ghost before = out@;
        out.push(
            Entry {
                name: findings[i].name.clone(),
                file: relative(findings[i].file.as_str(), root),
            },
        );
        proof {
            assert(all[i as int] == findings@[i as int]@);
            assert(views(out@) =~= views(before).push(told(all[i as int])));
            assert(all.take(i + 1) =~= all.take(i as int).push(all[i as int]));
            crate::seqs::map_push(all.take(i as int), told, all[i as int]);
        }
        i += 1;
    }
    assert(all.take(all.len() as int) =~= all);
    ordered(out)
}

/// Findings that only moved within their files are the same entries.
pub proof fn lines_are_no_part_of_entries(
    before: Seq<FindingView>,
    after: Seq<FindingView>,
    root: Seq<char>,
)
    requires
        before.len() == after.len(),
        forall|i: int|
            0 <= i < before.len() ==> (#[trigger] before[i]).name == after[i].name
                && before[i].file == after[i].file,
    ensures
        entries_of(before, root) == entries_of(after, root),
{
    assert(entries_of(before, root) =~= entries_of(after, root));
}

} // verus!
