//! What the relay knows of vaults beside their logs: which ids are well formed
//! and how much each vault may store.
use crate::numbers::{nat_of, parse_u64, render_u64, dec};
use crate::paths::{join_path, path_join};
use crate::relay::log::LOG_CAP_BYTES;
use crate::strmap::StrMap;
use crate::text::chars_of;
use vstd::prelude::*;
use vstd::string::*;

verus! {

/// Whether a character is a lower-case hexadecimal digit.
pub open spec fn is_lower_hex(c: char) -> bool {
    '0' <= c <= '9' || 'a' <= c <= 'f'
}

/// Whether a text is the id of a vault: 32 lower-case hexadecimal digits.
pub open spec fn is_vault_id(s: Seq<char>) -> bool {
    s.len() == 32 && forall|i: int| 0 <= i < s.len() ==> is_lower_hex(#[trigger] s[i])
}

/// Whether a text is the id of a vault. Anything else never reaches a path.
pub fn valid_vault_id(vault_id: &str) -> (r: bool)
    ensures
        r == is_vault_id(vault_id@),
{
    let v = chars_of(vault_id);
    if v.len() != 32 {
        return false;
    }
    let mut i: usize = 0;
    while i < v.len()
        invariant
            i <= v@.len(),
            v@ == vault_id@,
            v@.len() == 32,
            forall|k: int| 0 <= k < i ==> is_lower_hex(#[trigger] v@[k]),
        decreases v@.len() - i,
    {
        let c: char = v[i];
        if !(('0' <= c && c <= '9') || ('a' <= c && c <= 'f')) {
            assert(!is_lower_hex(vault_id@[i as int]));
            return false;
        }
        i = i + 1;
    }
    true
}

/// What an operator sets.
#[derive(Debug)]
pub struct RelayConfig {
    pub data_dir: String,
    /// The quota of a vault without an entitlement.
    pub default_quota_bytes: u64,
    /// Where the entitlements are. No file means no entitlements.
    pub entitlements_path: String,
}

/// The quota that a variable sets: a positive number of bytes.
pub open spec fn quota_named(raw: Seq<char>) -> Option<u64> {
    match nat_of(raw) {
        Some(n) => if 0 < n <= u64::MAX {
            Some(n as u64)
        } else {
            None
        },
        None => None,
    }
}

/// The quota that a variable sets, if it is a positive number of bytes.
pub fn parse_quota(raw: &str) -> (r: Option<u64>)
    ensures
        r == quota_named(raw@),
{
    match parse_u64(raw, u64::MAX) {
        Some(n) => if n > 0 {
            Some(n)
        } else {
            None
        },
        None => None,
    }
}

impl RelayConfig {
    /// The defaults: every vault gets the relay's own cap, and the
    /// entitlements lie in the data directory.
    pub fn new(data_dir: &str) -> (r: Self)
        ensures
            r.data_dir@ == data_dir@,
            r.default_quota_bytes == LOG_CAP_BYTES,
            r.entitlements_path@ == join_path(data_dir@, "entitlements.json"@),
    {
        RelayConfig {
            data_dir: data_dir.to_owned(),
            default_quota_bytes: LOG_CAP_BYTES,
            entitlements_path: path_join(data_dir, "entitlements.json"),
        }
    }

    /// The defaults, with a quota and a path for the entitlements where they
    /// are given. A quota that is no positive number is passed over.
    pub fn from_vars(data_dir: &str, quota: Option<&str>, entitlements: Option<&str>) -> (r: Self)
        ensures
            r.data_dir@ == data_dir@,
            r.default_quota_bytes == (match quota {
                Some(raw) => match quota_named(raw@) {
                    Some(n) => n,
                    None => LOG_CAP_BYTES,
                },
                None => LOG_CAP_BYTES,
            }),
            r.entitlements_path@ == (match entitlements {
                Some(path) => path@,
                None => join_path(data_dir@, "entitlements.json"@),
            }),
    {
        let mut config = RelayConfig::new(data_dir);
        match quota {
            Some(raw) => match parse_quota(raw) {
                Some(n) => {
                    config.default_quota_bytes = n;
                },
                None => {},
            },
            None => {},
        }
        match entitlements {
            Some(path) => {
                config.entitlements_path = path.to_owned();
            },
            None => {},
        }
        config
    }
}

// ---------------------------------------------------------------------------
// Entitlements
// ---------------------------------------------------------------------------

/// What tells one generation of a file from the next: when it was changed, and
/// its length. The time alone would miss a second change within one tick.
#[derive(Debug, Clone, Copy, PartialEq, Eq, Structural)]
pub struct FileKey {
    pub secs: u64,
    pub nanos: u32,
    pub len: u64,
}

/// What reading the entitlements gave.
#[derive(Debug)]
pub enum EntitlementsRead {
    /// The file could not be read or is no JSON of the right shape.
    Unreadable(String),
    /// The version that the file names, and the quota of each vault.
    File(u32, Vec<(String, u64)>),
}

/// The entitlements that were read last.
pub struct EntitlementsCache {
    pub key: Option<FileKey>,
    pub quotas: StrMap<u64>,
    /// The generation of the file that was complained of already.
    pub err_key: Option<FileKey>,
}

/// The model of the entitlements.
#[verifier::ext_equal]
pub struct CacheView {
    pub key: Option<FileKey>,
    pub quotas: Map<Seq<char>, u64>,
    pub err_key: Option<FileKey>,
}

impl View for EntitlementsCache {
    type V = CacheView;

    open spec fn view(&self) -> CacheView {
        CacheView { key: self.key, quotas: self.quotas@, err_key: self.err_key }
    }
}

/// The quotas that the first `n` entries give.
pub open spec fn quotas_of(v: Seq<(String, u64)>, n: int) -> Map<Seq<char>, u64>
    decreases n,
{
    if n <= 0 {
        Map::empty()
    } else {
        quotas_of(v, n - 1).insert(v[n - 1].0@, v[n - 1].1)
    }
}

/// The quotas of a file, or why it has none.
pub open spec fn read_quotas(read: EntitlementsRead) -> Result<Map<Seq<char>, u64>, Seq<char>> {
    match read {
        EntitlementsRead::Unreadable(e) => Err(e@),
        EntitlementsRead::File(version, vaults) => if version == 1 {
            Ok(quotas_of(vaults@, vaults@.len() as int))
        } else {
            Err("unknown version "@ + dec(version as nat))
        },
    }
}

/// The entitlements once the file of generation `key` was looked at: a file
/// that is gone drops all, one that cannot be read leaves the last good set,
/// and is looked at again.
pub open spec fn reloaded(c: CacheView, key: Option<FileKey>, read: EntitlementsRead) -> CacheView {
    if key == c.key {
        c
    } else {
        match key {
            None => CacheView { key: None, quotas: Map::empty(), err_key: c.err_key },
            Some(_) => match read_quotas(read) {
                Ok(quotas) => CacheView { key, quotas, err_key: c.err_key },
                Err(_) => CacheView { key: c.key, quotas: c.quotas, err_key: key },
            },
        }
    }
}

/// The complaint about a file that cannot be read: one for each generation.
pub open spec fn complaint_of(
    c: CacheView,
    key: Option<FileKey>,
    read: EntitlementsRead,
    path: Seq<char>,
) -> Option<Seq<char>> {
    if key == c.key || key is None || key == c.err_key {
        None
    } else {
        match read_quotas(read) {
            Ok(_) => None,
            Err(e) => Some(
                "entitlements file "@ + path + " unreadable, keeping last good set: "@ + e,
            ),
        }
    }
}

/// The quota of a vault.
pub open spec fn quota_of(quotas: Map<Seq<char>, u64>, vault_id: Seq<char>, default: u64) -> u64 {
    if quotas.contains_key(vault_id) {
        quotas[vault_id]
    } else {
        default
    }
}

/// A quota, and what is to be logged.
pub struct QuotaAnswer {
    pub quota: u64,
    pub complaint: Option<String>,
}

fn collect_quotas(vaults: &Vec<(String, u64)>) -> (r: StrMap<u64>)
    ensures
        r@ == quotas_of(vaults@, vaults@.len() as int),
{
    let mut out: StrMap<u64> = StrMap::new();
    let mut i: usize = 0;
    while i < vaults.len()
        invariant
            i <= vaults@.len(),
            out@ == quotas_of(vaults@, i as int),
        decreases vaults@.len() - i,
    {
        out.insert(vaults[i].0.clone(), vaults[i].1);
        i = i + 1;
    }
    out
}

fn load_quotas(read: &EntitlementsRead) -> (r: Result<StrMap<u64>, String>)
    ensures
        match r {
            Ok(m) => read_quotas(*read) == Ok::<Map<Seq<char>, u64>, Seq<char>>(m@),
            Err(e) => read_quotas(*read) == Err::<Map<Seq<char>, u64>, Seq<char>>(e@),
        },
{
    match read {
        EntitlementsRead::Unreadable(e) => Err(e.clone()),
        EntitlementsRead::File(version, vaults) => if *version == 1 {
            Ok(collect_quotas(vaults))
        } else {
            let mut e = "unknown version ".to_owned();
            e.append(render_u64(*version as u64).as_str());
            Err(e)
        },
    }
}

impl EntitlementsCache {
    /// No entitlements, and no file seen.
    pub fn new() -> (r: Self)
        ensures
            r@ == (CacheView { key: None, quotas: Map::empty(), err_key: None }),
            is_sound(r@),
    {
        EntitlementsCache { key: None, quotas: StrMap::new(), err_key: None }
    }

    /// Whether the file has to be read again.
    pub fn needs_reload(&self, key: Option<FileKey>) -> (r: bool)
        ensures
            r == (key != self@.key),
    {
        match (key, self.key) {
            (Some(a), Some(b)) => !(a == b),
            (None, None) => false,
            _ => true,
        }
    }

    /// The quota of a vault, looked up anew for each operation, so that an
    /// upgrade takes effect at once. `key` tells the generation of the file;
    /// `read` is what reading it gave, and counts only where it changed.
    pub fn quota_for(
        &mut self,
        config: &RelayConfig,
        vault_id: &str,
        key: Option<FileKey>,
        read: &EntitlementsRead,
    ) -> (r: QuotaAnswer)
        ensures
            final(self)@ == reloaded(old(self)@, key, *read),
            is_sound(old(self)@) ==> is_sound(final(self)@),
            r.quota == quota_of(
                reloaded(old(self)@, key, *read).quotas,
                vault_id@,
                config.default_quota_bytes,
            ),
            match r.complaint {
                Some(m) => complaint_of(old(self)@, key, *read, config.entitlements_path@) == Some(
                    m@,
                ),
                None => complaint_of(old(self)@, key, *read, config.entitlements_path@) is None,
            },
    {
        let mut complaint: Option<String> = None;
        let ghost was = self@;
        if self.needs_reload(key) {
            match key {
                None => {
                    self.quotas = StrMap::new();
                    self.key = None;
                },
                Some(k) => match load_quotas(read) {
                    Ok(quotas) => {
                        self.quotas = quotas;
                        self.key = key;
                    },
                    Err(e) => {
                        let seen: bool = match self.err_key {
                            Some(x) => x == k,
                            None => false,
                        };
                        if !seen {
                            let mut m = "entitlements file ".to_owned();
                            m.append(config.entitlements_path.as_str());
                            m.append(" unreadable, keeping last good set: ");
                            m.append(e.as_str());
                            complaint = Some(m);
                            self.err_key = key;
                        }
                    },
                },
            }
        }
        assert(self@ =~= reloaded(was, key, *read));
        let quota: u64 = match self.quotas.get(vault_id) {
            Some(q) => *q,
            None => config.default_quota_bytes,
        };
        QuotaAnswer { quota, complaint }
    }
}

/// An unreadable file never takes an entitlement away, and one that is read
/// well gives each vault what it says.
pub proof fn law_entitlements_survive_a_broken_file(
    c: CacheView,
    key: FileKey,
    read: EntitlementsRead,
    vault_id: Seq<char>,
    default: u64,
)
    ensures
        read_quotas(read) is Err ==> quota_of(
            reloaded(c, Some(key), read).quotas,
            vault_id,
            default,
        ) == quota_of(c.quotas, vault_id, default),
        read_quotas(read) is Err && Some(key) != c.key ==> reloaded(c, Some(key), read).key == c.key,
        read_quotas(read) matches Ok(m) ==> Some(key) != c.key ==> quota_of(
            reloaded(c, Some(key), read).quotas,
            vault_id,
            default,
        ) == quota_of(m, vault_id, default),
{
}

/// Whether what is cached came from a file: without one there are no quotas.
pub open spec fn is_sound(c: CacheView) -> bool {
    c.key is None ==> c.quotas == Map::<Seq<char>, u64>::empty()
}

/// Where the file is missing every vault has the default quota. This rests on a
/// cache without a file holding no quotas, which every look at the file keeps.
pub proof fn law_no_file_gives_the_default(
    c: CacheView,
    key: Option<FileKey>,
    read: EntitlementsRead,
    vault_id: Seq<char>,
    default: u64,
)
    requires
        is_sound(c),
    ensures
        is_sound(reloaded(c, key, read)),
        quota_of(reloaded(c, None, read).quotas, vault_id, default) == default,
{
}

/// The entitlements once the file was looked at `n` times: each time it was of
/// some generation, or missing, and reading it gave something.
pub open spec fn looked_at(looks: Seq<(Option<FileKey>, EntitlementsRead)>, n: int) -> CacheView
    decreases n,
{
    if n <= 0 {
        CacheView { key: None, quotas: Map::empty(), err_key: None }
    } else {
        reloaded(looked_at(looks, n - 1), looks[n - 1].0, looks[n - 1].1)
    }
}

/// The quotas of the last good file among the first `n` looks, none since the file
/// was last missing.
pub open spec fn last_good(looks: Seq<(Option<FileKey>, EntitlementsRead)>, n: int) -> Map<
    Seq<char>,
    u64,
>
    decreases n,
{
    if n <= 0 || looks[n - 1].0 is None {
        Map::empty()
    } else {
        match read_quotas(looks[n - 1].1) {
            Ok(quotas) => quotas,
            Err(_) => last_good(looks, n - 1),
        }
    }
}

/// The quota of a vault follows the file: it is what the file says now, the default
/// where the file is missing or does not name the vault, and where the file is
/// broken what the last good one said. This asks that two looks at one generation
/// read the same.
pub proof fn law_quotas_follow_the_file(looks: Seq<(Option<FileKey>, EntitlementsRead)>, n: int)
    requires
        0 <= n <= looks.len(),
        forall|i: int, j: int|
            0 <= i < j < looks.len() && (#[trigger] looks[i]).0 is Some && looks[i].0 == (
            #[trigger] looks[j]).0 ==> read_quotas(looks[i].1) == read_quotas(looks[j].1),
    ensures
        is_sound(looked_at(looks, n)),
        looked_at(looks, n).quotas == last_good(looks, n),
{
    lemma_looks(looks, n);
}

proof fn lemma_looks(looks: Seq<(Option<FileKey>, EntitlementsRead)>, n: int)
    requires
        0 <= n <= looks.len(),
        forall|i: int, j: int|
            0 <= i < j < looks.len() && (#[trigger] looks[i]).0 is Some && looks[i].0 == (
            #[trigger] looks[j]).0 ==> read_quotas(looks[i].1) == read_quotas(looks[j].1),
    ensures
        is_sound(looked_at(looks, n)),
        looked_at(looks, n).quotas == last_good(looks, n),
        looked_at(looks, n).key is Some ==> exists|i: int|
            0 <= i < n && (#[trigger] looks[i]).0 == looked_at(looks, n).key && read_quotas(looks[i].1)
                == Ok::<Map<Seq<char>, u64>, Seq<char>>(looked_at(looks, n).quotas),
    decreases n,
{
    if n > 0 {
        lemma_looks(looks, n - 1);
        let c = looked_at(looks, n - 1);
        let d = looked_at(looks, n);
        let last = looks[n - 1];
        if c.key is Some {
            let i = choose|i: int|
                0 <= i < n - 1 && (#[trigger] looks[i]).0 == c.key && read_quotas(looks[i].1) == Ok::<
                    Map<Seq<char>, u64>,
                    Seq<char>,
                >(c.quotas);
            assert(looks[i].0 == c.key);
            if last.0 == c.key {
                assert(read_quotas(looks[i].1) == read_quotas(looks[n - 1].1));
            }
        }
        if d.key is Some && last.0 != c.key && read_quotas(last.1) is Ok {
            assert(looks[n - 1].0 == d.key);
        }
    }
}

} // verus!
