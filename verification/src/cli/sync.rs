//! The command line of the synchronisation.
//!
//! ```text
//! sync init   [--vault <path>] [--relay <url>] [--code <code>]
//! sync once   [--vault <path>]
//! sync run    [--vault <path>] [--interval <secs>] [--live]
//! sync status [--vault <path>]
//! ```
//!
//! A vault's configuration holds the relay and the vault code. The code is the
//! key material: without it what the relay has can never be decrypted.
use crate::numbers::{dec, nat_of, parse_u64, render_u64};
use crate::order::before;
use crate::paths::{join_path, path_join};
use crate::text::{
    byte_len, chars_of, debug_text, join, join_strings, opt_text, quoted, str_eq, string_range,
    texts, utf8_len,
};
use crate::vault::json::{
    json_entries, json_pretty, json_read, keys_ascend, lemma_json_model, render_json_pretty, Json,
    JsonView,
};
use crate::vault::write::{Changeset, PermissionScope};
use crate::vault::writer::NoteWriter;
use vstd::prelude::*;
use vstd::string::*;

verus! {

pub const DEFAULT_RELAY: &'static str = "wss://sync.tacitus.md";

/// What a sync command asks for.
#[derive(Debug, PartialEq, Eq)]
pub enum SyncCmd {
    Init { vault: String, relay: String, code: Option<String> },
    Once { vault: String },
    Run { vault: String, interval_secs: u64, live: bool },
    Status { vault: String },
}

/// The model of a sync command.
#[verifier::ext_equal]
pub enum SyncCmdView {
    Init { vault: Seq<char>, relay: Seq<char>, code: Option<Seq<char>> },
    Once { vault: Seq<char> },
    Run { vault: Seq<char>, interval_secs: u64, live: bool },
    Status { vault: Seq<char> },
}

impl View for SyncCmd {
    type V = SyncCmdView;

    open spec fn view(&self) -> SyncCmdView {
        match *self {
            SyncCmd::Init { vault, relay, code } => SyncCmdView::Init {
                vault: vault@,
                relay: relay@,
                code: opt_text(code),
            },
            SyncCmd::Once { vault } => SyncCmdView::Once { vault: vault@ },
            SyncCmd::Run { vault, interval_secs, live } => SyncCmdView::Run {
                vault: vault@,
                interval_secs,
                live,
            },
            SyncCmd::Status { vault } => SyncCmdView::Status { vault: vault@ },
        }
    }
}

/// What the flags say.
#[verifier::ext_equal]
pub struct SyncFlags {
    pub vault: Seq<char>,
    pub relay: Seq<char>,
    pub code: Option<Seq<char>>,
    pub interval_secs: u64,
    pub live: bool,
}

/// What the flags from `i` on say, after `f`.
pub open spec fn sync_flags(args: Seq<Seq<char>>, i: int, f: SyncFlags) -> Result<
    SyncFlags,
    Seq<char>,
>
    decreases args.len() - i,
{
    if i < 0 || i >= args.len() {
        Ok(f)
    } else if args[i] == "--vault"@ {
        if i + 1 < args.len() {
            sync_flags(args, i + 2, SyncFlags { vault: args[i + 1], ..f })
        } else {
            Err("--vault needs a path"@)
        }
    } else if args[i] == "--relay"@ {
        if i + 1 < args.len() {
            sync_flags(args, i + 2, SyncFlags { relay: args[i + 1], ..f })
        } else {
            Err("--relay needs a URL"@)
        }
    } else if args[i] == "--code"@ {
        if i + 1 < args.len() {
            sync_flags(args, i + 2, SyncFlags { code: Some(args[i + 1]), ..f })
        } else {
            Err("--code needs a vault code"@)
        }
    } else if args[i] == "--interval"@ {
        if i + 1 < args.len() {
            match nat_of(args[i + 1]) {
                Some(n) => if n <= u64::MAX {
                    sync_flags(args, i + 2, SyncFlags { interval_secs: n as u64, ..f })
                } else {
                    Err("--interval must be a number of seconds"@)
                },
                None => Err("--interval must be a number of seconds"@),
            }
        } else {
            Err("--interval needs seconds"@)
        }
    } else if args[i] == "--live"@ {
        sync_flags(args, i + 1, SyncFlags { live: true, ..f })
    } else {
        Err("unknown sync flag: "@ + args[i])
    }
}

/// What the arguments of a sync command ask for, or what is wrong with them.
pub open spec fn sync_asked(args: Seq<Seq<char>>) -> Result<SyncCmdView, Seq<char>> {
    let sub = if args.len() > 0 {
        args[0]
    } else {
        seq![]
    };
    match sync_flags(
        args,
        1,
        SyncFlags {
            vault: "."@,
            relay: "wss://sync.tacitus.md"@,
            code: None,
            interval_secs: 30,
            live: false,
        },
    ) {
        Err(e) => Err(e),
        Ok(f) => if sub == "init"@ {
            Ok(SyncCmdView::Init { vault: f.vault, relay: f.relay, code: f.code })
        } else if sub == "once"@ {
            Ok(SyncCmdView::Once { vault: f.vault })
        } else if sub == "run"@ {
            Ok(
                SyncCmdView::Run {
                    vault: f.vault,
                    interval_secs: f.interval_secs,
                    live: f.live,
                },
            )
        } else if sub == "status"@ {
            Ok(SyncCmdView::Status { vault: f.vault })
        } else {
            Err(
                "unknown sync subcommand "@ + debug_text(sub)
                    + " — use init | once | run | status"@,
            )
        },
    }
}

/// Reads the arguments of a sync command.
pub fn parse_sync_args(args: &Vec<String>) -> (r: Result<SyncCmd, String>)
    ensures
        match r {
            Ok(c) => sync_asked(texts(args@)) == Ok::<SyncCmdView, Seq<char>>(c@),
            Err(e) => sync_asked(texts(args@)) == Err::<SyncCmdView, Seq<char>>(e@),
        },
{
    let ghost a = texts(args@);
    let sub: String = if args.len() > 0 {
        args[0].clone()
    } else {
        let s = String::new();
        assert(s@ =~= seq![]);
        s
    };
    let mut vault = ".".to_owned();
    let mut relay = "wss://sync.tacitus.md".to_owned();
    let mut code: Option<String> = None;
    let mut interval_secs: u64 = 30;
    let mut live: bool = false;
    let ghost start = SyncFlags {
        vault: "."@,
        relay: "wss://sync.tacitus.md"@,
        code: None,
        interval_secs: 30,
        live: false,
    };
    let n: usize = args.len();
    let mut i: usize = 1;
    while i < n
        invariant
            1 <= i,
            n == args@.len(),
            a == texts(args@),
            start == (SyncFlags {
                vault: "."@,
                relay: "wss://sync.tacitus.md"@,
                code: None,
                interval_secs: 30,
                live: false,
            }),
            sync_flags(a, 1, start) == sync_flags(
                a,
                i as int,
                SyncFlags {
                    vault: vault@,
                    relay: relay@,
                    code: opt_text(code),
                    interval_secs,
                    live,
                },
            ),
        decreases n - i,
    {
        assert(a[i as int] == args@[i as int]@);
        let flag = args[i].as_str();
        let has_next: bool = n - i > 1;
        if str_eq(flag, "--vault") {
            if !has_next {
                return Err("--vault needs a path".to_owned());
            }
            vault = args[i + 1].clone();
            i = i + 2;
        } else if str_eq(flag, "--relay") {
            if !has_next {
                return Err("--relay needs a URL".to_owned());
            }
            relay = args[i + 1].clone();
            i = i + 2;
        } else if str_eq(flag, "--code") {
            if !has_next {
                return Err("--code needs a vault code".to_owned());
            }
            code = Some(args[i + 1].clone());
            i = i + 2;
        } else if str_eq(flag, "--interval") {
            if !has_next {
                return Err("--interval needs seconds".to_owned());
            }
            match parse_u64(args[i + 1].as_str(), u64::MAX) {
                Some(t) => {
                    interval_secs = t;
                },
                None => {
                    return Err("--interval must be a number of seconds".to_owned());
                },
            }
            i = i + 2;
        } else if str_eq(flag, "--live") {
            live = true;
            i = i + 1;
        } else {
            let mut e = "unknown sync flag: ".to_owned();
            e.append(flag);
            return Err(e);
        }
    }
    if str_eq(sub.as_str(), "init") {
        Ok(SyncCmd::Init { vault, relay, code })
    } else if str_eq(sub.as_str(), "once") {
        Ok(SyncCmd::Once { vault })
    } else if str_eq(sub.as_str(), "run") {
        Ok(SyncCmd::Run { vault, interval_secs, live })
    } else if str_eq(sub.as_str(), "status") {
        Ok(SyncCmd::Status { vault })
    } else {
        let mut e = "unknown sync subcommand ".to_owned();
        e.append(quoted(sub.as_str()).as_str());
        e.append(" — use init | once | run | status");
        Err(e)
    }
}

// ---------------------------------------------------------------------------
// Configuration
// ---------------------------------------------------------------------------

/// The configuration of a vault's synchronisation.
#[derive(Debug)]
pub struct SyncConfig {
    pub relay_url: String,
    pub vault_code: String,
}

/// The model of a configuration.
#[verifier::ext_equal]
pub struct SyncConfigView {
    pub relay_url: Seq<char>,
    pub vault_code: Seq<char>,
}

impl View for SyncConfig {
    type V = SyncConfigView;

    open spec fn view(&self) -> SyncConfigView {
        SyncConfigView { relay_url: self.relay_url@, vault_code: self.vault_code@ }
    }
}

/// Where the configuration of a vault is.
pub open spec fn config_file(vault: Seq<char>) -> Seq<char> {
    join_path(join_path(join_path(vault, ".tacitus"@), "sync"@), "config.json"@)
}

/// Where the configuration of a vault is.
pub fn config_path(vault: &str) -> (r: String)
    ensures
        r@ == config_file(vault@),
{
    let dir = path_join(vault, ".tacitus");
    let dir = path_join(dir.as_str(), "sync");
    path_join(dir.as_str(), "config.json")
}

/// The writer that remote changes are applied through: it may write, and every
/// commit is marked in the audit log.
pub fn sync_writer(vault: &str) -> (r: NoteWriter)
    ensures
        r.vault_dir@ == vault@,
        r.scope == PermissionScope::ReadWrite,
        opt_text(r.origin) == Some("sync"@),
        r.pending@ == Map::<Seq<char>, Changeset>::empty(),
{
    let mut writer = NoteWriter::new(vault, PermissionScope::ReadWrite);
    writer.set_origin("sync");
    writer
}

/// What reading the file of a configuration gave.
#[derive(Debug)]
pub enum ConfigRead {
    /// It could not be read.
    Missing,
    /// It is no configuration; why not.
    Malformed(String),
    Config(SyncConfig),
}

/// The configuration that a file gives, or why there is none.
pub open spec fn config_read(read: ConfigRead) -> Result<SyncConfigView, Seq<char>> {
    match read {
        ConfigRead::Missing => Err(
            "sync is not set up for this vault — run `tacitus-mcp sync init` first"@,
        ),
        ConfigRead::Malformed(e) => Err("corrupt sync config: "@ + e@),
        ConfigRead::Config(c) => Ok(c@),
    }
}

/// The configuration that a file gives, or why there is none.
pub fn load_config(read: ConfigRead) -> (r: Result<SyncConfig, String>)
    ensures
        match r {
            Ok(c) => config_read(read) == Ok::<SyncConfigView, Seq<char>>(c@),
            Err(m) => config_read(read) == Err::<SyncConfigView, Seq<char>>(m@),
        },
{
    match read {
        ConfigRead::Missing => Err(
            "sync is not set up for this vault — run `tacitus-mcp sync init` first".to_owned(),
        ),
        ConfigRead::Malformed(e) => {
            let mut m = "corrupt sync config: ".to_owned();
            m.append(e.as_str());
            Err(m)
        },
        ConfigRead::Config(c) => Ok(c),
    }
}

/// A configuration as JSON.
pub open spec fn config_json(c: SyncConfigView) -> JsonView {
    JsonView::Object(
        seq![
            ("relay_url"@, JsonView::Text(c.relay_url)),
            ("vault_code"@, JsonView::Text(c.vault_code)),
        ],
    )
}

/// The text that a configuration is stored as. Read as JSON it gives both fields
/// back as they were.
pub fn config_text(config: &SyncConfig) -> (r: String)
    ensures
        r@ == json_pretty(config_json(config@)),
        json_read(r@) == Ok::<JsonView, Seq<char>>(config_json(config@)),
{
    let mut e: Vec<(String, Json)> = Vec::new();
    e.push(("relay_url".to_owned(), Json::Text(config.relay_url.clone())));
    e.push(("vault_code".to_owned(), Json::Text(config.vault_code.clone())));
    assert(json_entries(e@) =~= config_json(config@)->Object_0);
    let j = Json::Object(e);
    proof {
        lemma_json_model(j);
        reveal_strlit("relay_url");
        reveal_strlit("vault_code");
        let v = config_json(config@)->Object_0;
        assert(before(v[0].0, v[1].0)) by {
            assert(v[0].0[0] == 'r' && v[1].0[0] == 'v');
        }
        assert(keys_ascend(v));
    }
    render_json_pretty(&j)
}

// ---------------------------------------------------------------------------
// What is shown
// ---------------------------------------------------------------------------

/// What one pass did.
#[derive(Debug)]
pub struct PassReport {
    pub pushed: usize,
    /// How many notes were written.
    pub notes: usize,
    /// How many memories were written.
    pub memories: usize,
    /// The version to revert to, if anything was written.
    pub version_id: Option<String>,
}

fn number(n: usize) -> (r: String)
    ensures
        r@ == dec(n as nat),
{
    render_u64(n as u64)
}

/// The lines shown once a vault is set up.
pub open spec fn init_text(relay: Seq<char>, vault_id: Seq<char>, code: Seq<char>) -> Seq<Seq<char>> {
    seq![
        "Sync is set up."@,
        "  relay:    "@ + relay,
        "  vault id: "@ + vault_id,
        ""@,
        "Your vault code (paste it on your other devices):"@,
        ""@,
        "  "@ + code,
        ""@,
        "KEEP IT SAFE. It is the encryption key: anyone with the code can"@,
        "read this vault, and if you lose it the relay's copy can never be"@,
        "decrypted again (your local files stay untouched)."@,
    ]
}

fn two(a: &str, b: &str) -> (r: String)
    ensures
        r@ == a@ + b@,
{
    let mut s = a.to_owned();
    s.append(b);
    s
}

/// The lines shown once a vault is set up.
pub fn init_lines(relay: &str, vault_id: &str, code: &str) -> (r: Vec<String>)
    ensures
        texts(r@) == init_text(relay@, vault_id@, code@),
{
    let mut out: Vec<String> = Vec::new();
    out.push("Sync is set up.".to_owned());
    out.push(two("  relay:    ", relay));
    out.push(two("  vault id: ", vault_id));
    out.push("".to_owned());
    out.push("Your vault code (paste it on your other devices):".to_owned());
    out.push("".to_owned());
    out.push(two("  ", code));
    out.push("".to_owned());
    out.push("KEEP IT SAFE. It is the encryption key: anyone with the code can".to_owned());
    out.push("read this vault, and if you lose it the relay's copy can never be".to_owned());
    out.push("decrypted again (your local files stay untouched).".to_owned());
    assert(texts(out@) =~= init_text(relay@, vault_id@, code@));
    out
}

/// The line shown after a single pass.
pub open spec fn once_text(p: PassReport, cursor: u64) -> Seq<char> {
    "synced: pushed "@ + dec(p.pushed as nat) + ", wrote "@ + dec(p.notes as nat) + " note(s) + "@
        + dec(p.memories as nat) + " memory(ies)"@ + match p.version_id {
        Some(v) => " (revertible: "@ + v@ + ")"@,
        None => seq![],
    } + ", cursor at "@ + dec(cursor as nat)
}

/// The line shown after a single pass.
pub fn once_line(p: &PassReport, cursor: u64) -> (r: String)
    ensures
        r@ == once_text(*p, cursor),
{
    let mut s = "synced: pushed ".to_owned();
    s.append(number(p.pushed).as_str());
    s.append(", wrote ");
    s.append(number(p.notes).as_str());
    s.append(" note(s) + ");
    s.append(number(p.memories).as_str());
    s.append(" memory(ies)");
    let ghost head = s@;
    match &p.version_id {
        Some(v) => {
            s.append(" (revertible: ");
            s.append(v.as_str());
            s.append(")");
            assert(s@ =~= head + (" (revertible: "@ + v@ + ")"@));
        },
        None => {
            assert(s@ =~= head + Seq::<char>::empty());
        },
    }
    s.append(", cursor at ");
    s.append(render_u64(cursor).as_str());
    s
}

/// The line shown after a pass of many, unless nothing was pushed and no note
/// was written.
pub fn pass_line(p: &PassReport) -> (r: Option<String>)
    ensures
        opt_text(r) == if p.pushed > 0 || p.notes > 0 {
            Some(
                "synced: pushed "@ + dec(p.pushed as nat) + ", wrote "@ + dec(p.notes as nat)
                    + " note(s)"@,
            )
        } else {
            None
        },
{
    if p.pushed > 0 || p.notes > 0 {
        let mut s = "synced: pushed ".to_owned();
        s.append(number(p.pushed).as_str());
        s.append(", wrote ");
        s.append(number(p.notes).as_str());
        s.append(" note(s)");
        Some(s)
    } else {
        None
    }
}

/// The line shown when a run starts.
pub open spec fn run_text(vault: Seq<char>, interval_secs: u64, live: bool) -> Seq<char> {
    if live {
        "live sync on "@ + vault + " — scan every "@ + dec(interval_secs as nat)
            + "s (Ctrl-C to stop)"@
    } else {
        "syncing "@ + vault + " every "@ + dec(interval_secs as nat) + "s (Ctrl-C to stop)"@
    }
}

/// The line shown when a run starts.
pub fn run_line(vault: &str, interval_secs: u64, live: bool) -> (r: String)
    ensures
        r@ == run_text(vault@, interval_secs, live),
{
    let mut s = if live {
        "live sync on ".to_owned()
    } else {
        "syncing ".to_owned()
    };
    s.append(vault);
    s.append(
        if live {
            " — scan every "
        } else {
            " every "
        },
    );
    s.append(render_u64(interval_secs).as_str());
    s.append("s (Ctrl-C to stop)");
    s
}

/// The lines that show how a vault stands.
pub open spec fn status_text(
    relay: Seq<char>,
    vault_id: Seq<char>,
    device: Seq<char>,
    cursor: u64,
    pending: usize,
) -> Seq<Seq<char>> {
    seq![
        "relay:    "@ + relay,
        "vault id: "@ + vault_id,
        "device:   "@ + device,
        "cursor:   seq "@ + dec(cursor as nat),
        "outbox:   "@ + dec(pending as nat) + " pending push(es)"@,
    ]
}

/// The lines that show how a vault stands.
pub fn status_lines(
    relay: &str,
    vault_id: &str,
    device: &str,
    cursor: u64,
    pending: usize,
) -> (r: Vec<String>)
    ensures
        texts(r@) == status_text(relay@, vault_id@, device@, cursor, pending),
{
    let mut out: Vec<String> = Vec::new();
    out.push(two("relay:    ", relay));
    out.push(two("vault id: ", vault_id));
    out.push(two("device:   ", device));
    out.push(two("cursor:   seq ", render_u64(cursor).as_str()));
    let mut s = two("outbox:   ", number(pending).as_str());
    s.append(" pending push(es)");
    out.push(s);
    assert(texts(out@) =~= status_text(relay@, vault_id@, device@, cursor, pending));
    out
}

/// Another device that is online.
#[derive(Debug)]
pub struct Peer {
    pub device: String,
    pub note_id: Option<String>,
    pub editing: bool,
}

/// What happens in a live session.
#[derive(Debug)]
pub enum LiveEvent {
    Connected { latest_seq: u64 },
    CaughtUp,
    Pushed { count: usize },
    Applied { notes: usize, memories: usize },
    /// The time to the next try stands as text.
    Disconnected { reason: String, retry_in: String },
    Peers(Vec<Peer>),
}

/// How many characters from `i` on take `n` bytes, if the `n`th byte ends one.
pub open spec fn chars_in(s: Seq<char>, n: int, i: int) -> Option<int>
    decreases s.len() - i,
{
    if n == 0 {
        Some(i)
    } else if n < 0 || i < 0 || i >= s.len() {
        None
    } else {
        chars_in(s, n - utf8_len(seq![s[i]]), i + 1)
    }
}

/// Whether a device's name can be cut to twelve bytes.
pub open spec fn can_cut(device: Seq<char>) -> bool {
    utf8_len(device) <= 12 || chars_in(device, 12, 0) is Some
}

/// The first twelve bytes of a device's name.
pub open spec fn short_device(device: Seq<char>) -> Seq<char> {
    if utf8_len(device) <= 12 {
        device
    } else {
        match chars_in(device, 12, 0) {
            Some(k) => device.take(k),
            None => device,
        }
    }
}

/// How a device is shown: its name, and what it looks at or edits.
pub open spec fn peer_text(p: Peer) -> Seq<char> {
    match p.note_id {
        Some(n) => if p.editing {
            short_device(p.device@) + " ✎ "@ + n@
        } else {
            short_device(p.device@) + " → "@ + n@
        },
        None => short_device(p.device@),
    }
}

/// The devices as they are shown.
pub open spec fn peers_text(v: Seq<Peer>) -> Seq<Seq<char>> {
    v.map_values(|p: Peer| peer_text(p))
}

/// The line shown for an event, if there is one.
pub open spec fn event_text(e: LiveEvent) -> Option<Seq<char>> {
    match e {
        LiveEvent::Connected { latest_seq } => Some(
            "connected (relay at seq "@ + dec(latest_seq as nat) + ")"@,
        ),
        LiveEvent::CaughtUp => Some("caught up — streaming"@),
        LiveEvent::Pushed { count } => Some("pushed "@ + dec(count as nat) + " update(s)"@),
        LiveEvent::Applied { notes, memories } => if notes > 0 || memories > 0 {
            Some(
                "applied "@ + dec(notes as nat) + " note(s) + "@ + dec(memories as nat)
                    + " memory(ies)"@,
            )
        } else {
            None
        },
        LiveEvent::Disconnected { reason, retry_in } => Some(
            "disconnected: "@ + reason@ + " — retrying in "@ + retry_in@,
        ),
        LiveEvent::Peers(v) => if v@.len() == 0 {
            Some("no other devices online"@)
        } else {
            Some(dec(v@.len()) + " device(s) online: "@ + join(peers_text(v@), ", "@))
        },
    }
}

/// Whether every device of an event can be shown.
pub open spec fn can_show(e: LiveEvent) -> bool {
    e matches LiveEvent::Peers(v) ==> forall|i: int|
        0 <= i < v@.len() ==> can_cut((#[trigger] v@[i]).device@)
}

fn char_bytes(c: char) -> (n: usize)
    ensures
        n == utf8_len(seq![c]),
        n > 0,
{
    let mut v: Vec<char> = Vec::new();
    v.push(c);
    assert(v@ =~= seq![c]);
    let s = crate::text::string_of(&v);
    proof {
        vstd::utf8::encode_utf8_first_scalar(seq![c]);
    }
    byte_len(s.as_str())
}

fn cut_device(device: &str) -> (r: String)
    requires
        can_cut(device@),
    ensures
        r@ == short_device(device@),
{
    if byte_len(device) <= 12 {
        return device.to_owned();
    }
    let v = chars_of(device);
    let total: usize = v.len();
    let mut left: usize = 12;
    let mut i: usize = 0;
    while left > 0
        invariant
            v@ == device@,
            total == v@.len(),
            i <= total,
            chars_in(device@, 12, 0) is Some,
            chars_in(device@, 12, 0) == chars_in(device@, left as int, i as int),
        decreases left,
    {
        assert(i < total);
        let n: usize = char_bytes(v[i]);
        assert(chars_in(device@, left - n, i + 1) is Some);
        left = left - n;
        i = i + 1;
    }
    assert(v@.subrange(0, i as int) =~= device@.take(i as int));
    string_range(&v, 0, i)
}

fn peer_line(p: &Peer) -> (r: String)
    requires
        can_cut(p.device@),
    ensures
        r@ == peer_text(*p),
{
    let mut s = cut_device(p.device.as_str());
    match &p.note_id {
        Some(n) => {
            s.append(
                if p.editing {
                    " ✎ "
                } else {
                    " → "
                },
            );
            s.append(n.as_str());
        },
        None => {},
    }
    s
}

fn peer_lines(v: &Vec<Peer>) -> (r: Vec<String>)
    requires
        forall|i: int| 0 <= i < v@.len() ==> can_cut((#[trigger] v@[i]).device@),
    ensures
        texts(r@) == peers_text(v@),
{
    let ghost want = peers_text(v@);
    let mut out: Vec<String> = Vec::new();
    let mut i: usize = 0;
    assert(texts(out@) =~= want.take(0));
    while i < v.len()
        invariant
            i <= v@.len(),
            want == peers_text(v@),
            forall|k: int| 0 <= k < v@.len() ==> can_cut((#[trigger] v@[k]).device@),
            texts(out@) == want.take(i as int),
        decreases v@.len() - i,
    {
        let line = peer_line(&v[i]);
        let ghost prev = texts(out@);
        out.push(line);
        assert(texts(out@) =~= prev.push(want[i as int]));
        assert(want.take(i + 1) =~= want.take(i as int).push(want[i as int]));
        i = i + 1;
    }
    assert(want.take(want.len() as int) =~= want);
    out
}

/// The line shown for an event of a live session, if there is one.
pub fn event_line(e: &LiveEvent) -> (r: Option<String>)
    requires
        can_show(*e),
    ensures
        opt_text(r) == event_text(*e),
{
    match e {
        LiveEvent::Connected { latest_seq } => {
            let mut s = two("connected (relay at seq ", render_u64(*latest_seq).as_str());
            s.append(")");
            Some(s)
        },
        LiveEvent::CaughtUp => Some("caught up — streaming".to_owned()),
        LiveEvent::Pushed { count } => {
            let mut s = two("pushed ", number(*count).as_str());
            s.append(" update(s)");
            Some(s)
        },
        LiveEvent::Applied { notes, memories } => {
            if *notes > 0 || *memories > 0 {
                let mut s = two("applied ", number(*notes).as_str());
                s.append(" note(s) + ");
                s.append(number(*memories).as_str());
                s.append(" memory(ies)");
                Some(s)
            } else {
                None
            }
        },
        LiveEvent::Disconnected { reason, retry_in } => {
            let mut s = two("disconnected: ", reason.as_str());
            s.append(" — retrying in ");
            s.append(retry_in.as_str());
            Some(s)
        },
        LiveEvent::Peers(v) => {
            if v.len() == 0 {
                Some("no other devices online".to_owned())
            } else {
                let lines = peer_lines(v);
                let mut s = two(number(v.len()).as_str(), " device(s) online: ");
                s.append(join_strings(&lines, ", ").as_str());
                Some(s)
            }
        },
    }
}

// ---------------------------------------------------------------------------
// The course of a command
// ---------------------------------------------------------------------------

/// What is known of an open engine.
#[derive(Debug)]
pub struct EngineInfo {
    pub vault_id: String,
    pub device_id: String,
    pub last_seq: u64,
    /// How many pushes are pending.
    pub pending: usize,
}

/// How far a sync command has got.
#[derive(Debug)]
pub enum SyncState {
    Start(SyncCmd),
    /// Waits for the code of a new vault.
    Naming { vault: String, relay: String },
    /// Waits until the configuration is stored.
    Saving { vault: String, relay: String, code: String },
    /// Waits for the engine of a new vault.
    Opening { relay: String, code: String },
    /// Waits for the stored configuration.
    Loading(SyncCmd),
    /// Waits for the stored code to be checked.
    Checking { cmd: SyncCmd, config: SyncConfig },
    /// Waits for the engine.
    Resuming { cmd: SyncCmd, config: SyncConfig },
    /// Waits for the end of a pass.
    Passing,
    /// Waits for the end of a run.
    Running,
    Finished,
}

/// What has happened outside.
#[derive(Debug)]
pub enum SyncEvent {
    Begin,
    /// A code was made or checked.
    Code(Result<String, String>),
    Saved(Result<(), String>),
    /// The text of the configuration file, if it can be read.
    ConfigRead(ConfigRead),
    Opened(Result<EngineInfo, String>),
    /// A pass has ended, with the cursor that it left.
    Passed(Result<(PassReport, u64), String>),
    Ended(Result<(), String>),
}

/// What to do next.
#[derive(Debug)]
pub enum SyncAction {
    CheckCode(String),
    MakeCode,
    Save { path: String, text: String },
    ReadConfig(String),
    Open { vault: String, code: String },
    /// One pass through the writer of the vault.
    Pass { vault: String, relay: String },
    /// Passes, or a live session, until the user stops them.
    Run { vault: String, relay: String, interval_secs: u64, live: bool, line: String },
    /// Show these lines; all went well.
    Show(Vec<String>),
    Fail(String),
}

/// The vault of a command.
pub open spec fn cmd_vault(cmd: SyncCmd) -> Seq<char> {
    match cmd {
        SyncCmd::Init { vault, .. } => vault@,
        SyncCmd::Once { vault } => vault@,
        SyncCmd::Run { vault, .. } => vault@,
        SyncCmd::Status { vault } => vault@,
    }
}

fn vault_of(cmd: &SyncCmd) -> (r: String)
    ensures
        r@ == cmd_vault(*cmd),
{
    match cmd {
        SyncCmd::Init { vault, .. } => vault.clone(),
        SyncCmd::Once { vault } => vault.clone(),
        SyncCmd::Run { vault, .. } => vault.clone(),
        SyncCmd::Status { vault } => vault.clone(),
    }
}

/// The command ends with a message.
pub open spec fn fails(s1: SyncState, a: SyncAction, m: Seq<char>) -> bool {
    s1 is Finished && (a matches SyncAction::Fail(x) && x@ == m)
}

/// What a command does once its engine is open.
pub open spec fn resumed(
    cmd: SyncCmd,
    config: SyncConfig,
    info: EngineInfo,
    s1: SyncState,
    a: SyncAction,
) -> bool {
    match cmd {
        SyncCmd::Once { vault } => s1 is Passing && (a matches SyncAction::Pass {
            vault: v,
            relay,
        } && v@ == vault@ && relay@ == config.relay_url@),
        SyncCmd::Run { vault, interval_secs, live } => s1 is Running && (a matches SyncAction::Run {
            vault: v,
            relay,
            interval_secs: n,
            live: l,
            line,
        } && v@ == vault@ && relay@ == config.relay_url@ && n == interval_secs && l == live && line@
            == run_text(vault@, interval_secs, live)),
        SyncCmd::Status { vault } => s1 is Finished && (a matches SyncAction::Show(lines) && texts(
            lines@,
        ) == status_text(
            config.relay_url@,
            info.vault_id@,
            info.device_id@,
            info.last_seq,
            info.pending,
        )),
        SyncCmd::Init { .. } => fails(s1, a, "unexpected event"@),
    }
}

/// One step of a command: what has happened decides what to do next. Every
/// failure ends the command with its message.
pub open spec fn stepped(s0: SyncState, e: SyncEvent, s1: SyncState, a: SyncAction) -> bool {
    match (s0, e) {
        (SyncState::Start(cmd), SyncEvent::Begin) => match cmd {
            SyncCmd::Init { vault, relay, code } => s1 == (SyncState::Naming { vault, relay })
                && match code {
                Some(raw) => a == SyncAction::CheckCode(raw),
                None => a is MakeCode,
            },
            _ => s1 == SyncState::Loading(cmd) && (a matches SyncAction::ReadConfig(p) && p@
                == config_file(cmd_vault(cmd))),
        },
        (SyncState::Naming { vault, relay }, SyncEvent::Code(Ok(code))) => (
        s1 matches SyncState::Saving { vault: v, relay: r, code: c } && v == vault && r == relay
            && c@ == code@) && (a matches SyncAction::Save { path, text } && path@ == config_file(
            vault@,
        ) && text@ == json_pretty(
            config_json(SyncConfigView { relay_url: relay@, vault_code: code@ }),
        )),
        (SyncState::Saving { vault, relay, code }, SyncEvent::Saved(Ok(_))) => (
        s1 matches SyncState::Opening { relay: r, code: c } && r == relay && c@ == code@) && (
        a matches SyncAction::Open { vault: v, code: c } && v == vault && c@ == code@),
        (SyncState::Opening { relay, code }, SyncEvent::Opened(Ok(info))) => s1 is Finished && (
        a matches SyncAction::Show(lines) && texts(lines@) == init_text(
            relay@,
            info.vault_id@,
            code@,
        )),
        (SyncState::Loading(cmd), SyncEvent::ConfigRead(read)) => match config_read(
            read,
        ) {
            Err(m) => fails(s1, a, m),
            Ok(c) => (s1 matches SyncState::Checking { cmd: d, config } && d == cmd && config@ == c)
                && (a matches SyncAction::CheckCode(x) && x@ == c.vault_code),
        },
        (SyncState::Checking { cmd, config }, SyncEvent::Code(Ok(code))) => s1 == (
        SyncState::Resuming { cmd, config }) && (a matches SyncAction::Open { vault, code: c }
            && vault@ == cmd_vault(cmd) && c@ == code@),
        (SyncState::Resuming { cmd, config }, SyncEvent::Opened(Ok(info))) => resumed(
            cmd,
            config,
            info,
            s1,
            a,
        ),
        (SyncState::Passing, SyncEvent::Passed(Ok(p))) => s1 is Finished && (
        a matches SyncAction::Show(lines) && texts(lines@) == seq![once_text(p.0, p.1)]),
        (SyncState::Running, SyncEvent::Ended(Ok(_))) => s1 is Finished && (
        a matches SyncAction::Show(lines) && lines@.len() == 0),
        (SyncState::Naming { .. }, SyncEvent::Code(Err(m))) => fails(s1, a, m@),
        (SyncState::Saving { .. }, SyncEvent::Saved(Err(m))) => fails(s1, a, m@),
        (SyncState::Opening { .. }, SyncEvent::Opened(Err(m))) => fails(s1, a, m@),
        (SyncState::Checking { .. }, SyncEvent::Code(Err(m))) => fails(s1, a, m@),
        (SyncState::Resuming { .. }, SyncEvent::Opened(Err(m))) => fails(s1, a, m@),
        (SyncState::Passing, SyncEvent::Passed(Err(m))) => fails(s1, a, m@),
        (SyncState::Running, SyncEvent::Ended(Err(m))) => fails(s1, a, m@),
        _ => fails(s1, a, "unexpected event"@),
    }
}

fn failure(m: String) -> (r: (SyncState, SyncAction))
    ensures
        fails(r.0, r.1, m@),
{
    (SyncState::Finished, SyncAction::Fail(m))
}

fn resume(cmd: SyncCmd, config: SyncConfig, info: EngineInfo) -> (r: (SyncState, SyncAction))
    ensures
        resumed(cmd, config, info, r.0, r.1),
{
    match cmd {
        SyncCmd::Once { vault } => (
            SyncState::Passing,
            SyncAction::Pass { vault, relay: config.relay_url },
        ),
        SyncCmd::Run { vault, interval_secs, live } => {
            let line = run_line(vault.as_str(), interval_secs, live);
            (
                SyncState::Running,
                SyncAction::Run { vault, relay: config.relay_url, interval_secs, live, line },
            )
        },
        SyncCmd::Status { vault: _ } => {
            let lines = status_lines(
                config.relay_url.as_str(),
                info.vault_id.as_str(),
                info.device_id.as_str(),
                info.last_seq,
                info.pending,
            );
            (SyncState::Finished, SyncAction::Show(lines))
        },
        SyncCmd::Init { .. } => failure("unexpected event".to_owned()),
    }
}

/// One step of a command: what has happened decides what to do next.
pub fn sync_step(state: SyncState, event: SyncEvent) -> (r: (SyncState, SyncAction))
    ensures
        stepped(state, event, r.0, r.1),
{
    match (state, event) {
        (SyncState::Start(cmd), SyncEvent::Begin) => match cmd {
            SyncCmd::Init { vault, relay, code } => {
                let action = match code {
                    Some(raw) => SyncAction::CheckCode(raw),
                    None => SyncAction::MakeCode,
                };
                (SyncState::Naming { vault, relay }, action)
            },
            other => {
                let path = config_path(vault_of(&other).as_str());
                (SyncState::Loading(other), SyncAction::ReadConfig(path))
            },
        },
        (SyncState::Naming { vault, relay }, SyncEvent::Code(Ok(code))) => {
            let path = config_path(vault.as_str());
            let config = SyncConfig { relay_url: relay.clone(), vault_code: code.clone() };
            let text = config_text(&config);
            (SyncState::Saving { vault, relay, code }, SyncAction::Save { path, text })
        },
        (SyncState::Saving { vault, relay, code }, SyncEvent::Saved(Ok(_))) => {
            let opened = code.clone();
            (SyncState::Opening { relay, code }, SyncAction::Open { vault, code: opened })
        },
        (SyncState::Opening { relay, code }, SyncEvent::Opened(Ok(info))) => {
            let lines = init_lines(relay.as_str(), info.vault_id.as_str(), code.as_str());
            (SyncState::Finished, SyncAction::Show(lines))
        },
        (SyncState::Loading(cmd), SyncEvent::ConfigRead(read)) => match load_config(read) {
            Ok(config) => {
                let code = config.vault_code.clone();
                (SyncState::Checking { cmd, config }, SyncAction::CheckCode(code))
            },
            Err(m) => failure(m),
        },
        (SyncState::Checking { cmd, config }, SyncEvent::Code(Ok(code))) => {
            let vault = vault_of(&cmd);
            (SyncState::Resuming { cmd, config }, SyncAction::Open { vault, code })
        },
        (SyncState::Resuming { cmd, config }, SyncEvent::Opened(Ok(info))) => resume(
            cmd,
            config,
            info,
        ),
        (SyncState::Passing, SyncEvent::Passed(Ok(p))) => {
            let mut lines: Vec<String> = Vec::new();
            lines.push(once_line(&p.0, p.1));
            assert(texts(lines@) =~= seq![once_text(p.0, p.1)]);
            (SyncState::Finished, SyncAction::Show(lines))
        },
        (SyncState::Running, SyncEvent::Ended(Ok(_))) => (
            SyncState::Finished,
            SyncAction::Show(Vec::new()),
        ),
        (SyncState::Naming { .. }, SyncEvent::Code(Err(m))) => failure(m),
        (SyncState::Saving { .. }, SyncEvent::Saved(Err(m))) => failure(m),
        (SyncState::Opening { .. }, SyncEvent::Opened(Err(m))) => failure(m),
        (SyncState::Checking { .. }, SyncEvent::Code(Err(m))) => failure(m),
        (SyncState::Resuming { .. }, SyncEvent::Opened(Err(m))) => failure(m),
        (SyncState::Passing, SyncEvent::Passed(Err(m))) => failure(m),
        (SyncState::Running, SyncEvent::Ended(Err(m))) => failure(m),
        _ => failure("unexpected event".to_owned()),
    }
}

} // verus!
