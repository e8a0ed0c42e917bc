//! What arguments ask for, whatever their order.
use crate::cli::plugin::{
    is_success, level_name, plugin_asked, plugin_flags, PluginCmdView, PluginFlags,
};
use crate::cli::server::{scope_asked, vault_asked};
use crate::cli::sync::{
    config_file, stepped, sync_asked, sync_flags, ConfigRead, SyncAction, SyncCmd, SyncCmdView,
    SyncEvent, SyncFlags, SyncState,
};
use crate::numbers::nat_of;
use crate::text::has_prefix;
use crate::vault::json::{json_get, json_pretty, JsonView};
use crate::vault::write::PermissionScope;
use vstd::prelude::*;

verus! {

// ---------------------------------------------------------------------------
// Plugin commands
// ---------------------------------------------------------------------------

proof fn lemma_plugin_flags_on(
    args: Seq<Seq<char>>,
    more: Seq<Seq<char>>,
    i: int,
    f: PluginFlags,
)
    requires
        0 <= i <= args.len(),
        plugin_flags(args, i, f) is Ok,
    ensures
        plugin_flags(args + more, i, f) == plugin_flags(
            args + more,
            args.len() as int,
            plugin_flags(args, i, f)->Ok_0,
        ),
    decreases args.len() - i,
{
    let all = args + more;
    if i < args.len() {
        assert(all[i] == args[i]);
        if i + 1 < args.len() {
            assert(all[i + 1] == args[i + 1]);
        }
        if args[i] == "--vault"@ {
            lemma_plugin_flags_on(args, more, i + 2, PluginFlags { vault: args[i + 1], ..f });
        } else if args[i] == "--input"@ {
            lemma_plugin_flags_on(args, more, i + 2, PluginFlags { input: args[i + 1], ..f });
        } else if args[i] == "--timeout-ms"@ {
            let n = nat_of(args[i + 1])->0;
            lemma_plugin_flags_on(args, more, i + 2, PluginFlags { timeout_ms: n as u64, ..f });
        } else {
            lemma_plugin_flags_on(args, more, i + 1, PluginFlags { name: Some(args[i]), ..f });
        }
    }
}

/// A flag behind others sets its own value and leaves the rest, so that of two the last
/// counts. A flag without its value, an unknown flag and a second name are refused.
pub proof fn law_a_plugin_flag_sets_its_own_value(
    args: Seq<Seq<char>>,
    i: int,
    f: PluginFlags,
    value: Seq<char>,
)
    requires
        0 <= i <= args.len(),
        plugin_flags(args, i, f) is Ok,
    ensures
        ({
            let g = plugin_flags(args, i, f)->Ok_0;
            &&& plugin_flags(args + seq!["--vault"@, value], i, f) == Ok::<PluginFlags, Seq<char>>(
                PluginFlags { vault: value, ..g },
            )
            &&& plugin_flags(args + seq!["--input"@, value], i, f) == Ok::<PluginFlags, Seq<char>>(
                PluginFlags { input: value, ..g },
            )
            &&& nat_of(value) is Some && nat_of(value)->0 <= u64::MAX ==> plugin_flags(
                args + seq!["--timeout-ms"@, value],
                i,
                f,
            ) == Ok::<PluginFlags, Seq<char>>(
                PluginFlags { timeout_ms: nat_of(value)->0 as u64, ..g },
            )
            &&& nat_of(value) is None ==> plugin_flags(args + seq!["--timeout-ms"@, value], i, f)
                is Err
            &&& plugin_flags(args + seq!["--vault"@], i, f) is Err
            &&& plugin_flags(args + seq!["--input"@], i, f) is Err
            &&& plugin_flags(args + seq!["--timeout-ms"@], i, f) is Err
            &&& !has_prefix(value, "--"@) && g.name is None ==> plugin_flags(
                args + seq![value],
                i,
                f,
            ) == Ok::<PluginFlags, Seq<char>>(PluginFlags { name: Some(value), ..g })
            &&& !has_prefix(value, "--"@) && g.name is Some ==> plugin_flags(
                args + seq![value],
                i,
                f,
            ) is Err
        }),
{
    reveal_strlit("--vault");
    reveal_strlit("--input");
    reveal_strlit("--timeout-ms");
    reveal_strlit("--");
    assert("--vault"@[2] == 'v' && "--input"@[2] == 'i' && "--timeout-ms"@[2] == 't');
    let g = plugin_flags(args, i, f)->Ok_0;
    let n: int = args.len() as int;
    let v = seq!["--vault"@, value];
    let p = seq!["--input"@, value];
    let t = seq!["--timeout-ms"@, value];
    lemma_plugin_flags_on(args, v, i, f);
    lemma_plugin_flags_on(args, p, i, f);
    lemma_plugin_flags_on(args, t, i, f);
    lemma_plugin_flags_on(args, seq!["--vault"@], i, f);
    lemma_plugin_flags_on(args, seq!["--input"@], i, f);
    lemma_plugin_flags_on(args, seq!["--timeout-ms"@], i, f);
    lemma_plugin_flags_on(args, seq![value], i, f);
    assert((args + v)[n] == "--vault"@ && (args + v)[n + 1] == value);
    assert((args + p)[n] == "--input"@ && (args + p)[n + 1] == value);
    assert((args + t)[n] == "--timeout-ms"@ && (args + t)[n + 1] == value);
    assert((args + seq!["--vault"@])[n] == "--vault"@);
    assert((args + seq!["--input"@])[n] == "--input"@);
    assert((args + seq!["--timeout-ms"@])[n] == "--timeout-ms"@);
    assert((args + seq![value])[n] == value);
    assert(plugin_flags(args + v, n + 2, PluginFlags { vault: value, ..g }) == Ok::<
        PluginFlags,
        Seq<char>,
    >(PluginFlags { vault: value, ..g }));
    assert(plugin_flags(args + p, n + 2, PluginFlags { input: value, ..g }) == Ok::<
        PluginFlags,
        Seq<char>,
    >(PluginFlags { input: value, ..g }));
    if nat_of(value) is Some && nat_of(value)->0 <= u64::MAX {
        let ms = nat_of(value)->0 as u64;
        assert(plugin_flags(args + t, n + 2, PluginFlags { timeout_ms: ms, ..g }) == Ok::<
            PluginFlags,
            Seq<char>,
        >(PluginFlags { timeout_ms: ms, ..g }));
    }
    if !has_prefix(value, "--"@) {
        assert(value != "--vault"@ && value != "--input"@ && value != "--timeout-ms"@) by {
            assert("--vault"@.subrange(0, 2) =~= "--"@);
            assert("--input"@.subrange(0, 2) =~= "--"@);
            assert("--timeout-ms"@.subrange(0, 2) =~= "--"@);
        }
        if g.name is None {
            assert(plugin_flags(args + seq![value], n + 1, PluginFlags { name: Some(value), ..g })
                == Ok::<PluginFlags, Seq<char>>(PluginFlags { name: Some(value), ..g }));
        }
    }
}

/// Without flags a plugin command is for the vault here, with an empty object as its input
/// and half a minute of time; a run needs a name.
pub proof fn law_plugin_commands_have_defaults(name: Seq<char>)
    requires
        !has_prefix(name, "--"@),
    ensures
        plugin_asked(seq!["list"@]) == Ok::<PluginCmdView, Seq<char>>(
            PluginCmdView::List { vault: "."@ },
        ),
        plugin_asked(seq!["run"@]) is Err,
        plugin_asked(seq!["run"@, name]) == Ok::<PluginCmdView, Seq<char>>(
            PluginCmdView::Run { vault: "."@, name, input: "{}"@, timeout_ms: 30_000 },
        ),
{
    reveal_strlit("list");
    reveal_strlit("run");
    assert("list"@.len() != "run"@.len());
    let f = PluginFlags { vault: "."@, input: "{}"@, timeout_ms: 30_000, name: None };
    law_a_plugin_flag_sets_its_own_value(seq!["run"@], 1, f, name);
    assert(seq!["run"@] + seq![name] =~= seq!["run"@, name]);
    assert(plugin_flags(seq!["run"@], 1, f) == Ok::<PluginFlags, Seq<char>>(f));
    assert(plugin_flags(seq!["list"@], 1, f) == Ok::<PluginFlags, Seq<char>>(f));
    assert(seq!["run"@, name][0] == "run"@);
}

/// The levels of a log line have their names.
pub proof fn law_log_levels_have_names(level: u8)
    ensures
        level == 0 ==> level_name(level) == "debug"@,
        level == 1 ==> level_name(level) == "info"@,
        level == 2 ==> level_name(level) == "warn"@,
        level >= 3 ==> level_name(level) == "error"@,
{
}

/// A run succeeded exactly where its envelope says so.
pub proof fn law_a_run_succeeds_where_it_says_so(e: Seq<(Seq<char>, JsonView)>)
    ensures
        is_success(JsonView::Object(e)) <==> json_get(e, "ok"@) == Some(JsonView::Bool(true)),
{
}

// ---------------------------------------------------------------------------
// The server
// ---------------------------------------------------------------------------

/// The server serves the vault that is named, or the one here, and is read-only exactly
/// where that is asked for.
pub proof fn law_a_server_writes_unless_told_not_to(
    args: Seq<Seq<char>>,
    value: Option<Seq<char>>,
)
    ensures
        args.len() > 0 ==> vault_asked(args) == args[0],
        args.len() == 0 ==> vault_asked(args) == "."@,
        scope_asked(value) == PermissionScope::ReadOnly <==> value == Some("read-only"@),
{
}

// ---------------------------------------------------------------------------
// Sync commands
// ---------------------------------------------------------------------------

proof fn lemma_sync_flags_on(
    args: Seq<Seq<char>>,
    more: Seq<Seq<char>>,
    i: int,
    f: SyncFlags,
)
    requires
        0 <= i <= args.len(),
        sync_flags(args, i, f) is Ok,
    ensures
        sync_flags(args + more, i, f) == sync_flags(
            args + more,
            args.len() as int,
            sync_flags(args, i, f)->Ok_0,
        ),
    decreases args.len() - i,
{
    let all = args + more;
    if i < args.len() {
        assert(all[i] == args[i]);
        if i + 1 < args.len() {
            assert(all[i + 1] == args[i + 1]);
        }
        if args[i] == "--vault"@ {
            lemma_sync_flags_on(args, more, i + 2, SyncFlags { vault: args[i + 1], ..f });
        } else if args[i] == "--relay"@ {
            lemma_sync_flags_on(args, more, i + 2, SyncFlags { relay: args[i + 1], ..f });
        } else if args[i] == "--code"@ {
            lemma_sync_flags_on(args, more, i + 2, SyncFlags { code: Some(args[i + 1]), ..f });
        } else if args[i] == "--interval"@ {
            let n = nat_of(args[i + 1])->0;
            lemma_sync_flags_on(args, more, i + 2, SyncFlags { interval_secs: n as u64, ..f });
        } else {
            lemma_sync_flags_on(args, more, i + 1, SyncFlags { live: true, ..f });
        }
    }
}

/// A flag behind others sets its own value and leaves the rest, so that of two the last
/// counts.
pub proof fn law_a_sync_flag_sets_its_own_value(
    args: Seq<Seq<char>>,
    i: int,
    f: SyncFlags,
    value: Seq<char>,
)
    requires
        0 <= i <= args.len(),
        sync_flags(args, i, f) is Ok,
    ensures
        ({
            let g = sync_flags(args, i, f)->Ok_0;
            &&& sync_flags(args + seq!["--vault"@, value], i, f) == Ok::<SyncFlags, Seq<char>>(
                SyncFlags { vault: value, ..g },
            )
            &&& sync_flags(args + seq!["--relay"@, value], i, f) == Ok::<SyncFlags, Seq<char>>(
                SyncFlags { relay: value, ..g },
            )
            &&& sync_flags(args + seq!["--code"@, value], i, f) == Ok::<SyncFlags, Seq<char>>(
                SyncFlags { code: Some(value), ..g },
            )
            &&& nat_of(value) is Some && nat_of(value)->0 <= u64::MAX ==> sync_flags(
                args + seq!["--interval"@, value],
                i,
                f,
            ) == Ok::<SyncFlags, Seq<char>>(
                SyncFlags { interval_secs: nat_of(value)->0 as u64, ..g },
            )
            &&& nat_of(value) is None ==> sync_flags(args + seq!["--interval"@, value], i, f) is Err
            &&& sync_flags(args + seq!["--live"@], i, f) == Ok::<SyncFlags, Seq<char>>(
                SyncFlags { live: true, ..g },
            )
        }),
{
    reveal_strlit("--vault");
    reveal_strlit("--relay");
    reveal_strlit("--code");
    reveal_strlit("--interval");
    reveal_strlit("--live");
    assert("--vault"@[2] == 'v' && "--relay"@[2] == 'r' && "--code"@[2] == 'c' && "--interval"@[2]
        == 'i' && "--live"@[2] == 'l');
    let g = sync_flags(args, i, f)->Ok_0;
    let n: int = args.len() as int;
    let v = seq!["--vault"@, value];
    let r = seq!["--relay"@, value];
    let c = seq!["--code"@, value];
    let t = seq!["--interval"@, value];
    let l = seq!["--live"@];
    lemma_sync_flags_on(args, v, i, f);
    lemma_sync_flags_on(args, r, i, f);
    lemma_sync_flags_on(args, c, i, f);
    lemma_sync_flags_on(args, t, i, f);
    lemma_sync_flags_on(args, l, i, f);
    assert((args + v)[n] == "--vault"@ && (args + v)[n + 1] == value);
    assert((args + r)[n] == "--relay"@ && (args + r)[n + 1] == value);
    assert((args + c)[n] == "--code"@ && (args + c)[n + 1] == value);
    assert((args + t)[n] == "--interval"@ && (args + t)[n + 1] == value);
    assert((args + l)[n] == "--live"@);
    assert(sync_flags(args + v, n + 2, SyncFlags { vault: value, ..g }) == Ok::<
        SyncFlags,
        Seq<char>,
    >(SyncFlags { vault: value, ..g }));
    assert(sync_flags(args + r, n + 2, SyncFlags { relay: value, ..g }) == Ok::<
        SyncFlags,
        Seq<char>,
    >(SyncFlags { relay: value, ..g }));
    assert(sync_flags(args + c, n + 2, SyncFlags { code: Some(value), ..g }) == Ok::<
        SyncFlags,
        Seq<char>,
    >(SyncFlags { code: Some(value), ..g }));
    if nat_of(value) is Some && nat_of(value)->0 <= u64::MAX {
        let secs = nat_of(value)->0 as u64;
        assert(sync_flags(args + t, n + 2, SyncFlags { interval_secs: secs, ..g }) == Ok::<
            SyncFlags,
            Seq<char>,
        >(SyncFlags { interval_secs: secs, ..g }));
    }
    assert(sync_flags(args + l, n + 1, SyncFlags { live: true, ..g }) == Ok::<
        SyncFlags,
        Seq<char>,
    >(SyncFlags { live: true, ..g }));
}

/// Without flags a sync command is for the vault here; it is set up for the public relay
/// with a new code, and runs every thirty seconds, not live.
pub proof fn law_sync_commands_have_defaults()
    ensures
        sync_asked(seq!["init"@]) == Ok::<SyncCmdView, Seq<char>>(
            SyncCmdView::Init { vault: "."@, relay: "wss://sync.tacitus.md"@, code: None },
        ),
        sync_asked(seq!["once"@]) == Ok::<SyncCmdView, Seq<char>>(SyncCmdView::Once { vault: "."@ }),
        sync_asked(seq!["run"@]) == Ok::<SyncCmdView, Seq<char>>(
            SyncCmdView::Run { vault: "."@, interval_secs: 30, live: false },
        ),
        sync_asked(seq!["status"@]) == Ok::<SyncCmdView, Seq<char>>(
            SyncCmdView::Status { vault: "."@ },
        ),
{
    reveal_strlit("init");
    reveal_strlit("once");
    reveal_strlit("run");
    reveal_strlit("status");
    assert("init"@[0] == 'i' && "once"@[0] == 'o' && "run"@[0] == 'r' && "status"@[0] == 's');
}

/// A setup keeps what it was told: the configuration that is saved for the vault holds its
/// relay and its code, and the engine is opened with that code.
pub proof fn law_a_setup_keeps_its_relay_and_code(
    vault: String,
    relay: String,
    code: String,
    s1: SyncState,
    a1: SyncAction,
    s2: SyncState,
    a2: SyncAction,
)
    requires
        stepped(SyncState::Naming { vault, relay }, SyncEvent::Code(Ok(code)), s1, a1),
        stepped(s1, SyncEvent::Saved(Ok(())), s2, a2),
    ensures
        a1 matches SyncAction::Save { path, text } && path@ == config_file(vault@) && text@
            == json_pretty(
            JsonView::Object(
                seq![
                    ("relay_url"@, JsonView::Text(relay@)),
                    ("vault_code"@, JsonView::Text(code@)),
                ],
            ),
        ),
        a2 matches SyncAction::Open { vault: v, code: c } && v@ == vault@ && c@ == code@,
{
}

/// A pass goes where the configuration says: with the vault of the command, the code of the
/// configuration is checked, the engine opened, and the relay of the configuration used.
pub proof fn law_a_pass_goes_where_the_configuration_says(
    vault: String,
    config: crate::cli::sync::SyncConfig,
    s1: SyncState,
    a1: SyncAction,
    code: String,
    s2: SyncState,
    a2: SyncAction,
    info: crate::cli::sync::EngineInfo,
    s3: SyncState,
    a3: SyncAction,
)
    requires
        stepped(
            SyncState::Loading(SyncCmd::Once { vault }),
            SyncEvent::ConfigRead(ConfigRead::Config(config)),
            s1,
            a1,
        ),
        stepped(s1, SyncEvent::Code(Ok(code)), s2, a2),
        stepped(s2, SyncEvent::Opened(Ok(info)), s3, a3),
    ensures
        a1 matches SyncAction::CheckCode(x) && x@ == config.vault_code@,
        a2 matches SyncAction::Open { vault: v, code: c } && v@ == vault@ && c@ == code@,
        a3 matches SyncAction::Pass { vault: v, relay } && v@ == vault@ && relay@
            == config.relay_url@,
{
}

} // verus!
