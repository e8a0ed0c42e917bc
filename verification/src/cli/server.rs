//! The server's own start: which vault, under which scope.
use crate::text::{opt_text, str_eq};
use crate::vault::write::PermissionScope;
use vstd::prelude::*;
use vstd::string::*;

verus! {

/// The vault that the arguments after the program's name ask for.
pub open spec fn vault_asked(args: Seq<Seq<char>>) -> Seq<char> {
    if args.len() > 0 {
        args[0]
    } else {
        "."@
    }
}

/// The vault that the arguments after the program's name ask for.
pub fn vault_dir(args: &Vec<String>) -> (r: String)
    ensures
        r@ == vault_asked(crate::text::texts(args@)),
{
    if args.len() > 0 {
        args[0].clone()
    } else {
        ".".to_owned()
    }
}

/// The scope that the variable `TACITUS_SCOPE` asks for: read-only by that
/// name, and read-write otherwise.
pub open spec fn scope_asked(value: Option<Seq<char>>) -> PermissionScope {
    if value == Some("read-only"@) {
        PermissionScope::ReadOnly
    } else {
        PermissionScope::ReadWrite
    }
}

/// The scope that the variable `TACITUS_SCOPE` asks for.
pub fn session_scope(value: &Option<String>) -> (r: PermissionScope)
    ensures
        r == scope_asked(opt_text(*value)),
{
    match value {
        Some(v) => if str_eq(v.as_str(), "read-only") {
            PermissionScope::ReadOnly
        } else {
            PermissionScope::ReadWrite
        },
        None => PermissionScope::ReadWrite,
    }
}

/// What the server says of itself when it starts.
pub open spec fn banner_text(vault: Seq<char>, scope: PermissionScope) -> Seq<char> {
    "tacitus-memory MCP server (Rust) on stdio (vault: "@ + vault + ", scope: "@ + match scope {
        PermissionScope::ReadOnly => "ReadOnly"@,
        PermissionScope::ReadWrite => "ReadWrite"@,
    } + ")"@
}

/// What the server says of itself when it starts.
pub fn banner(vault: &str, scope: PermissionScope) -> (r: String)
    ensures
        r@ == banner_text(vault@, scope),
{
    let mut s = "tacitus-memory MCP server (Rust) on stdio (vault: ".to_owned();
    s.append(vault);
    s.append(", scope: ");
    s.append(
        match scope {
            PermissionScope::ReadOnly => "ReadOnly",
            PermissionScope::ReadWrite => "ReadWrite",
        },
    );
    s.append(")");
    s
}

} // verus!
