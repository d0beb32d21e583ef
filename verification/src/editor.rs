//! The editor extension's choice of the language server command.
use vstd::prelude::*;
use crate::cli::{opt_view, strings_view};
use crate::text::{chars_of, eq_lit, push_all, string_of};

verus! {

/// A command line: the program and its arguments.
#[derive(Debug, Clone)]
pub struct ServerCommand {
    pub command: String,
    pub args: Vec<String>,
}

/// `language_server_command`: for the `rusk-lsp` server, the configured binary path if
/// there is one, else the one found on the `PATH`, with the configured arguments (none
/// when unset); an error for another server or when no binary is found.
pub open spec fn spec_language_server_command(
    id: Seq<char>,
    binary_path: Option<Seq<char>>,
    binary_args: Option<Seq<Seq<char>>>,
    found_on_path: Option<Seq<char>>,
) -> Result<(Seq<char>, Seq<Seq<char>>), Seq<char>> {
    let args = match binary_args {
        Some(a) => a,
        None => Seq::empty(),
    };
    if id != "rusk-lsp"@ {
        Err("unknown language server: "@ + id)
    } else {
        match binary_path {
            Some(p) => Ok((p, args)),
            None => match found_on_path {
                Some(p) => Ok((p, args)),
                None => Err(
                    "rusk-lsp not found in PATH; install it with `cargo install --path crates/rusk --bin rusk-lsp` or configure lsp.rusk-lsp.binary.path"@,
                ),
            },
        }
    }
}

pub fn language_server_command(
    id: &str,
    binary_path: Option<String>,
    binary_args: Option<Vec<String>>,
    found_on_path: Option<String>,
) -> (r: Result<ServerCommand, String>)
    ensures
        match (
            r,
            spec_language_server_command(
                id@,
                opt_view(binary_path),
                match binary_args {
                    Some(a) => Some(strings_view(a@)),
                    None => None,
                },
                opt_view(found_on_path),
            ),
        ) {
            (Ok(c), Ok((p, a))) => c.command@ == p && strings_view(c.args@) == a,
            (Err(m), Err(n)) => m@ == n,
            _ => false,
        },
{
    let id_chars = chars_of(id);
    if !eq_lit(&id_chars, "rusk-lsp") {
        let mut m = chars_of("unknown language server: ");
        push_all(&mut m, &id_chars);
        return Err(string_of(&m));
    }
    let args = match binary_args {
        Some(a) => a,
        None => {
            let empty: Vec<String> = Vec::new();
            assert(strings_view(empty@) =~= Seq::<Seq<char>>::empty());
            empty
        },
    };
    if let Some(path) = binary_path {
        Ok(ServerCommand { command: path, args })
    } else if let Some(path) = found_on_path {
        Ok(ServerCommand { command: path, args })
    } else {
        Err(
            "rusk-lsp not found in PATH; install it with `cargo install --path crates/rusk --bin rusk-lsp` or configure lsp.rusk-lsp.binary.path".to_owned(),
        )
    }
}


/// Whether the extension serves this language server (`rusk-lsp` only).
pub fn is_known_server(id: &str) -> (r: bool)
    ensures
        r == (id@ == "rusk-lsp"@),
{
    eq_lit(&chars_of(id), "rusk-lsp")
}

} // verus!
