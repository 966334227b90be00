//! Importing an OpenAPI document into a vault: the version metadata file,
//! one markdown file per operation and per component.

pub mod compat;
pub mod components;
pub mod model;
pub mod oauth;
pub mod parser;
pub mod reader;
pub mod resolver;
pub mod routes;
pub mod schema_helpers;

use vstd::prelude::*;
use crate::error::ApixError;
use crate::text::{chars_of, extend_str, owned, replace_all, replace_str, string_of};

verus! {

/// A value made safe for a markdown table cell: `|` escaped, line breaks
/// (`\r\n`, `\n`, then `\r`) turned into `<br/>`.
pub open spec fn table_cell(v: Seq<char>) -> Seq<char> {
    replace_all(
        replace_all(replace_all(replace_all(v, "|"@, "\\|"@), "\r\n"@, "<br/>"@), "\n"@, "<br/>"@),
        "\r"@,
        "<br/>"@,
    )
}

/// A sanitised value stays on one table row: it holds no line break.
pub proof fn law_table_cell_has_no_line_break(v: Seq<char>)
    ensures
        !table_cell(v).contains('\n'),
        !table_cell(v).contains('\r'),
{
    reveal_strlit("\n");
    reveal_strlit("\r");
    reveal_strlit("<br/>");
    let br = "<br/>"@;
    assert(!br.contains('\n')) by {
        if br.contains('\n') {
            let i = choose|i: int| 0 <= i < br.len() && br[i] == '\n';
        }
    }
    assert(!br.contains('\r')) by {
        if br.contains('\r') {
            let i = choose|i: int| 0 <= i < br.len() && br[i] == '\r';
        }
    }
    let a = replace_all(v, "|"@, "\\|"@);
    let b = replace_all(a, "\r\n"@, br);
    let c = replace_all(b, "\n"@, br);
    assert("\n"@ == seq!['\n']);
    assert("\r"@ == seq!['\r']);
    crate::text::lemma_replace_lacks(b, "\n"@, br, '\n');
    crate::text::lemma_replace_lacks(c, "\r"@, br, '\n');
    crate::text::lemma_replace_lacks(c, "\r"@, br, '\r');
}

/// Escapes a value for a markdown table cell.
pub fn sanitize_markdown_table_cell(value: &str) -> (r: String)
    ensures
        r@ == table_cell(value@),
{
    proof {
        reveal_strlit("|");
        reveal_strlit("\r\n");
        reveal_strlit("\n");
        reveal_strlit("\r");
    }
    let v = chars_of(value);
    let a = replace_str(v.as_slice(), "|", "\\|");
    let b = replace_str(a.as_slice(), "\r\n", "<br/>");
    let c = replace_str(b.as_slice(), "\n", "<br/>");
    let d = replace_str(c.as_slice(), "\r", "<br/>");
    string_of(d.as_slice())
}

/// The directory a version is imported to: `<output>/<namespace>/<version>`
/// when an output root is given, else the local source of the apix home.
pub fn target_version_root(namespace: &str, version: &str, output_root: Option<&str>, home: &str) -> (r:
    String)
    ensures
        r@ == match output_root {
            Some(o) => crate::paths::join(crate::paths::join(o@, namespace@), version@),
            None => crate::paths::join(
                crate::paths::join(
                    crate::vault::resolver::source_root_spec(home@, ".local"@),
                    namespace@,
                ),
                version@,
            ),
        },
{
    let base = match output_root {
        Some(o) => owned(o),
        None => crate::vault::resolver::source_root(home, ".local"),
    };
    let ns = crate::paths::join_str(base.as_str(), namespace);
    crate::paths::join_str(ns.as_str(), version)
}

/// Whether an import may go ahead: a target that exists is refused unless
/// overwriting was asked for (then it is replaced).
pub fn check_import_target(root: &str, exists: bool, overwrite: bool) -> (r: Result<(), ApixError>)
    ensures
        exists && !overwrite ==> (r matches Err(ApixError::Config(m)) && m@ == "Target already exists: "@
            + root@ + ". Use --overwrite to replace it."@),
        !(exists && !overwrite) ==> r is Ok,
{
    if exists && !overwrite {
        let mut m: Vec<char> = Vec::new();
        extend_str(&mut m, "Target already exists: ");
        extend_str(&mut m, root);
        extend_str(&mut m, ". Use --overwrite to replace it.");
        return Err(ApixError::Config(string_of(m.as_slice())));
    }
    Ok(())
}

} // verus!
