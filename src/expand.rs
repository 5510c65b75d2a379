//! The code that the coloring macros expand to.
//!
//! Each function takes the text of the macro's arguments and returns the Rust
//! code that replaces the call.

use vstd::prelude::*;
use crate::error::ColorError;
use crate::scan::{scan, scanned};

verus! {

/// The expansion of a colored literal: the literal itself when there are no
/// arguments, else a `format!` call with the arguments as they were written.
pub open spec fn expansion(text: Seq<char>, args: Seq<char>) -> Seq<char> {
    if args.len() == 0 {
        seq!['"'] + text + seq!['"']
    } else {
        "format!(\""@ + text + seq!['"'] + args + seq![')']
    }
}

/// Colors a string literal and returns the code of the colored value.
///
/// `grammar` is the text of the arguments, for example
/// `"[bold]{} apples", n`.
pub fn colorize(grammar: &str) -> (r: Result<String, ColorError>)
    ensures
        match scanned(grammar@) {
            Ok(p) => r is Ok && r->Ok_0@ == expansion(p.0, p.1),
            Err(f) => r is Err && r->Err_0@ == f,
        },
{
    let parts = scan(grammar)?;
    let mut code: String;
    if parts.args.as_str().is_empty() {
        code = String::from_str("\"");
        code.append(parts.text.as_str());
        code.append("\"");
        proof {
            reveal_strlit("\"");
        }
    } else {
        code = String::from_str("format!(\"");
        code.append(parts.text.as_str());
        code.append("\"");
        code.append(parts.args.as_str());
        code.append(")");
        proof {
            reveal_strlit("\"");
            reveal_strlit(")");
        }
    }
    Ok(code)
}

/// Code that prints the colored text of `grammar`.
pub fn printcol(grammar: &str) -> (r: String)
    ensures
        r@ == "::std::print!(\"{}\", ::fancy::colorize!("@ + grammar@ + "));"@,
{
    let mut code = String::from_str("::std::print!(\"{}\", ::fancy::colorize!(");
    code.append(grammar);
    code.append("));");
    code
}

/// Code that prints the colored text of `grammar` to stderr.
pub fn eprintcol(grammar: &str) -> (r: String)
    ensures
        r@ == "::std::eprint!(\"{}\", ::fancy::colorize!("@ + grammar@ + "));"@,
{
    let mut code = String::from_str("::std::eprint!(\"{}\", ::fancy::colorize!(");
    code.append(grammar);
    code.append("));");
    code
}

/// Code that prints the colored text of `grammar`, then a newline.
pub fn printcoln(grammar: &str) -> (r: String)
    ensures
        r@ == "::fancy::printcol!("@ + grammar@ + "); ::std::println!()"@,
{
    let mut code = String::from_str("::fancy::printcol!(");
    code.append(grammar);
    code.append("); ::std::println!()");
    code
}

/// Code that prints the colored text of `grammar`, then a newline, to stderr.
pub fn eprintcoln(grammar: &str) -> (r: String)
    ensures
        r@ == "::fancy::eprintcol!("@ + grammar@ + "); ::std::eprintln!()"@,
{
    let mut code = String::from_str("::fancy::eprintcol!(");
    code.append(grammar);
    code.append("); ::std::eprintln!()");
    code
}

} // verus!
