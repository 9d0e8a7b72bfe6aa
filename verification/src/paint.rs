//! Terminal colours, produced by `owo-colors`.
//!
//! Each wrapper below calls one `OwoColorize` method and turns the result
//! into a `String`; its contract states the ANSI escape sequences that the
//! `Display` impl of the `owo-colors` wrapper type writes around the text.

use owo_colors::OwoColorize;
use vstd::prelude::*;

verus! {

/// `s` in green: `ESC[32m` before, `ESC[39m` after.
pub open spec fn green(s: Seq<char>) -> Seq<char> {
    "\x1b[32m"@ + s + "\x1b[39m"@
}

/// `s` in red: `ESC[31m` before, `ESC[39m` after.
pub open spec fn red(s: Seq<char>) -> Seq<char> {
    "\x1b[31m"@ + s + "\x1b[39m"@
}

/// `s` in yellow: `ESC[33m` before, `ESC[39m` after.
pub open spec fn yellow(s: Seq<char>) -> Seq<char> {
    "\x1b[33m"@ + s + "\x1b[39m"@
}

/// `s` in cyan: `ESC[36m` before, `ESC[39m` after.
pub open spec fn cyan(s: Seq<char>) -> Seq<char> {
    "\x1b[36m"@ + s + "\x1b[39m"@
}

/// `s` in bold: `ESC[1m` before, `ESC[0m` after.
pub open spec fn bold(s: Seq<char>) -> Seq<char> {
    "\x1b[1m"@ + s + "\x1b[0m"@
}

/// `s` dimmed: `ESC[2m` before, `ESC[0m` after.
pub open spec fn dimmed(s: Seq<char>) -> Seq<char> {
    "\x1b[2m"@ + s + "\x1b[0m"@
}

/// `s` underlined: `ESC[4m` before, `ESC[0m` after.
pub open spec fn underline(s: Seq<char>) -> Seq<char> {
    "\x1b[4m"@ + s + "\x1b[0m"@
}

/// `OwoColorize::green`, rendered: the text between `ESC[32m` and `ESC[39m`.
#[verifier::external_body]
pub(crate) fn paint_green(s: &str) -> (r: String)
    ensures
        r@ == green(s@),
{
    s.green().to_string()
}

/// `OwoColorize::red`, rendered: the text between `ESC[31m` and `ESC[39m`.
#[verifier::external_body]
pub(crate) fn paint_red(s: &str) -> (r: String)
    ensures
        r@ == red(s@),
{
    s.red().to_string()
}

/// `OwoColorize::yellow`, rendered: the text between `ESC[33m` and `ESC[39m`.
#[verifier::external_body]
pub(crate) fn paint_yellow(s: &str) -> (r: String)
    ensures
        r@ == yellow(s@),
{
    s.yellow().to_string()
}

/// `OwoColorize::cyan`, rendered: the text between `ESC[36m` and `ESC[39m`.
#[verifier::external_body]
pub(crate) fn paint_cyan(s: &str) -> (r: String)
    ensures
        r@ == cyan(s@),
{
    s.cyan().to_string()
}

/// `OwoColorize::bold`, rendered: the text between `ESC[1m` and `ESC[0m`.
#[verifier::external_body]
pub(crate) fn paint_bold(s: &str) -> (r: String)
    ensures
        r@ == bold(s@),
{
    s.bold().to_string()
}

/// `OwoColorize::dimmed`, rendered: the text between `ESC[2m` and `ESC[0m`.
#[verifier::external_body]
pub(crate) fn paint_dimmed(s: &str) -> (r: String)
    ensures
        r@ == dimmed(s@),
{
    s.dimmed().to_string()
}

/// `OwoColorize::underline`, rendered: the text between `ESC[4m` and `ESC[0m`.
#[verifier::external_body]
pub(crate) fn paint_underline(s: &str) -> (r: String)
    ensures
        r@ == underline(s@),
{
    s.underline().to_string()
}

} // verus!
