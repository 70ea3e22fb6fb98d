use vstd::prelude::*;

use colored::Colorize;

use crate::fmt::Emphasis;
use crate::fmt::TreeLine;

verus! {

/// Whether `s` holds the escape character.
pub open spec fn has_escape(s: Seq<char>) -> bool {
    exists|k: int| 0 <= k < s.len() && s[k] == '\u{1b}'
}

/// `s` between the terminal's select-graphic-rendition sequence with
/// parameters `code` and the reset sequence.
pub open spec fn styled(code: Seq<char>, s: Seq<char>) -> Seq<char> {
    seq!['\u{1b}', '['] + code + seq!['m'] + s + seq!['\u{1b}', '[', '0', 'm']
}

/// The parameters that select bold text in colour `digit` (`4` blue, `6`
/// cyan, `1` red).
pub open spec fn bold_code(digit: char) -> Seq<char> {
    seq!['1', ';', '3', digit]
}

/// Whether `shown` is how `name` may appear with emphasis `e`: unchanged, or,
/// where the terminal takes colours, wrapped in the matching style.
pub open spec fn shown_as(e: Emphasis, name: Seq<char>, shown: Seq<char>) -> bool {
    match e {
        Emphasis::Plain => shown == name,
        Emphasis::Directory => !has_escape(name) ==> (shown == name || shown == styled(
            bold_code('4'),
            name,
        )),
        Emphasis::Symlink => !has_escape(name) ==> (shown == name || shown == styled(
            bold_code('6'),
            name,
        )),
        Emphasis::ReadOnly => !has_escape(name) ==> (shown == name || shown == styled(
            bold_code('1'),
            name,
        )),
    }
}

/// Relies on colored's `blue`, `bold` and `Display`: the text in bold blue
/// where colours are enabled (which the environment decides), else unchanged.
#[verifier::external_body]
fn bold_blue(s: &str) -> (r: String)
    ensures
        !has_escape(s@) ==> (r@ == s@ || r@ == styled(bold_code('4'), s@)),
{
    s.blue().bold().to_string()
}

/// Relies on colored's `cyan`, `bold` and `Display`: the text in bold cyan
/// where colours are enabled (which the environment decides), else unchanged.
#[verifier::external_body]
fn bold_cyan(s: &str) -> (r: String)
    ensures
        !has_escape(s@) ==> (r@ == s@ || r@ == styled(bold_code('6'), s@)),
{
    s.cyan().bold().to_string()
}

/// Relies on colored's `red`, `bold` and `Display`: the text in bold red
/// where colours are enabled (which the environment decides), else unchanged.
#[verifier::external_body]
fn bold_red(s: &str) -> (r: String)
    ensures
        !has_escape(s@) ==> (r@ == s@ || r@ == styled(bold_code('1'), s@)),
{
    s.red().bold().to_string()
}

/// The text of a line as printed: its indentation, then its name with its
/// emphasis.
pub fn line_text(line: &TreeLine) -> (r: String)
    ensures
        r@.len() >= line.prefix@.len(),
        r@.take(line.prefix@.len() as int) == line.prefix@,
        shown_as(line.emphasis, line.name@, r@.skip(line.prefix@.len() as int)),
{
    let shown = match line.emphasis {
        Emphasis::Directory => bold_blue(line.name.as_str()),
        Emphasis::Symlink => bold_cyan(line.name.as_str()),
        Emphasis::ReadOnly => bold_red(line.name.as_str()),
        Emphasis::Plain => line.name.clone(),
    };
    let r = line.prefix.clone().concat(shown.as_str());
    assert(r@.take(line.prefix@.len() as int) =~= line.prefix@);
    assert(r@.skip(line.prefix@.len() as int) =~= shown@);
    r
}

} // verus!
