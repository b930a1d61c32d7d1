//! Shell code: the calls into `shell_escape`.

use std::borrow::Cow;
use vstd::prelude::*;
use crate::strmap::{lemma_sorted_texts, sorted_items, texts, StrMap};

verus! {

/// The kind of shell that words are quoted for.
#[derive(Clone, Copy, Debug, PartialEq, Eq, Structural)]
pub enum Shell {
    /// A Unix shell, which also runs under MSYS.
    Unix,
    /// The shell of Windows.
    Windows,
}

/// A character that a Unix shell takes as it is.
pub open spec fn is_plain(c: char) -> bool {
    ||| 'a' <= c <= 'z'
    ||| 'A' <= c <= 'Z'
    ||| '0' <= c <= '9'
    ||| c == '-' || c == '_' || c == '=' || c == '/' || c == ',' || c == '.' || c == '+'
}

/// A character inside single quotes. A quote and an exclamation mark leave
/// them for a moment.
pub open spec fn quoted_char(c: char) -> Seq<char> {
    if c == '\'' || c == '!' {
        seq!['\'', '\\', c, '\'']
    } else {
        seq![c]
    }
}

/// The inside of single quotes around a text.
pub open spec fn quoted_chars(text: Seq<char>) -> Seq<char>
    decreases text.len(),
{
    if text.len() == 0 {
        Seq::empty()
    } else {
        quoted_chars(text.drop_last()) + quoted_char(text.last())
    }
}

/// A text as one word of a Unix shell: as it is where every character is
/// plain, else in single quotes.
pub open spec fn unix_quoted(text: Seq<char>) -> Seq<char> {
    if text.len() > 0 && (forall|i: int| 0 <= i < text.len() ==> is_plain(#[trigger] text[i])) {
        text
    } else {
        seq!['\''] + quoted_chars(text) + seq!['\'']
    }
}

/// A character for which the shell of Windows needs quotes.
pub open spec fn splits_words(c: char) -> bool {
    c == '"' || c == '\t' || c == '\n' || c == ' '
}

/// So many backslashes.
pub open spec fn backslashes(n: nat) -> Seq<char> {
    Seq::new(n, |i: int| '\\')
}

/// The inside of double quotes around a text that so many backslashes precede.
/// Backslashes before a quote or at the end are doubled, and a quote gets one
/// of its own.
pub open spec fn escaped_chars(text: Seq<char>, pending: nat) -> Seq<char>
    decreases text.len(),
{
    if text.len() == 0 {
        backslashes(2 * pending)
    } else if text[0] == '\\' {
        escaped_chars(text.drop_first(), pending + 1)
    } else if text[0] == '"' {
        backslashes(2 * pending + 1) + seq!['"'] + escaped_chars(text.drop_first(), 0)
    } else {
        backslashes(pending) + seq![text[0]] + escaped_chars(text.drop_first(), 0)
    }
}

/// A text as one word of the shell of Windows: as it is where nothing in it
/// splits words, else in double quotes.
pub open spec fn windows_quoted(text: Seq<char>) -> Seq<char> {
    if text.len() > 0 && (forall|i: int|
        0 <= i < text.len() ==> !splits_words(#[trigger] text[i])) {
        text
    } else {
        seq!['"'] + escaped_chars(text, 0) + seq!['"']
    }
}

/// A text as one word of a shell.
pub open spec fn shell_quoted(shell: Shell, text: Seq<char>) -> Seq<char> {
    match shell {
        Shell::Unix => unix_quoted(text),
        Shell::Windows => windows_quoted(text),
    }
}

/// `shell_escape::unix::escape` leaves a text of plain characters as it is and
/// puts any other one in single quotes.
#[verifier::external_body]
fn unix_quote(text: &str) -> (r: String)
    ensures
        r@ == unix_quoted(text@),
{
    shell_escape::unix::escape(Cow::Borrowed(text)).into_owned()
}

/// `shell_escape::windows::escape` leaves a text as it is where nothing in it
/// splits words, and puts any other one in double quotes.
#[verifier::external_body]
fn windows_quote(text: &str) -> (r: String)
    ensures
        r@ == windows_quoted(text@),
{
    shell_escape::windows::escape(Cow::Borrowed(text)).into_owned()
}

/// A text as one word of a shell.
pub fn shell_quote(shell: Shell, text: &str) -> (r: String)
    ensures
        r@ == shell_quoted(shell, text@),
{
    match shell {
        Shell::Unix => unix_quote(text),
        Shell::Windows => windows_quote(text),
    }
}

/// The line that exports a variable to a shell.
pub open spec fn script_line(shell: Shell, name: Seq<char>, value: Seq<char>) -> Seq<char> {
    "export "@ + name + "="@ + shell_quoted(shell, value) + "\n"@
}

/// The lines that export variables, in their order.
pub open spec fn script_lines(shell: Shell, items: Seq<(Seq<char>, Seq<char>)>) -> Seq<char>
    decreases items.len(),
{
    if items.len() == 0 {
        Seq::empty()
    } else {
        script_lines(shell, items.drop_last()) + script_line(shell, items.last().0, items.last().1)
    }
}

/// The script that exports all of `exports`, in the order of their names.
pub fn export_script(shell: Shell, exports: &StrMap<String>) -> (script: String)
    ensures
        script@ == script_lines(shell, sorted_items(texts(exports@))),
{
    let ghost entries = sorted_items(exports@);
    let ghost items = sorted_items(texts(exports@));
    let mut script = String::new();
    let n = exports.len();
    proof {
        lemma_sorted_texts(exports@);
    }
    let mut i: usize = 0;
    assert(script@ =~= script_lines(shell, items.take(0)));
    while i < n
        invariant
            i <= n,
            n == items.len(),
            entries == sorted_items(exports@),
            items == entries.map_values(|item: (Seq<char>, String)| (item.0, item.1@)),
            script@ == script_lines(shell, items.take(i as int)),
        decreases n - i,
    {
        let ghost known = script@;
        script.append("export ");
        script.append(exports.key(i).as_str());
        script.append("=");
        script.append(shell_quote(shell, exports.value(i).as_str()).as_str());
        script.append("\n");
        assert(items.take(i + 1).drop_last() =~= items.take(i as int));
        assert(script@ =~= known + script_line(shell, items[i as int].0, items[i as int].1));
        i += 1;
    }
    assert(items.take(items.len() as int) =~= items);
    script
}

} // verus!
