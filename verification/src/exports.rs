//! The two ways in which a task exports variables.
//!
//! The file based protocol is a list of `name NUL base64(value) NUL`. The
//! legacy one is a line `DEVENV_EXPORT:base64(name)=base64(value)` on the
//! standard output of the task.

use base64::Engine;
use std::time::Instant;
use vstd::prelude::*;
use vstd::slice::slice_subrange;
use vstd::utf8::{decode_utf8, encode_scalar, encode_utf8, is_ascii_chars, valid_utf8};
use vstd::utf8::{last_continuation_byte, second_last_continuation_byte};
use vstd::utf8::{leading_byte_width_1, leading_byte_width_2, leading_byte_width_3};
use vstd::utf8::{leading_byte_width_4, third_last_continuation_byte};
use crate::error::{concat3, concat4};
use crate::task_state::TaskState;
use crate::text::{bytes_equal, text_views};

verus! {

/// The moment at which a line was read.
#[verifier::external_type_specification]
#[verifier::external_body]
pub struct ExInstant(std::time::Instant);

/// The bytes that a standard base64 text with padding stands for, or the
/// message about what is no such text.
pub uninterp spec fn base64_decoded(data: Seq<u8>) -> Result<Seq<u8>, Seq<char>>;

/// The standard base64 text, with padding, of some bytes.
pub uninterp spec fn base64_encoded(data: Seq<u8>) -> Seq<char>;

/// A base64 text that stands for some bytes.
pub open spec fn stands_for(bytes: Seq<u8>) -> Result<Seq<u8>, Seq<char>> {
    Ok(bytes)
}

/// A text that is no base64, with the message about it.
pub open spec fn is_refused(message: Seq<char>) -> Result<Seq<u8>, Seq<char>> {
    Err(message)
}

/// The message about bytes that are no UTF-8.
pub uninterp spec fn utf8_refusal(bytes: Seq<u8>) -> Seq<char>;

/// A character of the standard base64 alphabet, which does not hold the `=`
/// of the padding.
pub open spec fn is_base64_char(c: char) -> bool {
    ||| 'A' <= c <= 'Z'
    ||| 'a' <= c <= 'z'
    ||| '0' <= c <= '9'
    ||| c == '+'
    ||| c == '/'
}

/// `Engine::decode` of `base64::engine::general_purpose::STANDARD`. Whether
/// it succeeds, with what bytes or with what message, is `base64_decoded` of
/// the text. It takes canonical texts alone: those that `Engine::encode` gives,
/// and each stands for the bytes that it was given.
#[verifier::external_body]
fn base64_decode(data: &[u8]) -> (r: Result<Vec<u8>, String>)
    ensures
        match r {
            Ok(bytes) => {
                &&& base64_decoded(data@) == stands_for(bytes@)
                &&& data@ == encode_utf8(base64_encoded(bytes@))
                &&& data@.len() == 4 * ((bytes@.len() + 2) / 3)
            },
            Err(message) => base64_decoded(data@) == is_refused(message@),
        },
        forall|bytes: Seq<u8>|
            data@ == encode_utf8(#[trigger] base64_encoded(bytes)) ==> r is Ok && r->Ok_0@
                == bytes,
{
    base64::engine::general_purpose::STANDARD.decode(data).map_err(|error| error.to_string())
}

/// `Engine::encode` of `base64::engine::general_purpose::STANDARD`. The text
/// is made of groups of four characters, one for every three bytes begun; only
/// its last two characters can be padding; decoding it gives the bytes back.
#[verifier::external_body]
fn base64_encode(data: &[u8]) -> (text: String)
    requires
        4 * (data@.len() + 2) <= isize::MAX,
    ensures
        text@ == base64_encoded(data@),
        text@.len() == 4 * ((data@.len() + 2) / 3),
        forall|i: int|
            0 <= i < text@.len() ==> is_base64_char(#[trigger] text@[i]) || (text@[i] == '=' && i
                >= text@.len() - 2),
        base64_decoded(encode_utf8(text@)) == stands_for(data@),
{
    base64::engine::general_purpose::STANDARD.encode(data)
}

/// `std::str::from_utf8` succeeds on valid UTF-8 alone, and then gives the
/// characters that it encodes. Its message about other bytes is
/// `utf8_refusal` of them.
#[verifier::external_body]
fn utf8_str(bytes: &[u8]) -> (r: Result<&str, String>)
    ensures
        match r {
            Ok(text) => valid_utf8(bytes@) && text@ == decode_utf8(bytes@),
            Err(message) => !valid_utf8(bytes@) && message@ == utf8_refusal(bytes@),
        },
{
    std::str::from_utf8(bytes).map_err(|error| error.to_string())
}

/// The characters that some bytes encode.
pub open spec fn utf8_text(bytes: Seq<u8>) -> Option<Seq<char>> {
    if valid_utf8(bytes) {
        Some(decode_utf8(bytes))
    } else {
        None
    }
}

/// The characters behind a base64 text.
pub open spec fn base64_text(data: Seq<u8>) -> Option<Seq<char>> {
    match base64_decoded(data) {
        Ok(bytes) => utf8_text(bytes),
        Err(_) => None,
    }
}

/// The bytes of the base64 text of a text.
pub open spec fn base64_bytes(text: Seq<char>) -> Seq<u8> {
    encode_utf8(base64_encoded(encode_utf8(text)))
}

/// Why nothing stands behind a base64 text, which `context` names.
pub open spec fn decode_warning(data: Seq<u8>, context: Seq<char>) -> Option<Seq<char>> {
    match base64_decoded(data) {
        Ok(bytes) => if valid_utf8(bytes) {
            None
        } else {
            Some("Skipping "@ + context + " with invalid UTF-8: "@ + utf8_refusal(bytes))
        },
        Err(message) => Some("Skipping "@ + context + " with invalid base64: "@ + message),
    }
}

/// An export: the name of a variable and its value.
pub type ExportView = (Seq<char>, Seq<char>);

/// One item or none, as a list.
pub open spec fn optional<A>(item: Option<A>) -> Seq<A> {
    match item {
        Some(a) => seq![a],
        None => Seq::empty(),
    }
}

/// The contents of a list of exports.
pub open spec fn export_views(exports: Seq<(String, String)>) -> Seq<ExportView> {
    exports.map_values(|export: (String, String)| (export.0@, export.1@))
}

// The file based protocol.

/// Where the field that begins at `from` ends: at the next NUL, or at the end.
pub open spec fn field_end(data: Seq<u8>, from: int) -> int
    decreases data.len() - from,
{
    if from >= data.len() || data[from] == 0 {
        from
    } else {
        field_end(data, from + 1)
    }
}

/// A field ends within the data, before the first NUL from its begin on.
pub proof fn lemma_field_end(data: Seq<u8>, from: int)
    requires
        0 <= from <= data.len(),
    ensures
        from <= field_end(data, from) <= data.len(),
        field_end(data, from) < data.len() ==> data[field_end(data, from)] == 0,
        forall|i: int| from <= i < field_end(data, from) ==> data[i] != 0,
    decreases data.len() - from,
{
    if from < data.len() && data[from] != 0 {
        lemma_field_end(data, from + 1);
    }
}

/// The fields between the NULs.
pub open spec fn fields(data: Seq<u8>) -> Seq<Seq<u8>>
    decreases data.len(),
{
    let end = field_end(data, 0);
    proof {
        lemma_field_end(data, 0);
    }
    if end >= data.len() {
        seq![data]
    } else {
        seq![data.take(end)] + fields(data.skip(end + 1))
    }
}

/// What a name and an encoded value export: nothing without a name, or where
/// one of them cannot be decoded.
pub open spec fn export_of(name: Seq<u8>, value: Seq<u8>) -> Option<ExportView> {
    if name.len() == 0 {
        None
    } else {
        match (utf8_text(name), base64_text(value)) {
            (Some(n), Some(v)) => Some((n, v)),
            _ => None,
        }
    }
}

/// What the fields export, taken by two. A last one without a partner is
/// ignored.
pub open spec fn paired(parts: Seq<Seq<u8>>) -> Seq<ExportView>
    decreases parts.len(),
{
    if parts.len() < 2 {
        Seq::empty()
    } else {
        optional(export_of(parts[0], parts[1])) + paired(parts.skip(2))
    }
}

/// What is to be said about a pair that exports nothing.
pub open spec fn pair_warnings(name: Seq<u8>, value: Seq<u8>) -> Seq<Seq<char>> {
    if name.len() == 0 {
        Seq::empty()
    } else {
        match utf8_text(name) {
            Some(n) => optional(decode_warning(value, n)),
            None => seq!["Skipping export with invalid UTF-8 name: "@ + utf8_refusal(name)],
        }
    }
}

/// What is to be said about the fields, taken by two.
pub open spec fn paired_warnings(parts: Seq<Seq<u8>>) -> Seq<Seq<char>>
    decreases parts.len(),
{
    if parts.len() < 2 {
        Seq::empty()
    } else {
        pair_warnings(parts[0], parts[1]) + paired_warnings(parts.skip(2))
    }
}

/// What is to be said about an exports file.
pub open spec fn file_warnings(data: Seq<u8>) -> Seq<Seq<char>> {
    paired_warnings(fields(data))
}

/// Two fields export nothing but what the pair of that export is: the UTF-8 of
/// its name, which is not empty, and the base64 of its value.
pub open spec fn is_pair_of(name: Seq<u8>, value: Seq<u8>, export: Option<ExportView>) -> bool {
    match export {
        Some((n, v)) => n.len() > 0 && name == encode_utf8(n) && value == base64_bytes(v),
        None => true,
    }
}

/// The fields taken by two, at place `i`, export nothing but what they are the
/// pair of.
pub open spec fn is_sound_pair(parts: Seq<Seq<u8>>, i: int) -> bool {
    is_pair_of(parts[2 * i], parts[2 * i + 1], export_of(parts[2 * i], parts[2 * i + 1]))
}

/// What an exports file exports.
pub open spec fn file_exports(data: Seq<u8>) -> Seq<ExportView> {
    paired(fields(data))
}

/// The fields of `data`.
fn split_fields(data: &[u8]) -> (parts: Vec<&[u8]>)
    ensures
        parts@.map_values(|part: &[u8]| part@) == fields(data@),
{
    let mut parts: Vec<&[u8]> = Vec::new();
    let mut start: usize = 0;
    let mut at: usize = 0;
    assert(data@.skip(0) =~= data@);
    assert(parts@.map_values(|part: &[u8]| part@) =~= Seq::empty());
    while at < data.len()
        invariant
            start <= at <= data@.len(),
            forall|i: int| start <= i < at ==> data@[i] != 0,
            fields(data@) == parts@.map_values(|part: &[u8]| part@) + fields(
                data@.skip(start as int),
            ),
        decreases data@.len() - at,
    {
        if data[at] == 0 {
            let ghost known = parts@;
            let ghost rest = data@.skip(start as int);
            parts.push(slice_subrange(data, start, at));
            proof {
                lemma_first_field(rest, at - start);
                assert(rest.take(at - start) =~= data@.subrange(start as int, at as int));
                assert(rest.skip(at - start + 1) =~= data@.skip(at + 1));
                assert(parts@.map_values(|part: &[u8]| part@) =~= known.map_values(
                    |part: &[u8]| part@,
                ) + seq![data@.subrange(start as int, at as int)]);
            }
            start = at + 1;
        }
        at += 1;
    }
    let ghost known = parts@;
    parts.push(slice_subrange(data, start, at));
    proof {
        let rest = data@.skip(start as int);
        lemma_first_field(rest, at - start);
        assert(rest =~= data@.subrange(start as int, at as int));
        assert(parts@.map_values(|part: &[u8]| part@) =~= known.map_values(|part: &[u8]| part@)
            + seq![rest]);
    }
    parts
}

/// The first field ends at the first NUL.
proof fn lemma_first_field(data: Seq<u8>, end: int)
    requires
        0 <= end <= data.len(),
        forall|i: int| 0 <= i < end ==> data[i] != 0,
        end < data.len() ==> data[end] == 0,
    ensures
        field_end(data, 0) == end,
        end == data.len() ==> fields(data) == seq![data],
        end < data.len() ==> fields(data) == seq![data.take(end)] + fields(data.skip(end + 1)),
{
    lemma_field_end(data, 0);
}

/// What a pair exports, and what is to be said about it.
fn read_pair(name: &[u8], value: &[u8]) -> (r: (Option<(String, String)>, Vec<String>))
    ensures
        match r.0 {
            Some(export) => export_of(name@, value@) == Some((export.0@, export.1@)),
            None => export_of(name@, value@) is None,
        },
        text_views(r.1@) == pair_warnings(name@, value@),
        is_pair_of(name@, value@, export_of(name@, value@)),
{
    broadcast use vstd::utf8::decode_utf8_encode_utf8;

    let mut warnings: Vec<String> = Vec::new();
    assert(text_views(warnings@) =~= Seq::empty());
    if name.len() == 0 {
        return (None, warnings);
    }
    let warning = match utf8_str(name) {
        Ok(name) => match TaskState::decode_b64(value, name) {
            Ok(text) => {
                assert(value@ == base64_bytes(text@));
                return (Some((name.to_string(), text)), warnings);
            },
            Err(warning) => warning,
        },
        Err(message) => concat3(
            "Skipping export with invalid UTF-8 name: ",
            message.as_str(),
            "",
        ),
    };
    proof {
        reveal_strlit("");
    }
    let ghost said = warning@;
    warnings.push(warning);
    assert(text_views(warnings@) =~= seq![said]);
    assert(text_views(warnings@) =~= pair_warnings(name@, value@));
    (None, warnings)
}

impl TaskState {
    /// The text behind base64 `data`, or what is to be said about it. There is
    /// one where `data` is the base64 of the UTF-8 of a text.
    pub fn decode_b64(data: &[u8], context: &str) -> (r: Result<String, String>)
        ensures
            match r {
                Ok(text) => base64_text(data@) == Some(text@),
                Err(warning) => base64_text(data@) is None && decode_warning(data@, context@)
                    == Some(warning@),
            },
            forall|text: Seq<char>|
                base64_text(data@) == Some(text) <==> data@ == #[trigger] base64_bytes(text),
            base64_text(data@) is Some && data@.len() > 0 ==> base64_text(data@)->0.len() > 0,
    {
        broadcast use {
            vstd::utf8::encode_utf8_decode_utf8,
            vstd::utf8::encode_utf8_valid_utf8,
            vstd::utf8::decode_utf8_encode_utf8,
        };

        match base64_decode(data) {
            Ok(bytes) => {
                assert forall|text: Seq<char>|
                    base64_text(data@) == Some(text) <==> data@ == #[trigger] base64_bytes(
                        text,
                    ) by {
                    if base64_text(data@) == Some(text) {
                        assert(encode_utf8(text) == bytes@);
                    }
                    if data@ == base64_bytes(text) {
                        assert(bytes@ == encode_utf8(text));
                    }
                }
                match utf8_str(bytes.as_slice()) {
                    Ok(text) => {
                        assert(encode_utf8(text@) == bytes@);
                        Ok(text.to_string())
                    },
                    Err(message) => Err(
                        concat4("Skipping ", context, " with invalid UTF-8: ", message.as_str()),
                    ),
                }
            },
            Err(message) => Err(
                concat4("Skipping ", context, " with invalid base64: ", message.as_str()),
            ),
        }
    }

    /// What the exports file `data` exports, in its order, and what is to be
    /// said about what it does not.
    pub fn read_exports(data: &[u8]) -> (r: (Vec<(String, String)>, Vec<String>))
        ensures
            export_views(r.0@) == file_exports(data@),
            text_views(r.1@) == file_warnings(data@),
            forall|i: int|
                0 <= i && 2 * i + 1 < fields(data@).len() ==> #[trigger] is_sound_pair(
                    fields(data@),
                    i,
                ),
    {
        let parts = split_fields(data);
        let ghost all = fields(data@);
        let mut exports: Vec<(String, String)> = Vec::new();
        let mut warnings: Vec<String> = Vec::new();
        let mut i: usize = 0;
        assert(all.skip(0) =~= all);
        assert(export_views(exports@) =~= Seq::empty());
        assert(text_views(warnings@) =~= Seq::empty());
        assert(forall|j: int| 0 <= j < parts@.len() ==> #[trigger] parts@[j]@ == all[j]) by {
            assert(parts@.map_values(|part: &[u8]| part@) == all);
        }
        let ghost mut pairs: int = 0;
        while parts.len() - i >= 2
            invariant
                i <= parts@.len(),
                all == fields(data@),
                all.len() == parts@.len(),
                forall|j: int| 0 <= j < parts@.len() ==> #[trigger] parts@[j]@ == all[j],
                paired(all) == export_views(exports@) + paired(all.skip(i as int)),
                paired_warnings(all) == text_views(warnings@) + paired_warnings(
                    all.skip(i as int),
                ),
                i == 2 * pairs,
                forall|j: int| 0 <= j < pairs ==> #[trigger] is_sound_pair(all, j),
            decreases parts@.len() - i,
        {
            let ghost known = exports@;
            let ghost said = warnings@;
            assert(all.skip(i as int).skip(2) =~= all.skip(i + 2));
            let (export, mut more) = read_pair(parts[i], parts[i + 1]);
            if let Some(export) = export {
                exports.push(export);
            }
            assert(export_views(exports@) =~= export_views(known) + optional(
                export_of(all[i as int], all[i + 1]),
            ));
            let ghost new = more@;
            warnings.append(&mut more);
            assert(text_views(warnings@) =~= text_views(said) + text_views(new));
            proof {
                assert(is_sound_pair(all, pairs));
                pairs = pairs + 1;
            }
            i += 2;
        }
        assert(export_views(exports@) =~= paired(all));
        assert(text_views(warnings@) =~= paired_warnings(all));
        (exports, warnings)
    }

    /// What the exports file `data` exports, in its order. Two fields that
    /// export something are the pair of that export.
    pub fn parse_exports(data: &[u8]) -> (exports: Vec<(String, String)>)
        ensures
            export_views(exports@) == file_exports(data@),
            forall|i: int|
                0 <= i && 2 * i + 1 < fields(data@).len() ==> #[trigger] is_sound_pair(
                    fields(data@),
                    i,
                ),
    {
        Self::read_exports(data).0
    }
}

// The legacy protocol.

/// What an exporting line starts with.
pub open spec fn export_prefix() -> Seq<u8> {
    encode_utf8("DEVENV_EXPORT:"@)
}

/// The first place from `from` on, in steps of four, that holds an `=`.
///
/// Base64 pads its text to groups of four and never begins a group with `=`,
/// so this is the `=` that follows the name.
pub open spec fn separator(rest: Seq<u8>, from: int) -> Option<int>
    decreases rest.len() + 4 - from,
{
    if from >= rest.len() {
        None
    } else if rest[from] == 61 {
        Some(from)
    } else {
        separator(rest, from + 4)
    }
}

/// What a line exports.
pub open spec fn line_export(line: Seq<char>) -> Option<ExportView> {
    let bytes = encode_utf8(line);
    if export_prefix().is_prefix_of(bytes) {
        let rest = bytes.skip(export_prefix().len() as int);
        match separator(rest, 4) {
            Some(at) => match (base64_text(rest.take(at)), base64_text(rest.skip(at + 1))) {
                (Some(name), Some(value)) => Some((name, value)),
                _ => None,
            },
            None => None,
        }
    } else {
        None
    }
}

/// The line that exports `value` as `name`.
pub open spec fn exported_line(name: Seq<char>, value: Seq<char>) -> Seq<char> {
    "DEVENV_EXPORT:"@ + base64_encoded(encode_utf8(name)) + "="@ + base64_encoded(
        encode_utf8(value),
    )
}

/// A line exports nothing but what the line of that export is.
pub open spec fn is_line_of(line: Seq<char>, export: Option<ExportView>) -> bool {
    match export {
        Some((name, value)) => name.len() > 0 && line == exported_line(name, value),
        None => true,
    }
}

/// What is to be said about a line.
pub open spec fn line_warnings(line: Seq<char>) -> Seq<Seq<char>> {
    let bytes = encode_utf8(line);
    let rest = bytes.skip(export_prefix().len() as int);
    if export_prefix().is_prefix_of(bytes) && separator(rest, 4) is Some {
        let at = separator(rest, 4)->0;
        optional(decode_warning(rest.take(at), "DEVENV_EXPORT key"@)) + optional(
            decode_warning(rest.skip(at + 1), "DEVENV_EXPORT value"@),
        )
    } else {
        Seq::empty()
    }
}

/// What is to be said about lines, in their order.
pub open spec fn stdout_warnings(lines: Seq<Seq<char>>) -> Seq<Seq<char>>
    decreases lines.len(),
{
    if lines.len() == 0 {
        Seq::empty()
    } else {
        stdout_warnings(lines.drop_last()) + line_warnings(lines.last())
    }
}

/// The texts of lines that were read.
pub open spec fn line_texts(lines: Seq<(Instant, String)>) -> Seq<Seq<char>> {
    lines.map_values(|line: (Instant, String)| line.1@)
}

/// What lines export, in their order.
pub open spec fn stdout_exports(lines: Seq<Seq<char>>) -> Seq<ExportView>
    decreases lines.len(),
{
    if lines.len() == 0 {
        Seq::empty()
    } else {
        stdout_exports(lines.drop_last()) + optional(line_export(lines.last()))
    }
}

/// Whether `bytes` begins with `prefix`.
fn starts_with(bytes: &[u8], prefix: &[u8]) -> (r: bool)
    ensures
        r == prefix@.is_prefix_of(bytes@),
{
    if bytes.len() < prefix.len() {
        return false;
    }
    bytes_equal(slice_subrange(bytes, 0, prefix.len()), prefix)
}

/// The place of the `=` after the name.
fn find_separator(rest: &[u8]) -> (r: Option<usize>)
    ensures
        match r {
            Some(at) => separator(rest@, 4) == Some(at as int) && 4 <= at < rest@.len()
                && rest@[at as int] == 61,
            None => separator(rest@, 4) is None,
        },
{
    let mut at: usize = 4;
    while at < rest.len()
        invariant
            at >= 4,
            separator(rest@, 4) == separator(rest@, at as int),
        decreases rest@.len() - at,
    {
        if rest[at] == 61 {
            return Some(at);
        }
        if rest.len() - at <= 4 {
            assert(separator(rest@, at + 4) is None);
            return None;
        }
        at += 4;
    }
    None
}

/// The UTF-8 of two texts one after the other.
proof fn lemma_encode_concat(a: Seq<char>, b: Seq<char>)
    ensures
        encode_utf8(a + b) == encode_utf8(a) + encode_utf8(b),
    decreases a.len(),
{
    if a.len() == 0 {
        assert(a + b =~= b);
        assert(encode_utf8(a) + encode_utf8(b) =~= encode_utf8(b));
    } else {
        assert((a + b).drop_first() =~= a.drop_first() + b);
        lemma_encode_concat(a.drop_first(), b);
        assert(encode_utf8(a + b) =~= encode_utf8(a) + encode_utf8(b));
    }
}

/// The bytes of the line of an export.
proof fn lemma_exported_line(name: Seq<char>, value: Seq<char>)
    ensures
        encode_utf8(exported_line(name, value)) == export_prefix() + base64_bytes(name) + seq![
            61u8,
        ] + base64_bytes(value),
{
    let n = base64_encoded(encode_utf8(name));
    let v = base64_encoded(encode_utf8(value));
    lemma_encode_concat("DEVENV_EXPORT:"@ + n + "="@, v);
    lemma_encode_concat("DEVENV_EXPORT:"@ + n, "="@);
    lemma_encode_concat("DEVENV_EXPORT:"@, n);
    reveal_strlit("=");
    assert("="@ =~= seq!['=']);
    vstd::utf8::is_ascii_chars_encode_utf8("="@);
    assert(encode_utf8("="@) =~= seq![61u8]);
}

/// What a line exports, and what is to be said about it.
fn parse_line(line: &str) -> (r: (Option<(String, String)>, Vec<String>))
    ensures
        match r.0 {
            Some((name, value)) => line_export(line@) == Some((name@, value@)),
            None => line_export(line@) is None,
        },
        text_views(r.1@) == line_warnings(line@),
        is_line_of(line@, line_export(line@)),
{
    let bytes = line.as_bytes();
    let prefix = "DEVENV_EXPORT:".as_bytes();
    let mut warnings: Vec<String> = Vec::new();
    assert(text_views(warnings@) =~= Seq::empty());
    if !starts_with(bytes, prefix) {
        return (None, warnings);
    }
    let rest = slice_subrange(bytes, prefix.len(), bytes.len());
    assert(rest@ =~= bytes@.skip(prefix@.len() as int));
    let at = match find_separator(rest) {
        Some(at) => at,
        None => {
            return (None, warnings);
        },
    };
    let name = slice_subrange(rest, 0, at);
    let value = slice_subrange(rest, at + 1, rest.len());
    assert(name@ =~= rest@.take(at as int));
    assert(value@ =~= rest@.skip(at + 1));
    let ghost about_name = optional(decode_warning(name@, "DEVENV_EXPORT key"@));
    let ghost about_value = optional(decode_warning(value@, "DEVENV_EXPORT value"@));
    let decoded_name = match TaskState::decode_b64(name, "DEVENV_EXPORT key") {
        Ok(text) => Some(text),
        Err(warning) => {
            warnings.push(warning);
            None
        },
    };
    assert(text_views(warnings@) =~= about_name);
    let ghost said = warnings@;
    let decoded_value = match TaskState::decode_b64(value, "DEVENV_EXPORT value") {
        Ok(text) => Some(text),
        Err(warning) => {
            warnings.push(warning);
            None
        },
    };
    assert(text_views(warnings@) =~= text_views(said) + about_value);
    match (decoded_name, decoded_value) {
        (Some(n), Some(v)) => {
            proof {
                broadcast use vstd::utf8::encode_utf8_decode_utf8;

                assert(name@ == base64_bytes(n@));
                assert(value@ == base64_bytes(v@));
                lemma_exported_line(n@, v@);
                assert(bytes@ =~= prefix@ + rest@);
                assert(rest@ =~= name@ + seq![61u8] + value@);
                assert(bytes@ =~= prefix@ + name@ + seq![61u8] + value@);
                assert(decode_utf8(encode_utf8(line@)) == decode_utf8(
                    encode_utf8(exported_line(n@, v@)),
                ));
            }
            (Some((n, v)), warnings)
        },
        _ => (None, warnings),
    }
}

impl TaskState {
    /// What the lines on the standard output export, in their order, and what
    /// is to be said about those that do not.
    pub fn read_stdout_exports(stdout_lines: &[(Instant, String)]) -> (r: (
        Vec<(String, String)>,
        Vec<String>,
    ))
        ensures
            export_views(r.0@) == stdout_exports(line_texts(stdout_lines@)),
            text_views(r.1@) == stdout_warnings(line_texts(stdout_lines@)),
            forall|i: int|
                0 <= i < stdout_lines@.len() ==> is_line_of(
                    #[trigger] line_texts(stdout_lines@)[i],
                    line_export(line_texts(stdout_lines@)[i]),
                ),
    {
        let mut exports: Vec<(String, String)> = Vec::new();
        let mut warnings: Vec<String> = Vec::new();
        let ghost all = line_texts(stdout_lines@);
        let mut i: usize = 0;
        assert(export_views(exports@) =~= stdout_exports(all.take(0)));
        assert(text_views(warnings@) =~= stdout_warnings(all.take(0)));
        while i < stdout_lines.len()
            invariant
                i <= stdout_lines@.len(),
                all == line_texts(stdout_lines@),
                export_views(exports@) == stdout_exports(all.take(i as int)),
                text_views(warnings@) == stdout_warnings(all.take(i as int)),
                forall|j: int|
                    0 <= j < i ==> is_line_of(#[trigger] all[j], line_export(all[j])),
            decreases stdout_lines@.len() - i,
        {
            let ghost known = exports@;
            let ghost said = warnings@;
            assert(all.take(i + 1).drop_last() =~= all.take(i as int));
            let (export, mut more) = parse_line(stdout_lines[i].1.as_str());
            if let Some(export) = export {
                exports.push(export);
            }
            assert(export_views(exports@) =~= export_views(known) + optional(
                line_export(all[i as int]),
            ));
            let ghost new = more@;
            warnings.append(&mut more);
            assert(text_views(warnings@) =~= text_views(said) + text_views(new));
            i += 1;
        }
        assert(all.take(all.len() as int) =~= all);
        (exports, warnings)
    }

    /// What the lines on the standard output export, in their order. A line
    /// that exports something is the line of that export.
    pub fn parse_stdout_exports(stdout_lines: &[(Instant, String)]) -> (exports: Vec<
        (String, String),
    >)
        ensures
            export_views(exports@) == stdout_exports(line_texts(stdout_lines@)),
            forall|i: int|
                0 <= i < stdout_lines@.len() ==> is_line_of(
                    #[trigger] line_texts(stdout_lines@)[i],
                    line_export(line_texts(stdout_lines@)[i]),
                ),
    {
        Self::read_stdout_exports(stdout_lines).0
    }
}

// Writing exports.

/// `exports`, as an exports file holds them.
pub open spec fn written(exports: Seq<ExportView>) -> Seq<u8>
    decreases exports.len(),
{
    if exports.len() == 0 {
        Seq::empty()
    } else {
        let (name, value) = exports.last();
        written(exports.drop_last()) + pair_bytes(
            encode_utf8(name),
            encode_utf8(base64_encoded(encode_utf8(value))),
        )
    }
}

/// A name and an encoded value, each with the NUL that ends it.
pub open spec fn pair_bytes(name: Seq<u8>, value: Seq<u8>) -> Seq<u8> {
    name + seq![0u8] + value + seq![0u8]
}

/// The length of a text for which base64 has one.
pub open spec fn encodable(text: Seq<char>) -> bool {
    4 * (encode_utf8(text).len() + 2) <= isize::MAX
}

/// A name that an exports file can hold: it is not empty and has no NUL.
pub open spec fn is_file_name(name: Seq<char>) -> bool {
    name.len() > 0 && !name.contains('\0')
}

/// A complete pair at the front of an exports file exports what it exports
/// alone, whatever follows it.
pub proof fn law_pairs_are_independent(name: Seq<u8>, value: Seq<u8>, rest: Seq<u8>)
    requires
        !name.contains(0),
        !value.contains(0),
    ensures
        file_exports(pair_bytes(name, value) + rest) == optional(export_of(name, value))
            + file_exports(rest),
{
    let data = pair_bytes(name, value) + rest;
    let after_name = value + seq![0u8] + rest;
    assert forall|i: int| 0 <= i < name.len() implies data[i] != 0 by {
        assert(data[i] == name[i]);
        assert(name.contains(name[i]));
    }
    lemma_first_field(data, name.len() as int);
    assert(data.take(name.len() as int) =~= name);
    assert(data.skip(name.len() as int + 1) =~= after_name);
    assert forall|i: int| 0 <= i < value.len() implies after_name[i] != 0 by {
        assert(after_name[i] == value[i]);
        assert(value.contains(value[i]));
    }
    lemma_first_field(after_name, value.len() as int);
    assert(after_name.take(value.len() as int) =~= value);
    assert(after_name.skip(value.len() as int + 1) =~= rest);
    assert(fields(data) =~= seq![name, value] + fields(rest));
    assert(fields(data).skip(2) =~= fields(rest));
}

/// A name without its value at the end of an exports file exports nothing.
pub proof fn law_orphan_is_ignored(name: Seq<u8>)
    requires
        !name.contains(0),
    ensures
        file_exports(name) == Seq::<ExportView>::empty(),
{
    assert forall|i: int| 0 <= i < name.len() implies name[i] != 0 by {
        assert(name.contains(name[i]));
    }
    lemma_first_field(name, name.len() as int);
}

/// An export that an exports file can hold.
pub open spec fn is_writable(export: ExportView) -> bool {
    is_file_name(export.0) && encodable(export.1)
}

/// The base64 text of the value decodes to it and holds no NUL.
spec fn round_trips(export: ExportView) -> bool {
    let value = encode_utf8(export.1);
    let encoded = encode_utf8(base64_encoded(value));
    is_file_name(export.0) && base64_decoded(encoded) == stands_for(value) && !encoded.contains(0)
}

/// The pair of an export, where base64 round-trips, exports it, whatever
/// follows.
proof fn lemma_pair_read(name: Seq<char>, value: Seq<char>, rest: Seq<u8>)
    requires
        round_trips((name, value)),
    ensures
        file_exports(pair_bytes(encode_utf8(name), base64_bytes(value)) + rest) == seq![
            (name, value),
        ] + file_exports(rest),
{
    vstd::utf8::encode_utf8_decode_utf8(name);
    vstd::utf8::encode_utf8_valid_utf8(name);
    vstd::utf8::encode_utf8_decode_utf8(value);
    vstd::utf8::encode_utf8_valid_utf8(value);
    lemma_no_nul(name);
    law_pairs_are_independent(encode_utf8(name), base64_bytes(value), rest);
    assert(encode_utf8(name).len() > 0) by {
        assert(name[0] as u32 as char == name[0]);
    }
}

/// Reading back what was written, where base64 round-trips, gives the exports
/// and then whatever follows.
#[verifier::spinoff_prover]
proof fn lemma_written(exports: Seq<ExportView>, rest: Seq<u8>)
    requires
        forall|i: int| 0 <= i < exports.len() ==> round_trips(#[trigger] exports[i]),
    ensures
        file_exports(written(exports) + rest) == exports + file_exports(rest),
    decreases exports.len(),
{
    if exports.len() == 0 {
        assert(written(exports) + rest =~= rest);
        assert(exports + file_exports(rest) =~= file_exports(rest));
    } else {
        let init = exports.drop_last();
        let (name, value) = exports.last();
        let pair = pair_bytes(encode_utf8(name), base64_bytes(value));
        assert(round_trips(exports[exports.len() - 1]));
        assert(forall|i: int| 0 <= i < init.len() ==> #[trigger] init[i] == exports[i]);
        assert(written(exports) == written(init) + pair);
        assert(written(exports) + rest =~= written(init) + (pair + rest));
        lemma_written(init, pair + rest);
        lemma_pair_read(name, value, rest);
        assert(exports =~= init + seq![(name, value)]);
        assert(exports + file_exports(rest) =~= init + (seq![(name, value)] + file_exports(rest)));
    }
}

/// A text without NUL has no NUL in its UTF-8 bytes.
proof fn lemma_no_nul(text: Seq<char>)
    requires
        !text.contains('\0'),
    ensures
        !encode_utf8(text).contains(0),
    decreases text.len(),
{
    if text.len() > 0 {
        let c = text[0] as u32;
        assert(text.contains(text[0]));
        vstd::utf8::char_is_scalar(text[0]);
        assert(c != 0) by {
            vstd::utf8::char_u32_cast(text[0], c);
            vstd::utf8::char_u32_cast('\0', 0);
        }
        let first = encode_scalar(c);
        assert(leading_byte_width_1(c) != 0 || c > 0x7f) by (bit_vector)
            requires
                c != 0,
        ;
        assert(leading_byte_width_2(c) != 0) by (bit_vector);
        assert(leading_byte_width_3(c) != 0) by (bit_vector);
        assert(leading_byte_width_4(c) != 0) by (bit_vector);
        assert(last_continuation_byte(c) != 0) by (bit_vector);
        assert(second_last_continuation_byte(c) != 0) by (bit_vector);
        assert(third_last_continuation_byte(c) != 0) by (bit_vector);
        assert(forall|i: int| 0 <= i < first.len() ==> first[i] != 0);
        let rest = text.drop_first();
        assert(!rest.contains('\0')) by {
            if rest.contains('\0') {
                let i = choose|i: int| 0 <= i < rest.len() && rest[i] == '\0';
                assert(text[i + 1] == '\0');
            }
        }
        lemma_no_nul(rest);
        let all = encode_utf8(text);
        assert forall|i: int| 0 <= i < all.len() implies all[i] != 0 by {
            if i >= first.len() {
                assert(all[i] == encode_utf8(rest)[i - first.len()]);
                assert(encode_utf8(rest).contains(encode_utf8(rest)[i - first.len()]));
            }
        }
    }
}

/// The exports file that holds `exports`. Parsing it gives them back, whatever
/// follows.
pub fn export_file(exports: &Vec<(String, String)>) -> (data: Vec<u8>)
    requires
        forall|i: int|
            0 <= i < exports@.len() ==> is_writable(#[trigger] export_views(exports@)[i]),
    ensures
        data@ == written(export_views(exports@)),
        file_exports(data@) == export_views(exports@),
        forall|rest: Seq<u8>| #[trigger]
            file_exports(data@ + rest) == export_views(exports@) + file_exports(rest),
{
    let mut data: Vec<u8> = Vec::new();
    let ghost all = export_views(exports@);
    let mut i: usize = 0;
    assert(all.take(0) =~= Seq::empty());
    while i < exports.len()
        invariant
            i <= exports@.len(),
            all == export_views(exports@),
            data@ == written(all.take(i as int)),
            forall|j: int| 0 <= j < exports@.len() ==> is_writable(#[trigger] all[j]),
            forall|j: int| 0 <= j < i ==> round_trips(#[trigger] all[j]),
        decreases exports@.len() - i,
    {
        let ghost known = data@;
        assert(is_writable(all[i as int]));
        let name = exports[i].0.as_str().as_bytes();
        let encoded = base64_encode(exports[i].1.as_str().as_bytes());
        proof {
            lemma_base64_ascii(encoded@);
        }
        let value = encoded.as_str().as_bytes();
        data.extend_from_slice(name);
        assert(data@ =~= known + name@);
        data.push(0);
        let ghost named = data@;
        data.extend_from_slice(value);
        assert(data@ =~= named + value@);
        data.push(0);
        assert(data@ =~= known + pair_bytes(name@, value@));
        assert(all.take(i + 1).drop_last() =~= all.take(i as int));
        i += 1;
    }
    assert(all.take(all.len() as int) =~= all);
    proof {
        lemma_written(all, Seq::empty());
        law_orphan_is_ignored(Seq::empty());
        assert(written(all) + Seq::<u8>::empty() =~= written(all));
        assert(all + Seq::<ExportView>::empty() =~= all);
        assert forall|rest: Seq<u8>| #[trigger]
            file_exports(data@ + rest) == all + file_exports(rest) by {
            lemma_written(all, rest);
        }
    }
    data
}

/// Base64 text is ASCII without NUL.
proof fn lemma_base64_ascii(text: Seq<char>)
    requires
        forall|i: int| 0 <= i < text.len() ==> is_base64_char(#[trigger] text[i]) || text[i] == '=',
    ensures
        is_ascii_chars(text),
        !encode_utf8(text).contains(0),
{
    vstd::utf8::is_ascii_chars_encode_utf8(text);
}

/// The line that exports `value` as `name`. Parsing it gives them back.
pub fn export_line(name: &str, value: &str) -> (line: String)
    requires
        name@.len() > 0,
        encodable(name@),
        encodable(value@),
    ensures
        line@ == exported_line(name@, value@),
        line_export(line@) == Some((name@, value@)),
{
    let encoded_name = base64_encode(name.as_bytes());
    let encoded_value = base64_encode(value.as_bytes());
    let mut line = "DEVENV_EXPORT:".to_string();
    line.append(encoded_name.as_str());
    line.append("=");
    line.append(encoded_value.as_str());
    proof {
        broadcast use {
            vstd::utf8::encode_utf8_decode_utf8,
            vstd::utf8::encode_utf8_valid_utf8,
        };

        let n = encoded_name@;
        let v = encoded_value@;
        reveal_strlit("DEVENV_EXPORT:");
        reveal_strlit("=");
        lemma_base64_ascii(n);
        lemma_base64_ascii(v);
        vstd::utf8::is_ascii_chars_encode_utf8(n);
        vstd::utf8::is_ascii_chars_encode_utf8(v);
        vstd::utf8::is_ascii_chars_encode_utf8("DEVENV_EXPORT:"@);
        assert(line@ =~= "DEVENV_EXPORT:"@ + n + seq!['='] + v);
        assert(is_ascii_chars(line@));
        vstd::utf8::is_ascii_chars_encode_utf8(line@);
        let bytes = encode_utf8(line@);
        assert(export_prefix().is_prefix_of(bytes));
        let rest = bytes.skip(14);
        assert(encode_utf8(name@).len() > 0);
        assert(n.len() >= 4);
        assert(rest[n.len() as int] == 61);
        assert forall|i: int| 0 <= i < n.len() - 2 implies rest[i] != 61 by {
            assert(rest[i] == n[i] as u8);
            assert(is_base64_char(n[i]));
        }
        lemma_separator(rest, 4, n.len() as int);
        assert(rest.take(n.len() as int) =~= encode_utf8(n));
        assert(rest.skip(n.len() as int + 1) =~= encode_utf8(v));
    }
    line
}

/// The separator after a padded name is found.
proof fn lemma_separator(rest: Seq<u8>, from: int, at: int)
    requires
        4 <= from <= at < rest.len(),
        (at - from) % 4 == 0,
        rest[at] == 61,
        forall|i: int| 0 <= i < at - 2 ==> rest[i] != 61,
    ensures
        separator(rest, from) == Some(at),
    decreases at - from,
{
    if from < at {
        assert(at - from >= 4);
        lemma_separator(rest, from + 4, at);
    }
}

/// Lines read one after the other export what each batch exports alone.
pub proof fn law_lines_are_independent(first: Seq<Seq<char>>, second: Seq<Seq<char>>)
    ensures
        stdout_exports(first + second) == stdout_exports(first) + stdout_exports(second),
    decreases second.len(),
{
    if second.len() == 0 {
        assert(first + second =~= first);
        assert(stdout_exports(first) + stdout_exports(second) =~= stdout_exports(first));
    } else {
        let init = second.drop_last();
        assert((first + second).drop_last() =~= first + init);
        law_lines_are_independent(first, init);
        assert(stdout_exports(first + second) =~= stdout_exports(first) + stdout_exports(second));
    }
}

/// Lines that each export something together export just that, in their order.
pub proof fn law_lines_keep_their_order(lines: Seq<Seq<char>>, exports: Seq<ExportView>)
    requires
        lines.len() == exports.len(),
        forall|i: int|
            0 <= i < lines.len() ==> line_export(#[trigger] lines[i]) == Some(exports[i]),
    ensures
        stdout_exports(lines) == exports,
    decreases lines.len(),
{
    if lines.len() > 0 {
        law_lines_keep_their_order(lines.drop_last(), exports.drop_last());
        assert(line_export(lines[lines.len() - 1]) == Some(exports[exports.len() - 1]));
    }
    assert(stdout_exports(lines) =~= exports);
}

/// A line without the prefix exports nothing.
pub proof fn law_other_lines_are_ignored(line: Seq<char>)
    requires
        !export_prefix().is_prefix_of(encode_utf8(line)),
    ensures
        stdout_exports(seq![line]) == Seq::<ExportView>::empty(),
{
    assert(seq![line].drop_last() =~= Seq::empty());
    assert(stdout_exports(Seq::empty()) =~= Seq::<ExportView>::empty());
    assert(stdout_exports(seq![line]) =~= Seq::empty());
}

} // verus!
