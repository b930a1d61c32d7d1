//! What tasks export, told by the bytes they write.

use vstd::prelude::*;
use vstd::utf8::{decode_utf8, encode_utf8, valid_utf8};
use std::time::Instant;
use crate::exports::{
    base64_decoded, base64_encoded, decode_warning, export_of, field_end,
    export_prefix, export_views, exported_line, fields, file_exports, file_warnings,
    lemma_field_end, line_export, line_texts, line_warnings, optional, pair_warnings, paired,
    paired_warnings, separator, stdout_exports, stdout_warnings, utf8_refusal, written, ExportView,
};
use crate::text::text_views;

verus! {

/// Bytes of which none is NUL.
pub open spec fn has_no_nul(bytes: Seq<u8>) -> bool {
    forall|i: int| 0 <= i < bytes.len() ==> #[trigger] bytes[i] != 0
}

/// The lists of exports, lines and texts show each of their items, in their
/// order.
pub proof fn law_lists_are_shown(
    exports: Seq<(String, String)>,
    lines: Seq<(Instant, String)>,
    texts: Seq<String>,
)
    ensures
        export_views(exports).len() == exports.len(),
        forall|i: int|
            0 <= i < exports.len() ==> #[trigger] export_views(exports)[i] == (
                exports[i].0@,
                exports[i].1@,
            ),
        line_texts(lines).len() == lines.len(),
        forall|i: int| 0 <= i < lines.len() ==> #[trigger] line_texts(lines)[i] == lines[i].1@,
        text_views(texts).len() == texts.len(),
        forall|i: int| 0 <= i < texts.len() ==> #[trigger] text_views(texts)[i] == texts[i]@,
{
}

/// The field before the first NUL, and the fields behind it.
proof fn lemma_first(field: Seq<u8>, rest: Seq<u8>)
    requires
        has_no_nul(field),
    ensures
        fields(field) == seq![field],
        fields(field + seq![0u8] + rest) == seq![field] + fields(rest),
{
    lemma_field_end(field, 0);
    let data = field + seq![0u8] + rest;
    lemma_field_end(data, 0);
    let n = field.len() as int;
    assert(data[n] == 0);
    assert(forall|i: int| 0 <= i < n ==> #[trigger] data[i] == field[i]);
    assert(field_end(data, 0) == n);
    assert(data.take(n) =~= field);
    assert(data.skip(n + 1) =~= rest);
}

/// The first two fields, and what is behind them.
proof fn lemma_first_pair(name: Seq<u8>, value: Seq<u8>, rest: Seq<u8>)
    requires
        has_no_nul(name),
        has_no_nul(value),
    ensures
        ({
            let data = name + seq![0u8] + value + seq![0u8] + rest;
            &&& file_exports(data) == optional(export_of(name, value)) + file_exports(rest)
            &&& file_warnings(data) == pair_warnings(name, value) + file_warnings(rest)
        }),
        ({
            let data = name + seq![0u8] + value;
            &&& file_exports(data) == optional(export_of(name, value))
            &&& file_warnings(data) == pair_warnings(name, value)
        }),
{
    let after = value + seq![0u8] + rest;
    let data = name + seq![0u8] + value + seq![0u8] + rest;
    assert(data =~= name + seq![0u8] + after);
    lemma_first(name, after);
    lemma_first(value, rest);
    assert(fields(data) =~= seq![name, value] + fields(rest));
    assert(fields(data).skip(2) =~= fields(rest));
    let last = name + seq![0u8] + value;
    lemma_first(name, value);
    assert(fields(last) =~= seq![name, value]);
    assert(fields(last).skip(2) =~= Seq::empty());
    assert(paired(Seq::<Seq<u8>>::empty()) =~= Seq::empty());
    assert(paired_warnings(Seq::<Seq<u8>>::empty()) =~= Seq::empty());
    assert(file_exports(last) =~= optional(export_of(name, value)));
    assert(file_warnings(last) =~= pair_warnings(name, value));
}

/// A name and a value, each with the NUL behind it, at the front of an exports
/// file: they export the text of the name with the text behind the base64 of
/// the value, where the name is not empty and both can be read. What cannot be
/// read exports nothing and is told, but for an empty name. The rest of the
/// file is read as if it stood alone.
pub proof fn law_first_pair_is_read(name: Seq<u8>, value: Seq<u8>, rest: Seq<u8>)
    requires
        has_no_nul(name),
        has_no_nul(value),
    ensures
        ({
            let data = name + seq![0u8] + value + seq![0u8] + rest;
            if name.len() == 0 {
                &&& file_exports(data) == file_exports(rest)
                &&& file_warnings(data) == file_warnings(rest)
            } else if !valid_utf8(name) {
                &&& file_exports(data) == file_exports(rest)
                &&& file_warnings(data) == seq![
                    "Skipping export with invalid UTF-8 name: "@ + utf8_refusal(
                        name,
                    ),
                ] + file_warnings(rest)
            } else {
                match base64_decoded(value) {
                    Ok(bytes) => if valid_utf8(bytes) {
                        &&& file_exports(data) == seq![(decode_utf8(name), decode_utf8(bytes))]
                            + file_exports(rest)
                        &&& file_warnings(data) == file_warnings(rest)
                    } else {
                        &&& file_exports(data) == file_exports(rest)
                        &&& file_warnings(data) == seq![
                            "Skipping "@ + decode_utf8(name) + " with invalid UTF-8: "@
                                + utf8_refusal(bytes),
                        ] + file_warnings(rest)
                    },
                    Err(message) => {
                        &&& file_exports(data) == file_exports(rest)
                        &&& file_warnings(data) == seq![
                            "Skipping "@ + decode_utf8(name) + " with invalid base64: "@ + message,
                        ] + file_warnings(rest)
                    },
                }
            }
        }),
{
    lemma_first_pair(name, value, rest);
    assert(Seq::<ExportView>::empty() + file_exports(rest) =~= file_exports(rest));
    assert(Seq::<Seq<char>>::empty() + file_warnings(rest) =~= file_warnings(rest));
}

/// A last value needs no NUL behind it.
pub proof fn law_last_nul_is_optional(name: Seq<u8>, value: Seq<u8>)
    requires
        has_no_nul(name),
        has_no_nul(value),
    ensures
        file_exports(name + seq![0u8] + value) == file_exports(
            name + seq![0u8] + value + seq![0u8],
        ),
        file_warnings(name + seq![0u8] + value) == file_warnings(
            name + seq![0u8] + value + seq![0u8],
        ),
{
    let none = Seq::<u8>::empty();
    let data = name + seq![0u8] + value + seq![0u8];
    assert(data + none =~= data);
    lemma_first_pair(name, value, none);
    law_single_field_is_ignored(none);
    assert(file_exports(data) =~= file_exports(name + seq![0u8] + value));
    assert(file_warnings(data) =~= file_warnings(name + seq![0u8] + value));
}

/// A file without a NUL exports nothing, and nothing is told about it.
pub proof fn law_single_field_is_ignored(data: Seq<u8>)
    requires
        has_no_nul(data),
    ensures
        file_exports(data) == Seq::<ExportView>::empty(),
        file_warnings(data) == Seq::<Seq<char>>::empty(),
{
    lemma_first(data, Seq::empty());
}

/// Nothing is written for no exports, and each further one adds its name and
/// the base64 of its value, each with a NUL behind it.
pub proof fn law_exports_are_written(exports: Seq<ExportView>, name: Seq<char>, value: Seq<char>)
    ensures
        written(Seq::<ExportView>::empty()) == Seq::<u8>::empty(),
        written(exports.push((name, value))) == written(exports) + encode_utf8(name) + seq![0u8]
            + encode_utf8(base64_encoded(encode_utf8(value))) + seq![0u8],
        exported_line(name, value) == "DEVENV_EXPORT:"@ + base64_encoded(encode_utf8(name))
            + "="@ + base64_encoded(encode_utf8(value)),
{
    assert(exports.push((name, value)).drop_last() =~= exports);
    assert(written(exports.push((name, value))) =~= written(exports) + encode_utf8(name) + seq![
        0u8,
    ] + encode_utf8(base64_encoded(encode_utf8(value))) + seq![0u8]);
}

/// What the bytes behind the prefix of a line have at the places at which a
/// group of base64 starts, but for the first.
pub open spec fn has_separator_before(rest: Seq<u8>, end: int) -> bool {
    exists|i: int| 4 <= i < end && i % 4 == 0 && #[trigger] rest[i] == 61
}

proof fn lemma_separator_at(rest: Seq<u8>, from: int, at: int)
    requires
        4 <= from <= at < rest.len(),
        from % 4 == 0,
        at % 4 == 0,
        rest[at] == 61,
        !has_separator_before(rest, at),
    ensures
        separator(rest, from) == Some(at),
    decreases at - from,
{
    if from < at {
        assert(rest[from] != 61);
        lemma_separator_at(rest, from + 4, at);
    }
}

proof fn lemma_no_separator(rest: Seq<u8>, from: int)
    requires
        4 <= from,
        from % 4 == 0,
        !has_separator_before(rest, rest.len() as int),
    ensures
        separator(rest, from) is None,
    decreases rest.len() + 4 - from,
{
    if from < rest.len() {
        assert(rest[from] != 61);
        lemma_no_separator(rest, from + 4);
    }
}

/// A line of the prefix, a name of whole base64 groups, an `=` and a value: it
/// exports the text behind the one with the text behind the other, where both
/// can be read. What cannot be read is told, the name before the value.
pub proof fn law_line_is_read(line: Seq<char>, name: Seq<u8>, value: Seq<u8>)
    requires
        encode_utf8(line) == encode_utf8("DEVENV_EXPORT:"@) + name + seq![61u8] + value,
        name.len() >= 4,
        name.len() % 4 == 0,
        !has_separator_before(name, name.len() as int),
    ensures
        match (base64_decoded(name), base64_decoded(value)) {
            (Ok(n), Ok(v)) => {
                &&& line_export(line) == if valid_utf8(n) && valid_utf8(v) {
                    Some((decode_utf8(n), decode_utf8(v)))
                } else {
                    None
                }
                &&& line_warnings(line) == (if valid_utf8(n) {
                    Seq::<Seq<char>>::empty()
                } else {
                    seq![
                        "Skipping "@ + "DEVENV_EXPORT key"@ + " with invalid UTF-8: "@
                            + utf8_refusal(n),
                    ]
                }) + (if valid_utf8(v) {
                    Seq::<Seq<char>>::empty()
                } else {
                    seq![
                        "Skipping "@ + "DEVENV_EXPORT value"@ + " with invalid UTF-8: "@
                            + utf8_refusal(v),
                    ]
                })
            },
            (Ok(n), Err(message)) => {
                &&& line_export(line) is None
                &&& line_warnings(line) == (if valid_utf8(n) {
                    Seq::<Seq<char>>::empty()
                } else {
                    seq![
                        "Skipping "@ + "DEVENV_EXPORT key"@ + " with invalid UTF-8: "@
                            + utf8_refusal(n),
                    ]
                }) + seq![
                    "Skipping "@ + "DEVENV_EXPORT value"@ + " with invalid base64: "@ + message,
                ]
            },
            (Err(message), Ok(v)) => {
                &&& line_export(line) is None
                &&& line_warnings(line) == seq![
                    "Skipping "@ + "DEVENV_EXPORT key"@ + " with invalid base64: "@ + message,
                ] + (if valid_utf8(v) {
                    Seq::<Seq<char>>::empty()
                } else {
                    seq![
                        "Skipping "@ + "DEVENV_EXPORT value"@ + " with invalid UTF-8: "@
                            + utf8_refusal(v),
                    ]
                })
            },
            (Err(first), Err(second)) => {
                &&& line_export(line) is None
                &&& line_warnings(line) == seq![
                    "Skipping "@ + "DEVENV_EXPORT key"@ + " with invalid base64: "@ + first,
                    "Skipping "@ + "DEVENV_EXPORT value"@ + " with invalid base64: "@ + second,
                ]
            },
        },
{
    let bytes = encode_utf8(line);
    let prefix = encode_utf8("DEVENV_EXPORT:"@);
    let rest = bytes.skip(prefix.len() as int);
    let at = name.len() as int;
    assert(prefix.is_prefix_of(bytes)) by {
        assert(bytes.take(prefix.len() as int) =~= prefix);
    }
    assert(rest =~= name + seq![61u8] + value);
    assert(rest[at] == 61);
    assert(!has_separator_before(rest, at)) by {
        assert(forall|i: int| 0 <= i < at ==> #[trigger] rest[i] == name[i]);
    }
    lemma_separator_at(rest, 4, at);
    assert(rest.take(at) =~= name);
    assert(rest.skip(at + 1) =~= value);
    assert(line_warnings(line) =~= optional(decode_warning(name, "DEVENV_EXPORT key"@)) + optional(
        decode_warning(value, "DEVENV_EXPORT value"@),
    ));
}

/// A line without the prefix, or without an `=` where a group of base64 could
/// start behind a name, exports nothing, and nothing is told about it.
pub proof fn law_other_lines_say_nothing(line: Seq<char>)
    requires
        forall|rest: Seq<u8>|
            encode_utf8(line) == #[trigger] (encode_utf8("DEVENV_EXPORT:"@) + rest)
                ==> !has_separator_before(rest, rest.len() as int),
    ensures
        line_export(line) is None,
        line_warnings(line) == Seq::<Seq<char>>::empty(),
{
    let bytes = encode_utf8(line);
    let prefix = encode_utf8("DEVENV_EXPORT:"@);
    if export_prefix().is_prefix_of(bytes) {
        let rest = bytes.skip(prefix.len() as int);
        assert(bytes =~= prefix + rest);
        lemma_no_separator(rest, 4);
    }
}

/// No lines export nothing, and each further line adds what it exports and
/// what is to be told about it behind that of the lines before it.
pub proof fn law_lines_are_read_in_order(lines: Seq<Seq<char>>, line: Seq<char>)
    ensures
        stdout_exports(Seq::<Seq<char>>::empty()) == Seq::<ExportView>::empty(),
        stdout_warnings(Seq::<Seq<char>>::empty()) == Seq::<Seq<char>>::empty(),
        match line_export(line) {
            Some(export) => stdout_exports(lines.push(line)) == stdout_exports(lines).push(export),
            None => stdout_exports(lines.push(line)) == stdout_exports(lines),
        },
        stdout_warnings(lines.push(line)) == stdout_warnings(lines) + line_warnings(line),
{
    assert(lines.push(line).drop_last() =~= lines);
    assert(match line_export(line) {
        Some(export) => stdout_exports(lines.push(line)) =~= stdout_exports(lines).push(export),
        None => stdout_exports(lines.push(line)) =~= stdout_exports(lines),
    });
}

} // verus!
