//! What holds of reading and writing together.

use vstd::prelude::*;
use crate::de::{
    extension_pairs, has_tag, header_at, header_start, is_separator, last_header, last_space,
    layout_at, lemma_last_header, HeaderLayout, marker_at, next_pipe, next_separator, parse_line, record_at,
    segment_tokens, tokens,
};
use crate::record::{
    is_severity_name, is_valid_severity, severity_name_message, severity_of, severity_range_message, severity_text, signature_id_of, signature_id_text,
    RecordModel, SeverityModel, SignatureIdModel,
};
use crate::result::ErrorModel;
use crate::number::{
    decimal_text, digit_char, digit_of, is_digit, lemma_decimal_text_reads_back, lemma_signed_decimal_text_reads_back,
    signed_decimal_text, text_to_i64, text_to_u64,
};
use crate::ser::{all_scalar, extensions_text, header_text, line_of, pair_text, value_text};
use crate::utils::{
    blank_run_start, hostname_of, is_blank, last_blank, last_host_end, marker_start,
};
use crate::value::{false_text, infer, true_text, ValueModel};

verus! {

/// Whether `text` holds no space, no `=` and no `|`.
pub open spec fn is_plain(text: Seq<char>) -> bool {
    forall|i: int|
        0 <= i < text.len() ==> (#[trigger] text[i]) != ' ' && text[i] != '=' && text[i] != '|'
}

/// Whether the type of `value` is the one that its text is read as: a text
/// that has the shape of a number or of a boolean is read as one, a signed
/// number that is not negative is read as an unsigned one, and a character
/// is read as a text.
pub open spec fn keeps_type(value: ValueModel) -> bool {
    match value {
        ValueModel::Bool(_) => true,
        ValueModel::U64(_) => true,
        ValueModel::I64(n) => n < 0,
        ValueModel::Float(text) => infer(text) == value,
        ValueModel::String(text) => infer(text) == value,
        ValueModel::Char(_) => false,
        ValueModel::Composite => false,
    }
}

/// Whether an extension is written plainly: its value is a scalar, its key
/// and the text of its value are plain, and the key does not end in a
/// backslash, which would take the `=` after it for a part of the key.
pub open spec fn extension_is_plain(extension: (Seq<char>, ValueModel)) -> bool {
    &&& is_plain(extension.0)
    &&& extension.0.len() > 0 ==> extension.0.last() != '\\'
    &&& value_text(extension.1) is Some
    &&& is_plain(value_text(extension.1).unwrap())
}

/// Whether an extension is read back as it was written: it is written
/// plainly, and its value keeps its type.
pub open spec fn extension_reads_back(extension: (Seq<char>, ValueModel)) -> bool {
    extension_is_plain(extension) && keeps_type(extension.1)
}

/// What is read of extensions that were written: each key as it is, with
/// the value that the text of its value is read as, in the same order.
pub open spec fn read_as_written(extensions: Seq<(Seq<char>, ValueModel)>) -> Seq<
    (Seq<char>, ValueModel),
> {
    Seq::new(
        extensions.len(),
        |i: int| (extensions[i].0, infer(value_text(extensions[i].1).unwrap())),
    )
}

/// The text of a value that keeps its type is read as that value.
pub proof fn lemma_value_reads_back(value: ValueModel)
    requires
        keeps_type(value),
    ensures
        value_text(value) is Some,
        infer(value_text(value).unwrap()) == value,
{
    match value {
        ValueModel::Bool(b) => {
            assert(true_text().len() == 4);
            assert(false_text().len() == 5);
        },
        ValueModel::U64(n) => {
            let t = decimal_text(n as nat);
            lemma_decimal_text_reads_back(n as nat);
            assert(is_digit(t[0]));
            assert(true_text()[0] == 't');
            assert(false_text()[0] == 'f');
        },
        ValueModel::I64(n) => {
            let t = signed_decimal_text(n as int);
            lemma_signed_decimal_text_reads_back(n as int);
            assert(t[0] == '-');
            assert(true_text()[0] == 't');
            assert(false_text()[0] == 'f');
        },
        _ => {},
    }
}

/// Where no `=` stands from `from` up to `to`, and `to` is a separator or
/// the end, the next separator from `from` is `to`.
pub proof fn lemma_next_separator_is(s: Seq<char>, from: int, to: int)
    requires
        0 <= from <= to <= s.len(),
        forall|j: int| from <= j < to ==> s[j] != '=',
        to == s.len() || is_separator(s, to),
    ensures
        next_separator(s, from) == to,
    decreases to - from,
{
    if from < to {
        lemma_next_separator_is(s, from + 1, to);
    }
}

/// A text without a space has no last space.
pub proof fn lemma_last_space_none(segment: Seq<char>)
    requires
        forall|j: int| 0 <= j < segment.len() ==> segment[j] != ' ',
    ensures
        last_space(segment) == -1,
    decreases segment.len(),
{
    if segment.len() > 0 {
        lemma_last_space_none(segment.drop_last());
    }
}

/// A space with no space after it is the last space.
pub proof fn lemma_last_space_is(segment: Seq<char>, k: int)
    requires
        0 <= k < segment.len(),
        segment[k] == ' ',
        forall|j: int| k < j < segment.len() ==> segment[j] != ' ',
    ensures
        last_space(segment) == k,
    decreases segment.len(),
{
    if k < segment.len() - 1 {
        lemma_last_space_is(segment.drop_last(), k);
    }
}

/// What follows the first `=` in the text of a list of extensions: the
/// text of the first value and, for each extension after it, a space, its
/// key, `=` and the text of its value.
pub open spec fn values_text(extensions: Seq<(Seq<char>, ValueModel)>) -> Seq<char>
    decreases extensions.len(),
{
    if extensions.len() == 0 {
        Seq::empty()
    } else if extensions.len() == 1 {
        value_text(extensions[0].1).unwrap()
    } else {
        value_text(extensions[0].1).unwrap() + seq![' '] + extensions[1].0 + seq!['=']
            + values_text(extensions.skip(1))
    }
}

/// The tokens of `values_text`: the text of the first value and, for each
/// extension after it, its key and the text of its value.
pub open spec fn values_tokens(extensions: Seq<(Seq<char>, ValueModel)>) -> Seq<Seq<char>>
    decreases extensions.len(),
{
    if extensions.len() == 0 {
        Seq::empty()
    } else if extensions.len() == 1 {
        seq![value_text(extensions[0].1).unwrap()]
    } else {
        seq![value_text(extensions[0].1).unwrap(), extensions[1].0] + values_tokens(
            extensions.skip(1),
        )
    }
}

/// The text of a list of extensions is the first key, `=`, and
/// `values_text`.
pub proof fn lemma_extensions_text_splits(extensions: Seq<(Seq<char>, ValueModel)>)
    requires
        extensions.len() > 0,
    ensures
        extensions_text(extensions) == extensions[0].0 + seq!['='] + values_text(extensions),
    decreases extensions.len(),
{
    if extensions.len() > 1 {
        let rest = extensions.skip(1);
        lemma_extensions_text_splits(rest);
        assert(rest[0] == extensions[1]);
        assert(extensions_text(extensions) =~= extensions[0].0 + seq!['='] + values_text(
            extensions,
        ));
    }
}

/// In a text whose end, from `start` on, is the `values_text` of extensions
/// that are written plainly, the tokens from `start` on are their
/// `values_tokens`.
pub proof fn lemma_values_tokens(
    s: Seq<char>,
    start: int,
    extensions: Seq<(Seq<char>, ValueModel)>,
)
    requires
        extensions.len() > 0,
        0 <= start <= s.len(),
        s.skip(start) == values_text(extensions),
        forall|i: int| 0 <= i < extensions.len() ==> extension_is_plain(#[trigger] extensions[i]),
    ensures
        tokens(s, start) == values_tokens(extensions),
    decreases extensions.len(),
{
    let tail = s.skip(start);
    let first = value_text(extensions[0].1).unwrap();
    assert(extension_is_plain(extensions[0]));
    assert forall|j: int| start <= j < s.len() implies s[j] == tail[j - start] by {}
    if extensions.len() == 1 {
        assert(tail == first);
        assert forall|j: int| start <= j < s.len() implies s[j] != '=' by {
            assert(s[j] == first[j - start]);
        }
        lemma_next_separator_is(s, start, s.len() as int);
    } else {
        let key = extensions[1].0;
        let rest = extensions.skip(1);
        assert(extension_is_plain(extensions[1]));
        assert(rest[0] == extensions[1]);
        let space = start + first.len();
        let p = space + 1 + key.len();
        let after = values_text(rest);
        assert(tail == first + seq![' '] + key + seq!['='] + after);
        assert(tail.len() == first.len() + 1 + key.len() + 1 + after.len());
        assert forall|j: int| start <= j < space implies s[j] == first[j - start] by {}
        assert(s[space] == ' ');
        assert forall|j: int| space < j < p implies s[j] == key[j - space - 1] by {}
        assert(s[p] == '=');
        assert(s[p - 1] != '\\') by {
            if key.len() > 0 {
                assert(s[p - 1] == key[key.len() - 1]);
            }
        }
        assert(is_separator(s, p));
        assert forall|j: int| start <= j < p implies s[j] != '=' by {
            if j < space {
                assert(s[j] == first[j - start]);
            } else if j > space {
                assert(s[j] == key[j - space - 1]);
            }
        }
        lemma_next_separator_is(s, start, p);
        let segment = s.subrange(start, p);
        assert(segment[space - start] == ' ');
        assert forall|j: int| space - start < j < segment.len() implies segment[j] != ' ' by {
            assert(segment[j] == key[j - (space - start) - 1]);
        }
        lemma_last_space_is(segment, space - start);
        assert(segment.take(space - start) =~= first);
        assert(segment.skip(space - start + 1) =~= key);
        assert(segment_tokens(segment) == seq![first, key]);
        assert(s.skip(p + 1) =~= after);
        assert forall|i: int| 0 <= i < rest.len() implies extension_is_plain(
            #[trigger] rest[i],
        ) by {
            assert(rest[i] == extensions[i + 1]);
        }
        lemma_values_tokens(s, p + 1, rest);
    }
}

/// The tokens of `values_tokens`, one by one.
pub proof fn lemma_values_tokens_items(extensions: Seq<(Seq<char>, ValueModel)>)
    requires
        extensions.len() > 0,
    ensures
        values_tokens(extensions).len() == 2 * extensions.len() - 1,
        forall|i: int|
            0 <= i < extensions.len() ==> #[trigger] values_tokens(extensions)[2 * i] == value_text(
                extensions[i].1,
            ).unwrap(),
        forall|i: int|
            1 <= i < extensions.len() ==> #[trigger] values_tokens(extensions)[2 * i - 1]
                == extensions[i].0,
    decreases extensions.len(),
{
    if extensions.len() > 1 {
        let rest = extensions.skip(1);
        lemma_values_tokens_items(rest);
        let t = values_tokens(extensions);
        let u = values_tokens(rest);
        assert(t == seq![value_text(extensions[0].1).unwrap(), extensions[1].0] + u);
        assert forall|i: int| 0 <= i < extensions.len() implies #[trigger] t[2 * i] == value_text(
            extensions[i].1,
        ).unwrap() by {
            if i > 0 {
                assert(t[2 * i] == u[2 * (i - 1)]);
                assert(rest[i - 1] == extensions[i]);
            }
        }
        assert forall|i: int| 1 <= i < extensions.len() implies #[trigger] t[2 * i - 1]
            == extensions[i].0 by {
            if i > 1 {
                assert(t[2 * i - 1] == u[2 * (i - 1) - 1]);
                assert(rest[i - 1] == extensions[i]);
            }
        }
    }
}

/// Of extensions that are written plainly, each is read from their text:
/// none is lost and none is added, each key is read as it is, each value is
/// the one that its text is read as, and the order is kept.
pub proof fn lemma_extensions_read_as_written(extensions: Seq<(Seq<char>, ValueModel)>)
    requires
        forall|i: int| 0 <= i < extensions.len() ==> extension_is_plain(#[trigger] extensions[i]),
    ensures
        extension_pairs(extensions_text(extensions)) == read_as_written(extensions),
{
    let s = extensions_text(extensions);
    if extensions.len() == 0 {
        assert(s.len() == 0);
        assert(next_separator(s, 0) == 0);
        assert(tokens(s, 0) == seq![s.skip(0)]);
        assert(extension_pairs(s) =~= read_as_written(extensions));
    } else {
        let key = extensions[0].0;
        assert(extension_is_plain(extensions[0]));
        lemma_extensions_text_splits(extensions);
        let p = key.len() as int;
        assert(s == key + seq!['='] + values_text(extensions));
        assert forall|j: int| 0 <= j < p implies s[j] == key[j] by {}
        assert(s[p] == '=');
        assert(is_separator(s, p)) by {
            if p > 0 {
                assert(s[p - 1] == key[p - 1]);
            }
        }
        lemma_next_separator_is(s, 0, p);
        let segment = s.subrange(0, p);
        assert(segment =~= key);
        lemma_last_space_none(segment);
        assert(s.skip(p + 1) =~= values_text(extensions));
        lemma_values_tokens(s, p + 1, extensions);
        lemma_values_tokens_items(extensions);
        let t = tokens(s, 0);
        let u = values_tokens(extensions);
        assert(t == seq![key] + u);
        assert(t.len() == 2 * extensions.len());
        let pairs = extension_pairs(s);
        assert(pairs.len() == extensions.len());
        assert forall|i: int| 0 <= i < extensions.len() implies pairs[i] == read_as_written(
            extensions,
        )[i] by {
            assert(t[2 * i + 1] == u[2 * i]);
            if i > 0 {
                assert(t[2 * i] == u[2 * i - 1]);
            }
        }
        assert(pairs =~= read_as_written(extensions));
    }
}

/// Extensions whose values keep their type are read as they are.
pub proof fn lemma_values_read_back(extensions: Seq<(Seq<char>, ValueModel)>)
    requires
        forall|i: int| 0 <= i < extensions.len() ==> keeps_type((#[trigger] extensions[i]).1),
    ensures
        read_as_written(extensions) == extensions,
{
    assert forall|i: int| 0 <= i < extensions.len() implies read_as_written(extensions)[i]
        == extensions[i] by {
        assert(keeps_type(extensions[i].1));
        lemma_value_reads_back(extensions[i].1);
    }
    assert(read_as_written(extensions) =~= extensions);
}

/// Extensions that read back are read from their text as they are, in their
/// order.
pub proof fn lemma_extensions_read_back(extensions: Seq<(Seq<char>, ValueModel)>)
    requires
        forall|i: int| 0 <= i < extensions.len() ==> extension_reads_back(#[trigger] extensions[i]),
    ensures
        extension_pairs(extensions_text(extensions)) == extensions,
{
    assert forall|i: int| 0 <= i < extensions.len() implies extension_is_plain(
        #[trigger] extensions[i],
    ) && keeps_type(extensions[i].1) by {
        assert(extension_reads_back(extensions[i]));
    }
    lemma_extensions_read_as_written(extensions);
    lemma_values_read_back(extensions);
}


/// Whether `text` can stand as a field of a header: it has one character at
/// least, and none of them is a `|`.
pub open spec fn is_field(text: Seq<char>) -> bool {
    text.len() > 0 && forall|i: int| 0 <= i < text.len() ==> text[i] != '|'
}

/// Whether the header of a record is one that a line can hold: its prefix,
/// if it has one, is not empty and does not begin with `CEF`; its version is
/// one digit; its vendor, product, device version and signature are fields;
/// its signature id is a number, or a field that does not read as a number;
/// its severity is a number up to ten or one of the five names.
pub open spec fn header_is_well_formed(record: RecordModel) -> bool {
    &&& match record.headers {
        Some(prefix) => prefix.len() > 0 && !has_tag(prefix),
        None => true,
    }
    &&& record.version <= 9
    &&& is_field(record.device_vendor)
    &&& is_field(record.device_product)
    &&& is_field(record.device_version)
    &&& match record.signature_id {
        SignatureIdModel::U64(_) => true,
        SignatureIdModel::String(text) => is_field(text) && text_to_u64(text) is None,
    }
    &&& is_field(record.signature)
    &&& is_valid_severity(record.severity)
}

/// Whether a record is written plainly: its header is well formed, and each
/// of its extensions is written plainly.
pub open spec fn record_is_plain(record: RecordModel) -> bool {
    &&& header_is_well_formed(record)
    &&& forall|i: int|
        0 <= i < record.extensions.len() ==> extension_is_plain(#[trigger] record.extensions[i])
}

/// Whether a record is read back as it was written: its header is well
/// formed, and each of its extensions reads back.
pub open spec fn record_reads_back(record: RecordModel) -> bool {
    &&& header_is_well_formed(record)
    &&& forall|i: int|
        0 <= i < record.extensions.len() ==> extension_reads_back(#[trigger] record.extensions[i])
}

/// No `|` stands between an index and the next `|` after it.
pub proof fn lemma_no_pipe_before_next(s: Seq<char>, from: int)
    requires
        0 <= from <= s.len(),
    ensures
        forall|j: int| from <= j < next_pipe(s, from) ==> s[j] != '|',
    decreases s.len() - from,
{
    if from < s.len() && s[from] != '|' {
        lemma_no_pipe_before_next(s, from + 1);
    }
}

/// What lies between an index and the next `|` after it is a field, if it
/// has one character at least.
pub proof fn lemma_field_before_next_pipe(s: Seq<char>, from: int)
    requires
        0 <= from < next_pipe(s, from) <= s.len(),
    ensures
        is_field(s.subrange(from, next_pipe(s, from))),
{
    lemma_no_pipe_before_next(s, from);
}

/// The header of a record that was read from a line is well formed.
pub proof fn lemma_read_header_is_well_formed(s: Seq<char>)
    requires
        parse_line(s) is Ok,
    ensures
        header_is_well_formed(parse_line(s)->Ok_0),
{
    let p = header_start(s)->Some_0;
    if !has_tag(s) {
        lemma_last_header(s, s.len() as int);
    }
    assert(header_at(s, p));
    let at = layout_at(s, p);
    let record = parse_line(s)->Ok_0;
    lemma_field_before_next_pipe(s, p + 6);
    lemma_field_before_next_pipe(s, at.vendor_end + 1);
    lemma_field_before_next_pipe(s, at.product_end + 1);
    lemma_field_before_next_pipe(s, at.device_version_end + 1);
    lemma_field_before_next_pipe(s, at.signature_id_end + 1);
    match record.headers {
        Some(prefix) => {
            assert(prefix == s.take(p));
            assert(p > 0);
            if p >= 3 {
                assert(prefix[0] == s[0] && prefix[1] == s[1] && prefix[2] == s[2]);
            }
        },
        None => {},
    }
}

/// Where no `|` stands from `from` up to `to`, and one stands at `to`, the
/// next `|` from `from` is at `to`.
pub proof fn lemma_next_pipe_is(s: Seq<char>, from: int, to: int)
    requires
        0 <= from <= to < s.len(),
        forall|j: int| from <= j < to ==> s[j] != '|',
        s[to] == '|',
    ensures
        next_pipe(s, from) == to,
    decreases to - from,
{
    if from < to {
        lemma_next_pipe_is(s, from + 1, to);
    }
}

/// The next `|` from `from` lies at `from` or after it, and a `|` stands
/// there unless it is the end.
pub proof fn lemma_next_pipe_bounds(s: Seq<char>, from: int)
    requires
        0 <= from <= s.len(),
    ensures
        from <= next_pipe(s, from) <= s.len(),
        next_pipe(s, from) < s.len() ==> s[next_pipe(s, from)] == '|',
    decreases s.len() - from,
{
    if from < s.len() && s[from] != '|' {
        lemma_next_pipe_bounds(s, from + 1);
    }
}

/// The text of extensions whose keys and values are plain holds no `|`.
pub proof fn lemma_extensions_text_has_no_pipe(extensions: Seq<(Seq<char>, ValueModel)>)
    requires
        forall|i: int| 0 <= i < extensions.len() ==> extension_is_plain(#[trigger] extensions[i]),
    ensures
        forall|j: int|
            0 <= j < extensions_text(extensions).len() ==> extensions_text(extensions)[j] != '|',
    decreases extensions.len(),
{
    if extensions.len() > 0 {
        assert(extension_is_plain(extensions[0]));
        let first = pair_text(extensions[0]);
        let key = extensions[0].0;
        let value = value_text(extensions[0].1).unwrap();
        assert forall|j: int| 0 <= j < first.len() implies first[j] != '|' by {
            if j < key.len() {
                assert(first[j] == key[j]);
            } else if j > key.len() {
                assert(first[j] == value[j - key.len() - 1]);
            }
        }
        if extensions.len() > 1 {
            let rest = extensions.skip(1);
            assert forall|i: int| 0 <= i < rest.len() implies extension_is_plain(
                #[trigger] rest[i],
            ) by {
                assert(rest[i] == extensions[i + 1]);
            }
            lemma_extensions_text_has_no_pipe(rest);
            let t = extensions_text(extensions);
            let u = extensions_text(rest);
            assert forall|j: int| 0 <= j < t.len() implies t[j] != '|' by {
                if j < first.len() {
                    assert(t[j] == first[j]);
                } else if j > first.len() {
                    assert(t[j] == u[j - first.len() - 1]);
                }
            }
        }
    }
}

/// The text of a severity is read as that severity.
pub proof fn lemma_severity_reads_back(severity: SeverityModel)
    requires
        is_valid_severity(severity),
    ensures
        is_field(severity_text(severity)),
        severity_of(severity_text(severity)) == Ok::<SeverityModel, ErrorModel>(severity),
{
    match severity {
        SeverityModel::U8(level) => {
            lemma_decimal_text_reads_back(level as nat);
            let t = decimal_text(level as nat);
            assert forall|i: int| 0 <= i < t.len() implies t[i] != '|' by {
                assert(is_digit(t[i]));
            }
        },
        SeverityModel::String(text) => {
            reveal_strlit("Unknown");
            reveal_strlit("Low");
            reveal_strlit("Medium");
            reveal_strlit("High");
            reveal_strlit("Very-High");
            assert(text.len() > 0);
            assert(!is_digit(text[0]) && text[0] != '+');
            assert forall|i: int| 0 <= i < text.len() implies text[i] != '|' by {}
        },
    }
}

/// The text of a signature id is read as that signature id.
pub proof fn lemma_signature_id_reads_back(id: SignatureIdModel)
    requires
        match id {
            SignatureIdModel::U64(_) => true,
            SignatureIdModel::String(text) => is_field(text) && text_to_u64(text) is None,
        },
    ensures
        is_field(signature_id_text(id)),
        signature_id_of(signature_id_text(id)) == id,
{
    match id {
        SignatureIdModel::U64(n) => {
            lemma_decimal_text_reads_back(n as nat);
            let t = decimal_text(n as nat);
            assert forall|i: int| 0 <= i < t.len() implies t[i] != '|' by {
                assert(is_digit(t[i]));
            }
        },
        SignatureIdModel::String(text) => {},
    }
}


/// A line put together from its parts: the prefix, the marker, the digit of
/// the version, six fields with a `|` after each, and the extensions.
#[verifier::opaque]
pub open spec fn line_text(
    prefix: Seq<char>,
    version: char,
    fields: Seq<Seq<char>>,
    extensions: Seq<char>,
) -> Seq<char> {
    prefix + seq!['C', 'E', 'F', ':'] + seq![version] + seq!['|'] + fields[0] + seq!['|']
        + fields[1] + seq!['|'] + fields[2] + seq!['|'] + fields[3] + seq!['|'] + fields[4]
        + seq!['|'] + fields[5] + seq!['|'] + extensions
}

/// Where each part of a line that `line_text` puts together comes to lie.
spec fn is_laid_out(
    s: Seq<char>,
    prefix: Seq<char>,
    version: char,
    fields: Seq<Seq<char>>,
    extensions: Seq<char>,
) -> bool {
    let p = prefix.len() as int;
    let e0 = p + 6 + fields[0].len();
    let e1 = e0 + 1 + fields[1].len();
    let e2 = e1 + 1 + fields[2].len();
    let e3 = e2 + 1 + fields[3].len();
    let e4 = e3 + 1 + fields[4].len();
    let e5 = e4 + 1 + fields[5].len();
    &&& s.len() == e5 + 1 + extensions.len()
    &&& forall|k: int| 0 <= k < p ==> s[k] == prefix[k]
    &&& s[p] == 'C' && s[p + 1] == 'E' && s[p + 2] == 'F' && s[p + 3] == ':'
    &&& s[p + 4] == version
    &&& s[p + 5] == '|'
    &&& forall|k: int| p + 6 <= k < e0 ==> s[k] == fields[0][k - (p + 6)]
    &&& s[e0] == '|'
    &&& forall|k: int| e0 + 1 <= k < e1 ==> s[k] == fields[1][k - (e0 + 1)]
    &&& s[e1] == '|'
    &&& forall|k: int| e1 + 1 <= k < e2 ==> s[k] == fields[2][k - (e1 + 1)]
    &&& s[e2] == '|'
    &&& forall|k: int| e2 + 1 <= k < e3 ==> s[k] == fields[3][k - (e2 + 1)]
    &&& s[e3] == '|'
    &&& forall|k: int| e3 + 1 <= k < e4 ==> s[k] == fields[4][k - (e3 + 1)]
    &&& s[e4] == '|'
    &&& forall|k: int| e4 + 1 <= k < e5 ==> s[k] == fields[5][k - (e4 + 1)]
    &&& s[e5] == '|'
    &&& forall|k: int| e5 + 1 <= k < s.len() ==> s[k] == extensions[k - (e5 + 1)]
}

/// A text with a field, a `|` and a rest after it holds each of them in its
/// place.
proof fn lemma_field_appended(head: Seq<char>, field: Seq<char>, rest: Seq<char>)
    ensures
        ({
            let s = head + field + seq!['|'] + rest;
            let a = head.len() as int;
            let e = a + field.len();
            &&& s.len() == e + 1 + rest.len()
            &&& forall|k: int| 0 <= k < a ==> s[k] == head[k]
            &&& forall|k: int| a <= k < e ==> s[k] == field[k - a]
            &&& s[e] == '|'
            &&& forall|k: int| e + 1 <= k < s.len() ==> s[k] == rest[k - (e + 1)]
        }),
{
}

/// A field and its `|` stand after what is before them as well as before
/// what is after them.
proof fn lemma_field_moves(head: Seq<char>, field: Seq<char>, rest: Seq<char>)
    ensures
        (head + field + seq!['|']) + rest == head + (field + seq!['|'] + rest),
{
    assert((head + field + seq!['|']) + rest =~= head + (field + seq!['|'] + rest));
}

/// `line_text` puts the parts of a line where `is_laid_out` says.
proof fn lemma_line_is_laid_out(
    prefix: Seq<char>,
    version: char,
    fields: Seq<Seq<char>>,
    extensions: Seq<char>,
)
    requires
        fields.len() == 6,
    ensures
        is_laid_out(
            line_text(prefix, version, fields, extensions),
            prefix,
            version,
            fields,
            extensions,
        ),
{
    reveal(line_text);
    let s = line_text(prefix, version, fields, extensions);
    let t0 = prefix + seq!['C', 'E', 'F', ':'] + seq![version] + seq!['|'];
    let t1 = t0 + fields[0] + seq!['|'];
    let t2 = t1 + fields[1] + seq!['|'];
    let t3 = t2 + fields[2] + seq!['|'];
    let t4 = t3 + fields[3] + seq!['|'];
    let t5 = t4 + fields[4] + seq!['|'];
    let t6 = t5 + fields[5] + seq!['|'];
    let r6 = extensions;
    let r5 = fields[5] + seq!['|'] + r6;
    let r4 = fields[4] + seq!['|'] + r5;
    let r3 = fields[3] + seq!['|'] + r4;
    let r2 = fields[2] + seq!['|'] + r3;
    let r1 = fields[1] + seq!['|'] + r2;
    assert(s == t6 + r6);
    lemma_field_moves(t5, fields[5], r6);
    assert(s == t5 + r5);
    lemma_field_moves(t4, fields[4], r5);
    assert(s == t4 + r4);
    lemma_field_moves(t3, fields[3], r4);
    assert(s == t3 + r3);
    lemma_field_moves(t2, fields[2], r3);
    assert(s == t2 + r2);
    lemma_field_moves(t1, fields[1], r2);
    assert(s == t1 + r1);
    lemma_line_chars(s, prefix, version, fields, extensions, t0, r1, r2, r3, r4, r5);
}

/// The characters of a line, from the ways in which it splits into a
/// beginning, a field, a `|` and a rest.
proof fn lemma_line_chars(
    s: Seq<char>,
    prefix: Seq<char>,
    version: char,
    fields: Seq<Seq<char>>,
    extensions: Seq<char>,
    t0: Seq<char>,
    r1: Seq<char>,
    r2: Seq<char>,
    r3: Seq<char>,
    r4: Seq<char>,
    r5: Seq<char>,
)
    requires
        fields.len() == 6,
        t0 == prefix + seq!['C', 'E', 'F', ':'] + seq![version] + seq!['|'],
        s == t0 + fields[0] + seq!['|'] + r1,
        s == t0 + fields[0] + seq!['|'] + fields[1] + seq!['|'] + r2,
        s == t0 + fields[0] + seq!['|'] + fields[1] + seq!['|'] + fields[2] + seq!['|'] + r3,
        s == t0 + fields[0] + seq!['|'] + fields[1] + seq!['|'] + fields[2] + seq!['|']
            + fields[3] + seq!['|'] + r4,
        s == t0 + fields[0] + seq!['|'] + fields[1] + seq!['|'] + fields[2] + seq!['|']
            + fields[3] + seq!['|'] + fields[4] + seq!['|'] + r5,
        s == t0 + fields[0] + seq!['|'] + fields[1] + seq!['|'] + fields[2] + seq!['|']
            + fields[3] + seq!['|'] + fields[4] + seq!['|'] + fields[5] + seq!['|'] + extensions,
    ensures
        is_laid_out(s, prefix, version, fields, extensions),
{
    let p = prefix.len() as int;
    let t1 = t0 + fields[0] + seq!['|'];
    let t2 = t1 + fields[1] + seq!['|'];
    let t3 = t2 + fields[2] + seq!['|'];
    let t4 = t3 + fields[3] + seq!['|'];
    let t5 = t4 + fields[4] + seq!['|'];
    assert(t0.len() == p + 6);
    assert(t0[p] == 'C' && t0[p + 1] == 'E' && t0[p + 2] == 'F' && t0[p + 3] == ':' && t0[p + 4]
        == version && t0[p + 5] == '|');
    assert forall|k: int| 0 <= k < p implies t0[k] == prefix[k] by {}
    lemma_field_appended(t0, fields[0], r1);
    lemma_field_appended(t1, fields[1], r2);
    lemma_field_appended(t2, fields[2], r3);
    lemma_field_appended(t3, fields[3], r4);
    lemma_field_appended(t4, fields[4], r5);
    lemma_field_appended(t5, fields[5], extensions);
}

/// In a line put together from a digit, six fields and extensions without a
/// `|`, a header stands where the prefix ends, and none after it; each field
/// of the header is the part that was put in, and what follows the header is
/// the extensions.
pub proof fn lemma_line_layout(
    prefix: Seq<char>,
    version: char,
    fields: Seq<Seq<char>>,
    extensions: Seq<char>,
)
    requires
        is_digit(version),
        fields.len() == 6,
        forall|i: int| 0 <= i < 6 ==> is_field(#[trigger] fields[i]),
        forall|j: int| 0 <= j < extensions.len() ==> extensions[j] != '|',
    ensures
        ({
            let s = line_text(prefix, version, fields, extensions);
            let p = prefix.len() as int;
            let at = layout_at(s, p);
            &&& header_at(s, p)
            &&& forall|q: int| p < q ==> !header_at(s, q)
            &&& s.take(p) == prefix
            &&& s[p + 4] == version
            &&& s.subrange(p + 6, at.vendor_end) == fields[0]
            &&& s.subrange(at.vendor_end + 1, at.product_end) == fields[1]
            &&& s.subrange(at.product_end + 1, at.device_version_end) == fields[2]
            &&& s.subrange(at.device_version_end + 1, at.signature_id_end) == fields[3]
            &&& s.subrange(at.signature_id_end + 1, at.signature_end) == fields[4]
            &&& s.subrange(at.signature_end + 1, at.severity_end) == fields[5]
            &&& s.skip(at.severity_end + 1) == extensions
        }),
{
    let s = line_text(prefix, version, fields, extensions);
    lemma_line_is_laid_out(prefix, version, fields, extensions);
    lemma_laid_out_layout(s, prefix, version, fields, extensions);
}

/// In a line laid out from a digit, six fields and extensions without a
/// `|`, a header stands where the prefix ends, and none after it; each field
/// of the header is the part that was put in, and what follows the header is
/// the extensions.
proof fn lemma_laid_out_layout(
    s: Seq<char>,
    prefix: Seq<char>,
    version: char,
    fields: Seq<Seq<char>>,
    extensions: Seq<char>,
)
    requires
        is_laid_out(s, prefix, version, fields, extensions),
        is_digit(version),
        fields.len() == 6,
        forall|i: int| 0 <= i < 6 ==> is_field(#[trigger] fields[i]),
        forall|j: int| 0 <= j < extensions.len() ==> extensions[j] != '|',
    ensures
        ({
            let p = prefix.len() as int;
            let at = layout_at(s, p);
            &&& header_at(s, p)
            &&& forall|q: int| p < q ==> !header_at(s, q)
            &&& s.take(p) == prefix
            &&& s[p + 4] == version
            &&& s.subrange(p + 6, at.vendor_end) == fields[0]
            &&& s.subrange(at.vendor_end + 1, at.product_end) == fields[1]
            &&& s.subrange(at.product_end + 1, at.device_version_end) == fields[2]
            &&& s.subrange(at.device_version_end + 1, at.signature_id_end) == fields[3]
            &&& s.subrange(at.signature_id_end + 1, at.signature_end) == fields[4]
            &&& s.subrange(at.signature_end + 1, at.severity_end) == fields[5]
            &&& s.skip(at.severity_end + 1) == extensions
        }),
{
    let p = prefix.len() as int;
    let f0 = fields[0];
    let f1 = fields[1];
    let f2 = fields[2];
    let f3 = fields[3];
    let f4 = fields[4];
    let f5 = fields[5];
    assert(is_field(f0) && is_field(f1) && is_field(f2) && is_field(f3) && is_field(f4)
        && is_field(f5));
    let e0 = p + 6 + f0.len();
    let e1 = e0 + 1 + f1.len();
    let e2 = e1 + 1 + f2.len();
    let e3 = e2 + 1 + f3.len();
    let e4 = e3 + 1 + f4.len();
    let e5 = e4 + 1 + f5.len();
    assert(s.take(p) =~= prefix);
    assert(marker_at(s, p));
    lemma_next_pipe_is(s, p + 6, e0);
    lemma_next_pipe_is(s, e0 + 1, e1);
    lemma_next_pipe_is(s, e1 + 1, e2);
    lemma_next_pipe_is(s, e2 + 1, e3);
    lemma_next_pipe_is(s, e3 + 1, e4);
    lemma_next_pipe_is(s, e4 + 1, e5);
    let at = layout_at(s, p);
    assert(at.vendor_end == e0 && at.product_end == e1 && at.device_version_end == e2
        && at.signature_id_end == e3 && at.signature_end == e4 && at.severity_end == e5);
    assert(header_at(s, p));
    assert(s.subrange(p + 6, e0) =~= f0);
    assert(s.subrange(e0 + 1, e1) =~= f1);
    assert(s.subrange(e1 + 1, e2) =~= f2);
    assert(s.subrange(e2 + 1, e3) =~= f3);
    assert(s.subrange(e3 + 1, e4) =~= f4);
    assert(s.subrange(e4 + 1, e5) =~= f5);
    assert(s.skip(e5 + 1) =~= extensions);
    lemma_no_later_header(s, prefix, version, fields, extensions);
}

/// In a line laid out from six fields and extensions without a `|`, no
/// header stands after the one at the end of the prefix: after the first
/// `|` of that header, a `|` stands at the end of each field and nowhere
/// else, which is too few for another header.
proof fn lemma_no_later_header(
    s: Seq<char>,
    prefix: Seq<char>,
    version: char,
    fields: Seq<Seq<char>>,
    extensions: Seq<char>,
)
    requires
        is_laid_out(s, prefix, version, fields, extensions),
        fields.len() == 6,
        forall|i: int| 0 <= i < 6 ==> is_field(#[trigger] fields[i]),
        forall|j: int| 0 <= j < extensions.len() ==> extensions[j] != '|',
    ensures
        forall|q: int| prefix.len() < q ==> !header_at(s, q),
{
    let p = prefix.len() as int;
    let f0 = fields[0];
    let f1 = fields[1];
    let f2 = fields[2];
    let f3 = fields[3];
    let f4 = fields[4];
    let f5 = fields[5];
    assert(is_field(f0) && is_field(f1) && is_field(f2) && is_field(f3) && is_field(f4)
        && is_field(f5));
    let e0 = p + 6 + f0.len();
    let e1 = e0 + 1 + f1.len();
    let e2 = e1 + 1 + f2.len();
    let e3 = e2 + 1 + f3.len();
    let e4 = e3 + 1 + f4.len();
    let e5 = e4 + 1 + f5.len();
    assert forall|k: int| p + 5 < k < s.len() && s[k] == '|' implies k == e0 || k == e1 || k == e2
        || k == e3 || k == e4 || k == e5 by {
        if k < e0 {
            assert(s[k] == f0[k - (p + 6)]);
        } else if e0 < k < e1 {
            assert(s[k] == f1[k - (e0 + 1)]);
        } else if e1 < k < e2 {
            assert(s[k] == f2[k - (e1 + 1)]);
        } else if e2 < k < e3 {
            assert(s[k] == f3[k - (e2 + 1)]);
        } else if e3 < k < e4 {
            assert(s[k] == f4[k - (e3 + 1)]);
        } else if e4 < k < e5 {
            assert(s[k] == f5[k - (e4 + 1)]);
        } else if k > e5 {
            assert(s[k] == extensions[k - (e5 + 1)]);
        }
    }
    assert forall|q: int| p < q implies !header_at(s, q) by {
        if header_at(s, q) {
            let later = layout_at(s, q);
            lemma_next_pipe_bounds(s, q + 6);
            lemma_next_pipe_bounds(s, later.vendor_end + 1);
            lemma_next_pipe_bounds(s, later.product_end + 1);
            lemma_next_pipe_bounds(s, later.device_version_end + 1);
            lemma_next_pipe_bounds(s, later.signature_id_end + 1);
            lemma_next_pipe_bounds(s, later.signature_end + 1);
            assert(q + 5 >= e0);
            assert(later.vendor_end >= e1);
            assert(later.product_end >= e2);
            assert(later.device_version_end >= e3);
            assert(later.signature_id_end >= e4);
            assert(later.signature_end >= e5);
            assert(later.severity_end > e5);
            assert(false);
        }
    }
}


/// The prefix of a record as a text: empty where it has none.
pub open spec fn prefix_of(record: RecordModel) -> Seq<char> {
    match record.headers {
        Some(text) => text,
        None => Seq::empty(),
    }
}

/// The six fields of a record after its version, as they are written.
pub open spec fn fields_of(record: RecordModel) -> Seq<Seq<char>> {
    seq![
        record.device_vendor,
        record.device_product,
        record.device_version,
        signature_id_text(record.signature_id),
        record.signature,
        severity_text(record.severity),
    ]
}

/// A record that is written plainly is written as the line that `line_text`
/// puts together from its parts, each of which can stand in its place.
proof fn lemma_written_line(record: RecordModel)
    requires
        record_is_plain(record),
    ensures
        line_of(record) == Ok::<Seq<char>, ErrorModel>(
            line_text(
                prefix_of(record),
                digit_char(record.version as int),
                fields_of(record),
                extensions_text(record.extensions),
            ),
        ),
        is_digit(digit_char(record.version as int)),
        digit_of(digit_char(record.version as int)) == record.version,
        fields_of(record).len() == 6,
        forall|i: int| 0 <= i < 6 ==> is_field(#[trigger] fields_of(record)[i]),
        forall|j: int|
            0 <= j < extensions_text(record.extensions).len() ==> extensions_text(
                record.extensions,
            )[j] != '|',
{
    reveal(line_text);
    lemma_extensions_text_has_no_pipe(record.extensions);
    assert forall|i: int| 0 <= i < record.extensions.len() implies value_text(
        (#[trigger] record.extensions[i]).1,
    ) is Some by {
        assert(extension_is_plain(record.extensions[i]));
    }
    assert(all_scalar(record.extensions));
    assert(decimal_text(record.version as nat) == seq![digit_char(record.version as int)]);
    lemma_severity_reads_back(record.severity);
    lemma_signature_id_reads_back(record.signature_id);
}

/// In the line of a record whose header is well formed, the header that is
/// read is the one that was written.
proof fn lemma_header_is_found(s: Seq<char>, record: RecordModel)
    requires
        header_is_well_formed(record),
        header_at(s, prefix_of(record).len() as int),
        forall|q: int| prefix_of(record).len() < q ==> !header_at(s, q),
        s.take(prefix_of(record).len() as int) == prefix_of(record),
    ensures
        header_start(s) == Some(prefix_of(record).len() as int),
        has_tag(s) <==> record.headers is None,
        record.headers is Some ==> s.take(prefix_of(record).len() as int)
            == record.headers->Some_0,
{
    let prefix = prefix_of(record);
    let p = prefix.len() as int;
    assert(marker_at(s, p));
    match record.headers {
        Some(text) => {
            assert(!has_tag(s)) by {
                if p >= 3 {
                    assert(s.take(p)[0] == s[0]);
                    assert(s.take(p)[1] == s[1]);
                    assert(s.take(p)[2] == s[2]);
                }
            }
            lemma_last_header(s, s.len() as int);
        },
        None => {},
    }
}

/// What is read of a record that was written: the record, with what is
/// read of its extensions in their place.
pub open spec fn record_as_written(record: RecordModel) -> RecordModel {
    RecordModel {
        headers: record.headers,
        version: record.version,
        device_vendor: record.device_vendor,
        device_product: record.device_product,
        device_version: record.device_version,
        signature_id: record.signature_id,
        signature: record.signature,
        severity: record.severity,
        extensions: read_as_written(record.extensions),
    }
}

/// A record that is written plainly is written as a line, and reading that
/// line gives its header as it is: the prefix, the version, the vendor, the
/// product, the device version, the signature id, the signature and the
/// severity, each with its variant. Of its extensions none is lost and none
/// is added; each comes in its place, with its key, and with the value that
/// the text of its value is read as.
pub proof fn lemma_record_reads_as_written(record: RecordModel)
    requires
        record_is_plain(record),
    ensures
        line_of(record) is Ok,
        parse_line(line_of(record)->Ok_0) == Ok::<RecordModel, ErrorModel>(
            record_as_written(record),
        ),
{
    let prefix = prefix_of(record);
    let version = digit_char(record.version as int);
    let fields = fields_of(record);
    let extensions = extensions_text(record.extensions);
    let s = line_text(prefix, version, fields, extensions);
    lemma_written_line(record);
    lemma_line_layout(prefix, version, fields, extensions);
    lemma_header_is_found(s, record);
    let p = prefix.len() as int;
    assert(fields[0] == record.device_vendor);
    assert(fields[1] == record.device_product);
    assert(fields[2] == record.device_version);
    assert(fields[3] == signature_id_text(record.signature_id));
    assert(fields[4] == record.signature);
    assert(fields[5] == severity_text(record.severity));
    lemma_fields_read_as_written(s, p, record);
}

/// A record that reads back is written as a line, and reading that line
/// gives the record: its prefix, its version, each field of its header, and
/// its extensions, with their keys, their values and their order.
pub proof fn lemma_record_reads_back(record: RecordModel)
    requires
        record_reads_back(record),
    ensures
        line_of(record) is Ok,
        parse_line(line_of(record)->Ok_0) == Ok::<RecordModel, ErrorModel>(record),
{
    assert forall|i: int| 0 <= i < record.extensions.len() implies extension_is_plain(
        #[trigger] record.extensions[i],
    ) && keeps_type(record.extensions[i].1) by {
        assert(extension_reads_back(record.extensions[i]));
    }
    lemma_record_reads_as_written(record);
    lemma_values_read_back(record.extensions);
}

/// Where the parts of a line that lie as its header has them are those of a
/// record that is written plainly, reading the line at that header gives
/// the record as it is read when written.
proof fn lemma_fields_read_as_written(s: Seq<char>, p: int, record: RecordModel)
    requires
        record_is_plain(record),
        has_tag(s) <==> record.headers is None,
        record.headers is Some ==> s.take(p) == record.headers->Some_0,
        digit_of(s[p + 4]) == record.version,
        s.subrange(p + 6, layout_at(s, p).vendor_end) == record.device_vendor,
        s.subrange(layout_at(s, p).vendor_end + 1, layout_at(s, p).product_end)
            == record.device_product,
        s.subrange(layout_at(s, p).product_end + 1, layout_at(s, p).device_version_end)
            == record.device_version,
        s.subrange(layout_at(s, p).device_version_end + 1, layout_at(s, p).signature_id_end)
            == signature_id_text(record.signature_id),
        s.subrange(layout_at(s, p).signature_id_end + 1, layout_at(s, p).signature_end)
            == record.signature,
        s.subrange(layout_at(s, p).signature_end + 1, layout_at(s, p).severity_end)
            == severity_text(record.severity),
        s.skip(layout_at(s, p).severity_end + 1) == extensions_text(record.extensions),
    ensures
        record_at(s, p) == Ok::<RecordModel, ErrorModel>(record_as_written(record)),
{
    lemma_severity_reads_back(record.severity);
    lemma_signature_id_reads_back(record.signature_id);
    lemma_extensions_read_as_written(record.extensions);
    let read = record_at(s, p);
    assert(read is Ok);
    assert(read->Ok_0.headers == record.headers);
    assert(read->Ok_0.extensions == read_as_written(record.extensions));
}

/// A severity written as a number is read if and only if the number lies
/// from 0 to 10.
pub proof fn lemma_severity_bounds(level: int)
    ensures
        0 <= level <= 10 ==> severity_of(signed_decimal_text(level)) == Ok::<
            SeverityModel,
            ErrorModel,
        >(SeverityModel::U8(level as u8)),
        10 < level <= 255 ==> severity_of(signed_decimal_text(level)) == Err::<
            SeverityModel,
            ErrorModel,
        >(ErrorModel::ValidationError(severity_range_message())),
        level < 0 || 255 < level ==> severity_of(signed_decimal_text(level)) == Err::<
            SeverityModel,
            ErrorModel,
        >(ErrorModel::ValidationError(severity_name_message())),
{
    lemma_signed_decimal_text_reads_back(level);
    let t = signed_decimal_text(level);
    if level < 0 {
        assert(t[0] == '-');
    } else {
        lemma_decimal_text_reads_back(level as nat);
        assert(is_digit(t[0]));
    }
    reveal_strlit("Unknown");
    reveal_strlit("Low");
    reveal_strlit("Medium");
    reveal_strlit("High");
    reveal_strlit("Very-High");
    assert(!is_severity_name(t)) by {
        assert("Unknown"@[0] == 'U');
        assert("Low"@[0] == 'L');
        assert("Medium"@[0] == 'M');
        assert("High"@[0] == 'H');
        assert("Very-High"@[0] == 'V');
    }
}

/// Whether each `=` of `text` has a backslash right before it in `text`.
pub open spec fn is_escaped(text: Seq<char>) -> bool {
    forall|i: int|
        0 <= i < text.len() && #[trigger] text[i] == '=' ==> i > 0 && text[i - 1] == '\\'
}

/// An `=` that has a backslash before it does not end a value: a key, `=`
/// and a value in which each `=` is escaped are read as one extension, whose
/// value is the text as it stands, backslashes included.
pub proof fn lemma_escaped_separator_stays(key: Seq<char>, value: Seq<char>)
    requires
        forall|i: int| 0 <= i < key.len() ==> key[i] != ' ' && key[i] != '=',
        key.len() > 0 ==> key.last() != '\\',
        is_escaped(value),
    ensures
        tokens(key + seq!['='] + value, 0) == seq![key, value],
        extension_pairs(key + seq!['='] + value) == seq![(key, infer(value))],
{
    let s = key + seq!['='] + value;
    let p = key.len() as int;
    assert forall|j: int| 0 <= j < p implies s[j] == key[j] by {}
    assert(s[p] == '=');
    assert(is_separator(s, p)) by {
        if p > 0 {
            assert(s[p - 1] == key[p - 1]);
        }
    }
    lemma_next_separator_is(s, 0, p);
    assert(s.subrange(0, p) =~= key);
    lemma_last_space_none(key);
    assert(s.skip(p + 1) =~= value);
    assert forall|j: int| p + 1 <= j < s.len() implies !is_separator(s, j) by {
        assert(s[j] == value[j - p - 1]);
        if s[j] == '=' {
            assert(j - p - 1 > 0);
            assert(s[j - 1] == value[j - p - 2]);
        }
    }
    lemma_no_separator(s, p + 1);
    assert(tokens(s, p + 1) == seq![value]);
    let t = tokens(s, 0);
    assert(t =~= seq![key, value]);
    assert(extension_pairs(s) =~= seq![(key, infer(value))]);
}

/// Where no separator stands from `from` on, the next separator is the end.
pub proof fn lemma_no_separator(s: Seq<char>, from: int)
    requires
        0 <= from <= s.len(),
        forall|j: int| from <= j < s.len() ==> !is_separator(s, j),
    ensures
        next_separator(s, from) == s.len(),
    decreases s.len() - from,
{
    if from < s.len() {
        lemma_no_separator(s, from + 1);
    }
}

/// A text without any `=` holds no extension: it is one token, a key
/// without a value.
pub proof fn lemma_dangling_key(s: Seq<char>)
    requires
        forall|i: int| 0 <= i < s.len() ==> s[i] != '=',
    ensures
        tokens(s, 0) == seq![s],
        extension_pairs(s).len() == 0,
{
    lemma_no_separator(s, 0);
    assert(s.skip(0) =~= s);
}


/// A text that begins with `-` is never read as an unsigned integer.
pub proof fn lemma_minus_is_not_unsigned(raw: Seq<char>)
    requires
        raw.len() > 0,
        raw[0] == '-',
    ensures
        !(infer(raw) is U64),
        text_to_i64(raw) is Some ==> infer(raw) == ValueModel::I64(text_to_i64(raw)->Some_0),
{
    assert(!is_digit(raw[0]));
    assert(true_text()[0] == 't');
    assert(false_text()[0] == 'f');
}

/// `last_blank` gives the index of a white space with none between it and
/// the bound.
pub proof fn lemma_last_blank(s: Seq<char>, bound: int)
    requires
        bound <= s.len(),
    ensures
        -1 <= last_blank(s, bound) < bound || (bound < 0 && last_blank(s, bound) == -1),
        last_blank(s, bound) >= 0 ==> is_blank(s[last_blank(s, bound)]),
        forall|j: int| last_blank(s, bound) < j < bound && 0 <= j ==> !is_blank(s[j]),
    decreases bound,
{
    if bound > 0 && !is_blank(s[bound - 1]) {
        lemma_last_blank(s, bound - 1);
    }
}

/// `last_host_end` gives an index below the bound.
pub proof fn lemma_last_host_end(s: Seq<char>, bound: int)
    ensures
        last_host_end(s, bound) is Some ==> 0 <= last_host_end(s, bound)->Some_0 < bound,
    decreases bound,
{
    if bound > 0 {
        lemma_last_host_end(s, bound - 1);
    }
}

/// The run of white space that `blank_run_start` finds holds white space
/// only, and no white space stands right before it.
pub proof fn lemma_blank_run_start(s: Seq<char>, end: int)
    requires
        0 <= end <= s.len(),
    ensures
        0 <= blank_run_start(s, end) <= end,
        forall|j: int| blank_run_start(s, end) <= j < end ==> is_blank(s[j]),
        blank_run_start(s, end) > 0 ==> !is_blank(s[blank_run_start(s, end) - 1]),
    decreases end,
{
    if end > 0 && is_blank(s[end - 1]) {
        lemma_blank_run_start(s, end - 1);
    }
}

/// A host name has one character at least and holds no white space, and a
/// white space stands right before it and right after it.
pub proof fn lemma_hostname_is_one_word(s: Seq<char>)
    requires
        hostname_of(s) is Some,
    ensures
        hostname_of(s)->Some_0.len() > 0,
        forall|j: int|
            0 <= j < hostname_of(s)->Some_0.len() ==> !is_blank(hostname_of(s)->Some_0[j]),
        ({
            let end = blank_run_start(s, marker_start(s));
            let a = last_blank(s, end);
            0 <= a < a + 1 < end < marker_start(s) <= s.len() && is_blank(s[a]) && is_blank(
                s[end],
            ) && hostname_of(s)->Some_0 == s.subrange(a + 1, end)
        }),
{
    lemma_last_host_end(s, s.len() as int);
    let m = marker_start(s);
    lemma_blank_run_start(s, m);
    let end = blank_run_start(s, m);
    lemma_last_blank(s, end);
}

/// The host name of a line is that of its prefix: where a line has a marker
/// with a white space before it and a digit after it, and no such marker
/// stands in what is before the last one, the text before that marker has
/// the host name of the line.
pub proof fn lemma_hostname_of_prefix(s: Seq<char>)
    requires
        last_host_end(s, s.len() as int) is Some,
        last_host_end(s.take(marker_start(s)), marker_start(s)) is None,
    ensures
        hostname_of(s.take(marker_start(s))) == hostname_of(s),
{
    lemma_last_host_end(s, s.len() as int);
    let m = marker_start(s);
    let prefix = s.take(m);
    assert(marker_start(prefix) == m);
    lemma_same_blank_run(s, prefix, m);
    let end = blank_run_start(s, m);
    lemma_blank_run_start(s, m);
    lemma_same_last_blank(s, prefix, end);
    let a = last_blank(s, end);
    lemma_last_blank(s, end);
    if end < m && a >= 0 {
        assert(prefix.subrange(a + 1, end) =~= s.subrange(a + 1, end));
    }
}

/// Two texts that agree below `end` have the same run of white space before
/// `end`.
pub proof fn lemma_same_blank_run(s: Seq<char>, t: Seq<char>, end: int)
    requires
        0 <= end <= s.len(),
        end <= t.len(),
        forall|j: int| 0 <= j < end ==> s[j] == t[j],
    ensures
        blank_run_start(s, end) == blank_run_start(t, end),
    decreases end,
{
    if end > 0 && is_blank(s[end - 1]) {
        lemma_same_blank_run(s, t, end - 1);
    }
}

/// Two texts that agree below `bound` have the same last white space below
/// `bound`.
pub proof fn lemma_same_last_blank(s: Seq<char>, t: Seq<char>, bound: int)
    requires
        bound <= s.len(),
        bound <= t.len(),
        forall|j: int| 0 <= j < bound ==> s[j] == t[j],
    ensures
        last_blank(s, bound) == last_blank(t, bound),
    decreases bound,
{
    if bound > 0 && !is_blank(s[bound - 1]) {
        lemma_same_last_blank(s, t, bound - 1);
    }
}

} // verus!
