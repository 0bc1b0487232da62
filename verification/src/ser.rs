//! Writing a record as a line.

use vstd::prelude::*;
use crate::number::{decimal_text, push_decimal, push_signed_decimal, signed_decimal_text};
use crate::record::{
    extensions_model, severity_text, signature_id_text, CefRecord, Extension, RecordModel,
};
use crate::result::{CefError, CefResult, ErrorModel};
use crate::value::{false_text, true_text, CefValue, ValueModel};

verus! {

/// How a scalar is written in a line; `None` for a value that is no scalar.
pub open spec fn value_text(value: ValueModel) -> Option<Seq<char>> {
    match value {
        ValueModel::Bool(b) => Some(
            if b {
                true_text()
            } else {
                false_text()
            },
        ),
        ValueModel::U64(n) => Some(decimal_text(n as nat)),
        ValueModel::I64(n) => Some(signed_decimal_text(n as int)),
        ValueModel::Float(text) => Some(text),
        ValueModel::Char(c) => Some(seq![c]),
        ValueModel::String(text) => Some(text),
        ValueModel::Composite => None,
    }
}

/// What is said of a value that is no scalar.
pub open spec fn composite_message() -> Seq<char> {
    "Invalid data: the value is no scalar"@
}

/// How one extension is written: its key, `=`, its value.
pub open spec fn pair_text(extension: (Seq<char>, ValueModel)) -> Seq<char> {
    extension.0 + seq!['='] + value_text(extension.1).unwrap()
}

/// How a list of extensions is written: each as `pair_text` has it, with one
/// space between two of them.
pub open spec fn extensions_text(extensions: Seq<(Seq<char>, ValueModel)>) -> Seq<char>
    decreases extensions.len(),
{
    if extensions.len() == 0 {
        Seq::empty()
    } else if extensions.len() == 1 {
        pair_text(extensions[0])
    } else {
        pair_text(extensions[0]) + seq![' '] + extensions_text(extensions.skip(1))
    }
}

/// Whether each of the extensions has a scalar for its value.
pub open spec fn all_scalar(extensions: Seq<(Seq<char>, ValueModel)>) -> bool {
    forall|i: int| 0 <= i < extensions.len() ==> value_text((#[trigger] extensions[i]).1) is Some
}

/// The text of a line up to its extensions: the prefix if there is one, the
/// marker, the version, and the six fields, a `|` after each.
pub open spec fn header_text(record: RecordModel) -> Seq<char> {
    let prefix = match record.headers {
        Some(text) => text,
        None => Seq::empty(),
    };
    prefix + seq!['C', 'E', 'F', ':'] + decimal_text(record.version as nat) + seq!['|']
        + record.device_vendor + seq!['|'] + record.device_product + seq!['|']
        + record.device_version + seq!['|'] + signature_id_text(record.signature_id) + seq!['|']
        + record.signature + seq!['|'] + severity_text(record.severity) + seq!['|']
}

/// The line that a record is written as; a `ValidationError` where one of
/// its extensions holds no scalar.
pub open spec fn line_of(record: RecordModel) -> Result<Seq<char>, ErrorModel> {
    if all_scalar(record.extensions) {
        Ok(header_text(record) + extensions_text(record.extensions))
    } else {
        Err(ErrorModel::ValidationError(composite_message()))
    }
}

/// Writing one more extension after a list adds a space, unless the list is
/// empty, and the text of the extension.
pub proof fn lemma_extensions_text_push(
    extensions: Seq<(Seq<char>, ValueModel)>,
    last: (Seq<char>, ValueModel),
)
    ensures
        extensions_text(extensions.push(last)) == if extensions.len() == 0 {
            pair_text(last)
        } else {
            extensions_text(extensions) + seq![' '] + pair_text(last)
        },
    decreases extensions.len(),
{
    let longer = extensions.push(last);
    if extensions.len() == 0 {
        assert(longer[0] == last);
    } else {
        assert(longer[0] == extensions[0]);
        assert(longer.skip(1) =~= extensions.skip(1).push(last));
        lemma_extensions_text_push(extensions.skip(1), last);
        assert(extensions_text(longer) =~= extensions_text(extensions) + seq![' '] + pair_text(
            last,
        ));
    }
}

/// Writes a scalar as it stands in a line.
pub fn value2str(value: &CefValue) -> (r: CefResult<String>)
    ensures
        match r {
            Ok(text) => value_text(value@) == Some(text@),
            Err(err) => value_text(value@) is None && err@ == ErrorModel::ValidationError(
                composite_message(),
            ),
        },
{
    match value {
        CefValue::String(data) => Ok(data.clone()),
        CefValue::Bool(data) => {
            let mut text = String::new();
            if *data {
                text.push('t');
                text.push('r');
                text.push('u');
                text.push('e');
            } else {
                text.push('f');
                text.push('a');
                text.push('l');
                text.push('s');
                text.push('e');
            }
            proof {
                assert(text@ =~= value_text(value@).unwrap());
            }
            Ok(text)
        },
        CefValue::U64(data) => {
            let mut text = String::new();
            push_decimal(&mut text, *data);
            Ok(text)
        },
        CefValue::I64(data) => {
            let mut text = String::new();
            push_signed_decimal(&mut text, *data);
            Ok(text)
        },
        CefValue::Float(data) => Ok(data.clone()),
        CefValue::Char(data) => {
            let mut text = String::new();
            text.push(*data);
            proof {
                assert(text@ =~= seq![*data]);
            }
            Ok(text)
        },
        CefValue::Composite => Err(
            CefError::ValidationError(String::from_str("Invalid data: the value is no scalar")),
        ),
    }
}

/// Serialize a record into a string of CEF text.
pub fn to_string(value: &CefRecord<Vec<Extension>>) -> (r: CefResult<String>)
    ensures
        match r {
            Ok(line) => line_of(value@) == Ok::<Seq<char>, ErrorModel>(line@),
            Err(err) => line_of(value@) == Err::<Seq<char>, ErrorModel>(err@),
        },
{
    let mut fields = String::new();
    if let Some(headers) = &value.headers {
        fields.append(headers.as_str());
    }
    fields.append("CEF:");
    proof {
        reveal_strlit("CEF:");
        assert("CEF:"@ =~= seq!['C', 'E', 'F', ':']);
    }
    push_decimal(&mut fields, value.version as u64);
    fields.push('|');
    fields.append(value.device_vendor.as_str());
    fields.push('|');
    fields.append(value.device_product.as_str());
    fields.push('|');
    fields.append(value.device_version.as_str());
    fields.push('|');
    fields.append(value.signature_id.to_string().as_str());
    fields.push('|');
    fields.append(value.signature.as_str());
    fields.push('|');
    fields.append(value.severity.to_string().as_str());
    fields.push('|');
    proof {
        assert(fields@ =~= header_text(value@));
    }
    let ghost model = value@.extensions;
    let mut idx: usize = 0;
    while idx < value.extensions.len()
        invariant
            idx <= value.extensions.len(),
            model == extensions_model(value.extensions@),
            all_scalar(model.take(idx as int)),
            fields@ == header_text(value@) + extensions_text(model.take(idx as int)),
        decreases value.extensions.len() - idx,
    {
        let extension = &value.extensions[idx];
        let ghost before = model.take(idx as int);
        let ghost after = model.take(idx + 1);
        proof {
            assert(after =~= before.push(model[idx as int]));
            assert(model[idx as int] == extension@);
            lemma_extensions_text_push(before, model[idx as int]);
        }
        let text = match value2str(&extension.value) {
            Ok(text) => text,
            Err(err) => {
                proof {
                    assert(value_text(model[idx as int].1) is None);
                }
                return Err(err);
            },
        };
        if idx > 0 {
            fields.push(' ');
        }
        fields.append(extension.key.as_str());
        fields.push('=');
        fields.append(text.as_str());
        proof {
            assert(pair_text(model[idx as int]) =~= extension.key@ + seq!['='] + text@);
            assert(fields@ =~= header_text(value@) + extensions_text(after));
            assert forall|i: int| 0 <= i < after.len() implies value_text(
                (#[trigger] after[i]).1,
            ) is Some by {
                if i < idx {
                    assert(after[i] == before[i]);
                }
            }
        }
        idx += 1;
    }
    proof {
        assert(model.take(idx as int) =~= model);
    }
    Ok(fields)
}

} // verus!
