//! Reading a line: the extensions, the header fields, the whole record.

use vstd::prelude::*;
use crate::number::{digit_of, is_digit};
use crate::record::{
    extensions_model, severity_of, signature_id_of, CefRecord, CefSeverity, CefSignatureId,
    Extension, RecordModel,
};
use crate::result::{CefError, CefResult, ErrorModel};
use crate::text::{chars_of, string_of};
use crate::utils::try_detect_type;
use crate::value::{infer, ValueModel};

verus! {

/// Whether the `=` at index `i` of `s` ends a key: it is one unless a
/// backslash stands right before it.
pub open spec fn is_separator(s: Seq<char>, i: int) -> bool {
    0 <= i < s.len() && s[i] == '=' && (i == 0 || s[i - 1] != '\\')
}

/// The index of the first separator of `s` at or after `from`; the length of
/// `s` where there is none.
pub open spec fn next_separator(s: Seq<char>, from: int) -> int
    decreases s.len() - from,
{
    if from >= s.len() {
        s.len() as int
    } else if is_separator(s, from) {
        from
    } else {
        next_separator(s, from + 1)
    }
}

/// The index of the last space of `segment`; -1 where it has none.
pub open spec fn last_space(segment: Seq<char>) -> int
    decreases segment.len(),
{
    if segment.len() == 0 {
        -1
    } else if segment.last() == ' ' {
        segment.len() - 1
    } else {
        last_space(segment.drop_last())
    }
}

/// The tokens of the text between two separators. Cut at its spaces, the
/// last piece is the key of the pair that follows, and the pieces before it,
/// joined by spaces again, are the value of the pair before: that is, what
/// stands before the last space and what stands after it. A text without a
/// space is one token.
pub open spec fn segment_tokens(segment: Seq<char>) -> Seq<Seq<char>> {
    let k = last_space(segment);
    if k < 0 {
        seq![segment]
    } else {
        seq![segment.take(k), segment.skip(k + 1)]
    }
}

/// The tokens of `s` from index `start` on: those of each text that ends at
/// a separator, then what follows the last separator, as one token.
pub open spec fn tokens(s: Seq<char>, start: int) -> Seq<Seq<char>>
    decreases s.len() - start,
{
    let p = next_separator(s, start);
    if 0 <= start <= p < s.len() {
        segment_tokens(s.subrange(start, p)) + tokens(s, p + 1)
    } else {
        seq![s.skip(start)]
    }
}

/// The extensions that the text `s` holds. Its tokens are taken two by two,
/// a key and the text of its value, whose type is inferred. Where their
/// number is odd the text is malformed, and holds no extension at all.
pub open spec fn extension_pairs(s: Seq<char>) -> Seq<(Seq<char>, ValueModel)> {
    let t = tokens(s, 0);
    if t.len() % 2 == 0 {
        Seq::new(t.len() / 2, |i: int| (t[2 * i], infer(t[2 * i + 1])))
    } else {
        Seq::empty()
    }
}

/// Cuts `chars` into its tokens, each given by the range that it fills.
fn token_ranges(chars: &Vec<char>) -> (ranges: Vec<(usize, usize)>)
    ensures
        ranges.len() == tokens(chars@, 0).len(),
        forall|j: int|
            0 <= j < ranges.len() ==> (#[trigger] ranges[j]).0 <= ranges[j].1 <= chars.len()
                && chars@.subrange(ranges[j].0 as int, ranges[j].1 as int) == tokens(chars@, 0)[j],
{
    let n = chars.len();
    let ghost s = chars@;
    let mut ranges: Vec<(usize, usize)> = Vec::new();
    let ghost mut done: Seq<Seq<char>> = Seq::empty();
    let mut start: usize = 0;
    let mut space: Option<usize> = None;
    let mut i: usize = 0;
    proof {
        assert(tokens(s, 0) =~= done + tokens(s, 0));
        assert(s.subrange(0, 0) =~= Seq::<char>::empty());
    }
    while i < n
        invariant
            start <= i <= n,
            n == chars.len(),
            s == chars@,
            tokens(s, 0) == done + tokens(s, start as int),
            next_separator(s, start as int) == next_separator(s, i as int),
            ranges.len() == done.len(),
            forall|j: int|
                0 <= j < ranges.len() ==> (#[trigger] ranges[j]).0 <= ranges[j].1 <= n
                    && s.subrange(ranges[j].0 as int, ranges[j].1 as int) == done[j],
            match space {
                Some(k) => start <= k < i && last_space(s.subrange(start as int, i as int)) == k
                    - start,
                None => last_space(s.subrange(start as int, i as int)) == -1,
            },
        decreases n - i,
    {
        let c = chars[i];
        if c == '=' && (i == 0 || chars[i - 1] != '\\') {
            let ghost segment = s.subrange(start as int, i as int);
            proof {
                assert(is_separator(s, i as int));
                assert(tokens(s, start as int) == segment_tokens(segment) + tokens(s, i + 1));
                assert(done + (segment_tokens(segment) + tokens(s, i + 1)) =~= (done
                    + segment_tokens(segment)) + tokens(s, i + 1));
            }
            match space {
                Some(k) => {
                    ranges.push((start, k));
                    ranges.push((k + 1, i));
                    proof {
                        assert(segment.take(k - start) =~= s.subrange(start as int, k as int));
                        assert(segment.skip(k - start + 1) =~= s.subrange(k + 1, i as int));
                    }
                },
                None => {
                    ranges.push((start, i));
                },
            }
            proof {
                done = done + segment_tokens(segment);
                assert(s.subrange(i + 1, i + 1) =~= Seq::<char>::empty());
            }
            start = i + 1;
            space = None;
        } else {
            proof {
                assert(!is_separator(s, i as int));
                let longer = s.subrange(start as int, i + 1);
                assert(longer.drop_last() =~= s.subrange(start as int, i as int));
                assert(longer.last() == c);
            }
            if c == ' ' {
                space = Some(i);
            }
        }
        i += 1;
    }
    ranges.push((start, n));
    proof {
        assert(s.skip(start as int) =~= s.subrange(start as int, n as int));
        assert(tokens(s, start as int) == seq![s.skip(start as int)]);
        done = done + seq![s.skip(start as int)];
    }
    ranges
}

/// Reads the extensions of a line from the text that follows its header.
///
/// The text is cut at each `=` that no backslash stands before; the
/// backslash stays in the value.
///
/// The extensions come in the order of the text. Where a key occurs twice,
/// both of its pairs stay, each in its place: a caller that keeps one value
/// for a key chooses which.
pub fn parse_extensions(extensions: &str) -> (result: Vec<Extension>)
    ensures
        extensions_model(result@) == extension_pairs(extensions@),
        tokens(extensions@, 0).len() % 2 == 1 ==> result@.len() == 0,
{
    let chars = chars_of(extensions);
    let ranges = token_ranges(&chars);
    let mut result: Vec<Extension> = Vec::new();
    let ghost t = tokens(chars@, 0);
    if ranges.len() % 2 == 0 {
        let count = ranges.len() / 2;
        let mut idx: usize = 0;
        while idx < count
            invariant
                idx <= count,
                count * 2 == ranges.len(),
                t == tokens(chars@, 0),
                ranges.len() == t.len(),
                forall|j: int|
                    0 <= j < ranges.len() ==> (#[trigger] ranges[j]).0 <= ranges[j].1
                        <= chars.len() && chars@.subrange(
                        ranges[j].0 as int,
                        ranges[j].1 as int,
                    ) == t[j],
                result.len() == idx,
                forall|j: int|
                    0 <= j < idx ==> (#[trigger] result[j])@ == (t[2 * j], infer(t[2 * j + 1])),
            decreases count - idx,
        {
            let key_range = ranges[2 * idx];
            let value_range = ranges[2 * idx + 1];
            let key = string_of(&chars, key_range.0, key_range.1);
            let text = string_of(&chars, value_range.0, value_range.1);
            let value = try_detect_type(text.as_str());
            result.push(Extension { key, value });
            idx += 1;
        }
    }
    proof {
        assert(extensions_model(result@) =~= extension_pairs(extensions@));
    }
    result
}


/// Whether `s` begins with the letters `CEF`.
pub open spec fn has_tag(s: Seq<char>) -> bool {
    s.len() >= 3 && s[0] == 'C' && s[1] == 'E' && s[2] == 'F'
}

/// Whether the marker `CEF:` stands at index `p` of `s`.
pub open spec fn marker_at(s: Seq<char>, p: int) -> bool {
    0 <= p && p + 4 <= s.len() && s[p] == 'C' && s[p + 1] == 'E' && s[p + 2] == 'F' && s[p + 3]
        == ':'
}

/// The index of the first `|` of `s` at or after `from`; the length of `s`
/// where there is none.
pub open spec fn next_pipe(s: Seq<char>, from: int) -> int
    decreases s.len() - from,
{
    if from >= s.len() {
        s.len() as int
    } else if s[from] == '|' {
        from
    } else {
        next_pipe(s, from + 1)
    }
}

/// Where the fields of a header lie: the index of its marker, and the index
/// of the `|` that ends each of the six fields after the version. The `|`
/// that ends the version stands five characters after the marker's start.
pub struct HeaderLayout {
    pub start: int,
    pub vendor_end: int,
    pub product_end: int,
    pub device_version_end: int,
    pub signature_id_end: int,
    pub signature_end: int,
    pub severity_end: int,
}

/// The layout of a header whose marker stands at `p`: each field ends at the
/// first `|` after its start.
pub open spec fn layout_at(s: Seq<char>, p: int) -> HeaderLayout {
    let vendor_end = next_pipe(s, p + 6);
    let product_end = next_pipe(s, vendor_end + 1);
    let device_version_end = next_pipe(s, product_end + 1);
    let signature_id_end = next_pipe(s, device_version_end + 1);
    let signature_end = next_pipe(s, signature_id_end + 1);
    let severity_end = next_pipe(s, signature_end + 1);
    HeaderLayout {
        start: p,
        vendor_end,
        product_end,
        device_version_end,
        signature_id_end,
        signature_end,
        severity_end,
    }
}

/// Whether a header stands at index `p` of `s`: the marker, one digit for
/// the version, a `|`, then six fields of one character or more, none of
/// them a `|`, each with a `|` after it.
pub open spec fn header_at(s: Seq<char>, p: int) -> bool {
    let at = layout_at(s, p);
    &&& marker_at(s, p)
    &&& p + 5 < s.len()
    &&& is_digit(s[p + 4])
    &&& s[p + 5] == '|'
    &&& p + 6 < at.vendor_end < s.len()
    &&& at.vendor_end + 1 < at.product_end < s.len()
    &&& at.product_end + 1 < at.device_version_end < s.len()
    &&& at.device_version_end + 1 < at.signature_id_end < s.len()
    &&& at.signature_id_end + 1 < at.signature_end < s.len()
    &&& at.signature_end + 1 < at.severity_end < s.len()
}

/// The greatest index below `bound` at which a header stands in `s`.
pub open spec fn last_header(s: Seq<char>, bound: int) -> Option<int>
    decreases bound,
{
    if bound <= 0 {
        None
    } else if header_at(s, bound - 1) {
        Some(bound - 1)
    } else {
        last_header(s, bound - 1)
    }
}

/// `last_header` gives an index at which a header stands, with none between
/// it and the bound; and `None` only where no header stands below the bound.
pub proof fn lemma_last_header(s: Seq<char>, bound: int)
    ensures
        match last_header(s, bound) {
            Some(p) => 0 <= p < bound && header_at(s, p) && forall|q: int|
                p < q < bound ==> !header_at(s, q),
            None => forall|q: int| 0 <= q < bound ==> !header_at(s, q),
        },
    decreases bound,
{
    if bound > 0 && !header_at(s, bound - 1) {
        lemma_last_header(s, bound - 1);
    }
}

/// Where the header of the line `s` begins. A line that begins with `CEF`
/// has its header at its start, and no prefix. In any other line the header
/// is the last one that can be read, and all that stands before it is the
/// prefix.
pub open spec fn header_start(s: Seq<char>) -> Option<int> {
    if has_tag(s) {
        if header_at(s, 0) {
            Some(0)
        } else {
            None
        }
    } else {
        last_header(s, s.len() as int)
    }
}

/// The record that the line `s` holds, given that its header begins at `p`;
/// or the reason why its severity is none.
pub open spec fn record_at(s: Seq<char>, p: int) -> Result<RecordModel, ErrorModel> {
    let at = layout_at(s, p);
    match severity_of(s.subrange(at.signature_end + 1, at.severity_end)) {
        Ok(severity) => Ok(
            RecordModel {
                headers: if has_tag(s) {
                    None
                } else {
                    Some(s.take(p))
                },
                version: digit_of(s[p + 4]) as u8,
                device_vendor: s.subrange(p + 6, at.vendor_end),
                device_product: s.subrange(at.vendor_end + 1, at.product_end),
                device_version: s.subrange(at.product_end + 1, at.device_version_end),
                signature_id: signature_id_of(
                    s.subrange(at.device_version_end + 1, at.signature_id_end),
                ),
                signature: s.subrange(at.signature_id_end + 1, at.signature_end),
                severity,
                extensions: extension_pairs(s.skip(at.severity_end + 1)),
            },
        ),
        Err(err) => Err(err),
    }
}

/// What reading the line `s` gives: its record; `NoneError` where no header
/// can be read; a `ValidationError` where the severity is none.
pub open spec fn parse_line(s: Seq<char>) -> Result<RecordModel, ErrorModel> {
    match header_start(s) {
        Some(p) => record_at(s, p),
        None => Err(ErrorModel::NoneError),
    }
}

/// Finds the first `|` at or after `from`.
fn find_pipe(chars: &Vec<char>, from: usize) -> (at: usize)
    requires
        from <= chars.len(),
    ensures
        at == next_pipe(chars@, from as int),
        from <= at <= chars.len(),
{
    let mut i: usize = from;
    while i < chars.len() && chars[i] != '|'
        invariant
            from <= i <= chars.len(),
            next_pipe(chars@, from as int) == next_pipe(chars@, i as int),
        decreases chars.len() - i,
    {
        i += 1;
    }
    i
}

/// The ends of the six fields of a header, as `HeaderLayout` names them.
struct FieldEnds {
    start: usize,
    vendor_end: usize,
    product_end: usize,
    device_version_end: usize,
    signature_id_end: usize,
    signature_end: usize,
    severity_end: usize,
}

impl FieldEnds {
    spec fn view(&self) -> HeaderLayout {
        HeaderLayout {
            start: self.start as int,
            vendor_end: self.vendor_end as int,
            product_end: self.product_end as int,
            device_version_end: self.device_version_end as int,
            signature_id_end: self.signature_id_end as int,
            signature_end: self.signature_end as int,
            severity_end: self.severity_end as int,
        }
    }
}

/// Finds the end of the field that begins at `from`, if the field has one
/// character at least and a `|` after it.
fn field_end(chars: &Vec<char>, from: usize) -> (end: Option<usize>)
    requires
        from <= chars.len(),
    ensures
        match end {
            Some(at) => at == next_pipe(chars@, from as int) && from < at < chars.len(),
            None => !(from < next_pipe(chars@, from as int) < chars.len()),
        },
{
    let at = find_pipe(chars, from);
    if from < at && at < chars.len() {
        Some(at)
    } else {
        None
    }
}

/// Reads the header that stands at index `p`, if one does.
fn read_header(chars: &Vec<char>, p: usize) -> (r: Option<FieldEnds>)
    requires
        p <= chars.len(),
    ensures
        r is Some <==> header_at(chars@, p as int),
        r is Some ==> r.unwrap()@ == layout_at(chars@, p as int),
{
    let n = chars.len();
    if n - p < 6 {
        return None;
    }
    if !(chars[p] == 'C' && chars[p + 1] == 'E' && chars[p + 2] == 'F' && chars[p + 3] == ':') {
        return None;
    }
    if !('0' <= chars[p + 4] && chars[p + 4] <= '9') {
        return None;
    }
    if chars[p + 5] != '|' {
        return None;
    }
    let vendor_end = match field_end(chars, p + 6) {
        Some(at) => at,
        None => { return None; },
    };
    let product_end = match field_end(chars, vendor_end + 1) {
        Some(at) => at,
        None => { return None; },
    };
    let device_version_end = match field_end(chars, product_end + 1) {
        Some(at) => at,
        None => { return None; },
    };
    let signature_id_end = match field_end(chars, device_version_end + 1) {
        Some(at) => at,
        None => { return None; },
    };
    let signature_end = match field_end(chars, signature_id_end + 1) {
        Some(at) => at,
        None => { return None; },
    };
    let severity_end = match field_end(chars, signature_end + 1) {
        Some(at) => at,
        None => { return None; },
    };
    Some(
        FieldEnds {
            start: p,
            vendor_end,
            product_end,
            device_version_end,
            signature_id_end,
            signature_end,
            severity_end,
        },
    )
}

/// Finds the last header of `chars`.
fn find_last_header(chars: &Vec<char>) -> (r: Option<FieldEnds>)
    ensures
        match r {
            Some(ends) => last_header(chars@, chars.len() as int) == Some(ends.start as int)
                && ends@ == layout_at(chars@, ends.start as int),
            None => last_header(chars@, chars.len() as int) is None,
        },
{
    let mut best: Option<FieldEnds> = None;
    let mut p: usize = 0;
    while p < chars.len()
        invariant
            p <= chars.len(),
            match best {
                Some(ends) => last_header(chars@, p as int) == Some(ends.start as int) && ends@
                    == layout_at(chars@, ends.start as int),
                None => last_header(chars@, p as int) is None,
            },
        decreases chars.len() - p,
    {
        match read_header(chars, p) {
            Some(ends) => {
                best = Some(ends);
            },
            None => {},
        }
        p += 1;
    }
    best
}

/// Deserialize a record from a string of CEF text.
pub fn from_str(value: &str) -> (r: CefResult<CefRecord<Vec<Extension>>>)
    ensures
        match r {
            Ok(record) => parse_line(value@) == Ok::<RecordModel, ErrorModel>(record@),
            Err(err) => parse_line(value@) == Err::<RecordModel, ErrorModel>(err@),
        },
{
    let chars = chars_of(value);
    let n = chars.len();
    let bare = n >= 3 && chars[0] == 'C' && chars[1] == 'E' && chars[2] == 'F';
    let found = if bare {
        read_header(&chars, 0)
    } else {
        find_last_header(&chars)
    };
    let ends = match found {
        Some(ends) => ends,
        None => { return Err(CefError::NoneError); },
    };
    let p = ends.start;
    proof {
        lemma_last_header(chars@, n as int);
    }
    let headers = if bare {
        None
    } else {
        Some(string_of(&chars, 0, p))
    };
    let version = (chars[p + 4] as u32 - '0' as u32) as u8;
    let device_vendor = string_of(&chars, p + 6, ends.vendor_end);
    let device_product = string_of(&chars, ends.vendor_end + 1, ends.product_end);
    let device_version = string_of(&chars, ends.product_end + 1, ends.device_version_end);
    let id_text = string_of(&chars, ends.device_version_end + 1, ends.signature_id_end);
    let signature_id = CefSignatureId::from(id_text.as_str());
    let signature = string_of(&chars, ends.signature_id_end + 1, ends.signature_end);
    let severity_text = string_of(&chars, ends.signature_end + 1, ends.severity_end);
    let severity = match CefSeverity::try_from(severity_text.as_str()) {
        Ok(severity) => severity,
        Err(err) => { return Err(err); },
    };
    let extension_text = string_of(&chars, ends.severity_end + 1, n);
    proof {
        assert(chars@.subrange(ends.severity_end + 1, n as int) =~= chars@.skip(
            ends.severity_end + 1,
        ));
        assert(chars@.subrange(0, p as int) =~= chars@.take(p as int));
    }
    let extensions = parse_extensions(extension_text.as_str());
    Ok(
        CefRecord {
            headers,
            version,
            device_vendor,
            device_product,
            device_version,
            signature_id,
            signature,
            severity,
            extensions,
        },
    )
}

} // verus!
