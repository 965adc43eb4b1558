//! Typed field extraction: layouts, field specifications and decoded records.
//!
//! A layout describes, field by field, how to interpret a frame body for one
//! device generation. Applying a layout to a validated (and, when the layout
//! asks for it, decrypted) frame yields a [`GrowattData`] record with typed
//! field values: text, a timestamp, or an exact rational number.

use crate::codec::{decrypt_in_place, decrypted, frame_valid, validate};
use crate::codec::{checksum_ok, length_ok, needs_checksum};
use crate::rational::{reduced_den, reduced_num, Rational};
use crate::ProxyError;
use vstd::prelude::*;
use vstd::utf8::{decode_utf8, valid_utf8};

verus! {

/// Ceiling on a plausible output-power reading for the targeted hardware
/// class; a decoded value above it indicates the wrong layout was applied.
pub const MAX_PV_POWER: i64 = 8000;

/// How the bytes of one field slot are interpreted.
#[derive(Clone, Copy, Debug, PartialEq, Eq, Structural)]
pub enum FieldType {
    /// Fixed-width UTF-8 text.
    Text,
    /// A 12-byte timestamp slot; extraction stamps the current time instead
    /// of decoding the slot's bytes.
    Date,
    /// A big-endian unsigned integer divided by the given non-zero divisor.
    Number(i64),
}

/// One field slot of a layout: a name, a byte offset, a byte length and a
/// type tag. Offsets handed to the constructors follow the vendor convention
/// of hex-character positions and are halved to byte offsets.
pub struct FieldSpecification {
    name: String,
    offset: usize,
    length: usize,
    field_type: FieldType,
}

/// Mathematical image of a [`FieldSpecification`].
pub struct FieldSpecView {
    pub name: Seq<char>,
    pub offset: int,
    pub length: int,
    pub ftype: FieldType,
}

impl View for FieldSpecification {
    type V = FieldSpecView;

    closed spec fn view(&self) -> FieldSpecView {
        FieldSpecView {
            name: self.name@,
            offset: self.offset as int,
            length: self.length as int,
            ftype: self.field_type,
        }
    }
}

/// A field specification the extractor can act on: non-negative bounds that
/// fit the machine, and a usable divisor on numeric fields.
pub open spec fn field_spec_wf(f: FieldSpecView) -> bool {
    &&& 0 <= f.offset
    &&& 0 <= f.length
    &&& f.offset + f.length <= usize::MAX
    &&& f.ftype matches FieldType::Number(d) ==> d != 0 && d != i64::MIN
}

/// Field slot interpreted as text (`offset` in hex-character positions).
pub open spec fn spec_text_field(name: Seq<char>, offset: int, length: int) -> FieldSpecView {
    FieldSpecView { name, offset: offset / 2, length, ftype: FieldType::Text }
}

/// Field slot interpreted as a date (`offset` in hex-character positions).
pub open spec fn spec_date_field(name: Seq<char>, offset: int) -> FieldSpecView {
    FieldSpecView { name, offset: offset / 2, length: 12, ftype: FieldType::Date }
}

/// Field slot interpreted as a number (`offset` in hex-character positions).
pub open spec fn spec_number_field(name: Seq<char>, offset: int, length: int, divide: int) -> FieldSpecView {
    FieldSpecView { name, offset: offset / 2, length, ftype: FieldType::Number(divide as i64) }
}

impl FieldSpecification {
    /// A text field of `length` bytes at hex-character position `offset`.
    pub fn text(name: &str, offset: usize, length: usize) -> (r: FieldSpecification)
        requires
            offset / 2 + length <= usize::MAX,
        ensures
            r@ == spec_text_field(name@, offset as int, length as int),
            field_spec_wf(r@),
    {
        FieldSpecification {
            name: name.to_owned(),
            offset: offset / 2,
            length,
            field_type: FieldType::Text,
        }
    }

    /// A 12-byte date field at hex-character position `offset`.
    pub fn date(name: &str, offset: usize) -> (r: FieldSpecification)
        requires
            offset / 2 + 12 <= usize::MAX,
        ensures
            r@ == spec_date_field(name@, offset as int),
            field_spec_wf(r@),
    {
        FieldSpecification {
            name: name.to_owned(),
            offset: offset / 2,
            length: 12,
            field_type: FieldType::Date,
        }
    }

    /// A numeric field of `length` bytes at hex-character position `offset`,
    /// reported as the raw big-endian integer divided by `divide`.
    pub fn number(name: &str, offset: usize, length: usize, divide: i64) -> (r: FieldSpecification)
        requires
            offset / 2 + length <= usize::MAX,
            divide != 0,
            divide != i64::MIN,
        ensures
            r@ == spec_number_field(name@, offset as int, length as int, divide as int),
            field_spec_wf(r@),
    {
        FieldSpecification {
            name: name.to_owned(),
            offset: offset / 2,
            length,
            field_type: FieldType::Number(divide),
        }
    }
}

/// A decoded field value: text, a unix timestamp in seconds, or an exact
/// rational number.
#[derive(Clone, Debug)]
pub enum FieldValue {
    Text(String),
    Date(i64),
    Number(Rational),
}

/// Mathematical image of a [`FieldValue`].
pub enum FieldValueView {
    Text(Seq<char>),
    Date(int),
    Number(int, int),
}

impl View for FieldValue {
    type V = FieldValueView;

    open spec fn view(&self) -> FieldValueView {
        match self {
            FieldValue::Text(s) => FieldValueView::Text(s@),
            FieldValue::Date(t) => FieldValueView::Date(*t as int),
            FieldValue::Number(r) => FieldValueView::Number(r.num(), r.den()),
        }
    }
}

impl PartialEq for FieldValue {
    /// Values are equal when they have the same type tag and the same
    /// content; rationals compare by their reduced representation.
    fn eq(&self, other: &Self) -> (r: bool) {
        match (self, other) {
            (FieldValue::Text(a), FieldValue::Text(b)) => a.eq(b),
            (FieldValue::Date(a), FieldValue::Date(b)) => a == b,
            (FieldValue::Number(a), FieldValue::Number(b)) => a == b,
            _ => false,
        }
    }
}

impl vstd::std_specs::cmp::PartialEqSpecImpl for FieldValue {
    open spec fn obeys_eq_spec() -> bool {
        true
    }

    open spec fn eq_spec(&self, other: &Self) -> bool {
        match (self, other) {
            (FieldValue::Text(a), FieldValue::Text(b)) => a@ == b@,
            (FieldValue::Date(a), FieldValue::Date(b)) => a == b,
            (FieldValue::Number(a), FieldValue::Number(b)) => a == b,
            _ => false,
        }
    }
}

/// A named decoded field.
#[derive(Clone, Debug)]
pub struct Field {
    pub name: String,
    pub value: FieldValue,
}

/// Mathematical image of a [`Field`].
pub struct FieldView {
    pub name: Seq<char>,
    pub value: FieldValueView,
}

impl View for Field {
    type V = FieldView;

    open spec fn view(&self) -> FieldView {
        FieldView { name: self.name@, value: self.value@ }
    }
}

/// A named, ordered set of field specifications for one device generation.
pub struct LayoutSpecification {
    id: String,
    decrypt: bool,
    fields: Vec<FieldSpecification>,
    offset: usize,
}

/// Mathematical image of a [`LayoutSpecification`].
pub struct LayoutView {
    pub id: Seq<char>,
    pub decrypt: bool,
    pub fields: Seq<FieldSpecView>,
    pub offset: int,
}

impl View for LayoutSpecification {
    type V = LayoutView;

    closed spec fn view(&self) -> LayoutView {
        LayoutView {
            id: self.id@,
            decrypt: self.decrypt,
            fields: self.fields@.map_values(|f: FieldSpecification| f@),
            offset: self.offset as int,
        }
    }
}

impl LayoutSpecification {
    /// Every field slot of the layout is well formed.
    pub open spec fn wf(self) -> bool {
        forall|i: int| 0 <= i < self@.fields.len() ==> field_spec_wf(#[trigger] self@.fields[i])
    }

    /// A layout with the default source offset of zero.
    pub fn new(id: &str, decrypt: bool, fields: Vec<FieldSpecification>) -> (r: LayoutSpecification)
        ensures
            r@.id == id@,
            r@.decrypt == decrypt,
            r@.fields == fields@.map_values(|f: FieldSpecification| f@),
            r@.offset == 0,
    {
        LayoutSpecification::new_with_offset(id, decrypt, fields, 0)
    }

    /// A layout with an explicit source offset.
    pub fn new_with_offset(id: &str, decrypt: bool, fields: Vec<FieldSpecification>, offset: usize) -> (r:
        LayoutSpecification)
        ensures
            r@.id == id@,
            r@.decrypt == decrypt,
            r@.fields == fields@.map_values(|f: FieldSpecification| f@),
            r@.offset == offset,
    {
        LayoutSpecification { id: id.to_owned(), decrypt, fields, offset }
    }

    /// Whether applying this layout starts by decrypting the frame body.
    pub fn requires_decrypt(&self) -> (b: bool)
        ensures
            b == self@.decrypt,
    {
        self.decrypt
    }

    /// Checks at run time that every field slot is well formed, so unverified
    /// callers can establish [`Self::wf`] before extraction.
    pub fn fields_well_formed(&self) -> (b: bool)
        ensures
            b == self.wf(),
    {
        let n = self.fields.len();
        let mut i: usize = 0;
        while i < n
            invariant
                0 <= i <= n,
                n == self@.fields.len(),
                forall|k: int| 0 <= k < i ==> field_spec_wf(#[trigger] self@.fields[k]),
            decreases n - i,
        {
            let f = &self.fields[i];
            proof {
                assert(self@.fields[i as int] == self.fields@[i as int]@);
            }
            if f.offset > usize::MAX - f.length {
                proof {
                    assert(!field_spec_wf(self@.fields[i as int]));
                }
                return false;
            }
            if let FieldType::Number(d) = f.field_type {
                if d == 0 || d == i64::MIN {
                    proof {
                        assert(!field_spec_wf(self@.fields[i as int]));
                    }
                    return false;
                }
            }
            i = i + 1;
        }
        true
    }
}

/// Code in the eighth header byte marking a smart-meter variant.
pub open spec fn is_smart_meter_code(b: u8) -> bool {
    b == 0x20 || b == 0x1b
}

/// Hexadecimal digit character for a nibble.
pub open spec fn hex_char(n: u8) -> char
    recommends
        n < 16,
{
    if n == 0 {
        '0'
    } else if n == 1 {
        '1'
    } else if n == 2 {
        '2'
    } else if n == 3 {
        '3'
    } else if n == 4 {
        '4'
    } else if n == 5 {
        '5'
    } else if n == 6 {
        '6'
    } else if n == 7 {
        '7'
    } else if n == 8 {
        '8'
    } else if n == 9 {
        '9'
    } else if n == 10 {
        'a'
    } else if n == 11 {
        'b'
    } else if n == 12 {
        'c'
    } else if n == 13 {
        'd'
    } else if n == 14 {
        'e'
    } else {
        'f'
    }
}

/// Layout tag derived from a frame header: `'T'`, the hex digits of header
/// bytes 3, 6 and 7, and a trailing `'X'` for smart-meter variants.
pub open spec fn tag_of(header: Seq<u8>) -> Seq<char>
    recommends
        header.len() == 8,
{
    let base = seq![
        'T',
        hex_char(header[3] / 16),
        hex_char(header[3] % 16),
        hex_char(header[6] / 16),
        hex_char(header[6] % 16),
        hex_char(header[7] / 16),
        hex_char(header[7] % 16),
    ];
    if is_smart_meter_code(header[7]) {
        base.push('X')
    } else {
        base
    }
}

/// One-character string for a nibble's hexadecimal digit.
fn nibble_str(n: u8) -> (r: &'static str)
    requires
        n < 16,
    ensures
        r@ == seq![hex_char(n)],
{
    proof {
        reveal_strlit("0");
        reveal_strlit("1");
        reveal_strlit("2");
        reveal_strlit("3");
        reveal_strlit("4");
        reveal_strlit("5");
        reveal_strlit("6");
        reveal_strlit("7");
        reveal_strlit("8");
        reveal_strlit("9");
        reveal_strlit("a");
        reveal_strlit("b");
        reveal_strlit("c");
        reveal_strlit("d");
        reveal_strlit("e");
        reveal_strlit("f");
    }
    let r = match n {
        0 => "0",
        1 => "1",
        2 => "2",
        3 => "3",
        4 => "4",
        5 => "5",
        6 => "6",
        7 => "7",
        8 => "8",
        9 => "9",
        10 => "a",
        11 => "b",
        12 => "c",
        13 => "d",
        14 => "e",
        _ => "f",
    };
    proof {
        assert(r@ =~= seq![hex_char(n)]);
    }
    r
}

/// Appends the two hex digits of a byte to a string.
fn push_hex(s: &mut String, b: u8)
    ensures
        final(s)@ == old(s)@ + seq![hex_char(b / 16), hex_char(b % 16)],
{
    let hi = nibble_str(b / 16);
    s.append(hi);
    let lo = nibble_str(b % 16);
    s.append(lo);
    proof {
        assert(s@ =~= old(s)@ + seq![hex_char(b / 16), hex_char(b % 16)]);
    }
}

/// Builds the layout tag of a frame header (see [`tag_of`]).
pub fn layout_tag(header: &[u8; 8]) -> (r: String)
    ensures
        r@ == tag_of(header@),
{
    proof {
        reveal_strlit("T");
        reveal_strlit("X");
    }
    let mut s = String::from_str("T");
    push_hex(&mut s, header[3]);
    push_hex(&mut s, header[6]);
    push_hex(&mut s, header[7]);
    if header[7] == 0x20 || header[7] == 0x1b {
        s.append("X");
    }
    proof {
        assert(s@ =~= tag_of(header@));
    }
    s
}

/// Mathematical image of a [`GrowattData`] record.
pub struct RecordView {
    pub header: Seq<u8>,
    pub layout_spec: Seq<char>,
    pub fields: Seq<FieldView>,
}

/// The typed result of applying a layout to a frame: the original 8-byte
/// header, the resolved layout identifier and the decoded fields in layout
/// order.
#[derive(Debug)]
pub struct GrowattData {
    pub header: [u8; 8],
    pub layout_spec: String,
    pub fields: Vec<Field>,
}

/// Views of a sequence of decoded fields.
pub open spec fn fields_view(fields: Seq<Field>) -> Seq<FieldView> {
    fields.map_values(|f: Field| f@)
}

impl View for GrowattData {
    type V = RecordView;

    open spec fn view(&self) -> RecordView {
        RecordView {
            header: self.header@,
            layout_spec: self.layout_spec@,
            fields: fields_view(self.fields@),
        }
    }
}

impl GrowattData {
    /// Big-endian 16-bit packet sequence index from the header.
    pub fn packet_index(&self) -> (idx: u16)
        ensures
            idx == self@.header[0] * 256 + self@.header[1],
    {
        (self.header[0] as u16) * 256 + (self.header[1] as u16)
    }

    /// Whether the header marks an offline-cached ("buffered") report.
    pub fn is_buffered(&self) -> (b: bool)
        ensures
            b == (self@.header[7] == 0x50),
    {
        self.header[7] == 0x50
    }

    /// Layout tag derived from the record's header (see [`tag_of`]).
    pub fn layout(&self) -> (r: String)
        ensures
            r@ == tag_of(self@.header),
    {
        layout_tag(&self.header)
    }

    /// Whether any field was decoded.
    pub fn has_data(&self) -> (b: bool)
        ensures
            b == (self@.fields.len() > 0),
    {
        self.fields.len() > 0
    }

    /// Number of decoded fields.
    pub fn field_count(&self) -> (n: usize)
        ensures
            n == self@.fields.len(),
    {
        self.fields.len()
    }

    /// The value of the first field with the given name, if any.
    pub fn field_value(&self, name: &str) -> (r: Option<FieldValue>)
        ensures
            match r {
                Some(v) => find_field(self@.fields, name@) == Some(v@),
                None => find_field(self@.fields, name@) is None,
            },
    {
        find_field_value(&self.fields, name)
    }
}

/// Relies on `str::from_utf8`: it succeeds exactly on valid UTF-8 input, and
/// the returned string decodes those bytes.
#[verifier::external_body]
fn decode_text(bytes: &[u8]) -> (r: Option<String>)
    ensures
        r is Some <==> valid_utf8(bytes@),
        r matches Some(s) ==> s@ == decode_utf8(bytes@),
{
    match std::str::from_utf8(bytes) {
        Ok(s) => Some(s.to_owned()),
        Err(_) => None,
    }
}

/// Relies on `chrono::Utc::now` for the current wall-clock time; nothing is
/// assumed about the returned timestamp. Note that `Utc::now` itself panics
/// on a host whose clock is set before the Unix epoch.
#[verifier::external_body]
fn current_timestamp() -> i64 {
    chrono::Utc::now().timestamp()
}

/// Big-endian unsigned integer value of a byte sequence.
pub open spec fn be_value(bytes: Seq<u8>) -> int
    decreases bytes.len(),
{
    if bytes.len() == 0 {
        0
    } else {
        be_value(bytes.drop_last()) * 256 + bytes.last()
    }
}

/// Reads a big-endian unsigned integer of 1, 2 or 4 bytes.
fn read_be(data: &Vec<u8>, offset: usize, length: usize) -> (v: i64)
    requires
        length == 1 || length == 2 || length == 4,
        offset + length <= data@.len(),
    ensures
        0 <= v <= u32::MAX,
        v == be_value(data@.subrange(offset as int, offset as int + length as int)),
{
    let ghost s = data@.subrange(offset as int, offset as int + length as int);
    proof {
        reveal_with_fuel(be_value, 5);
        vstd::std_specs::vec::axiom_spec_len(data);
    }
    if length == 1 {
        proof {
            assert(s.drop_last().len() == 0);
            assert(be_value(s) == s.last());
        }
        data[offset] as i64
    } else if length == 2 {
        proof {
            let s1 = s.drop_last();
            assert(s1.len() == 1);
            assert(s1.drop_last().len() == 0);
            assert(be_value(s1) == s1.last());
            assert(s1.last() == s[0]);
            assert(be_value(s) == s[0] * 256 + s[1]);
        }
        (data[offset] as i64) * 256 + (data[offset + 1] as i64)
    } else {
        proof {
            let s3 = s.drop_last();
            let s2 = s3.drop_last();
            let s1 = s2.drop_last();
            assert(s1.len() == 1);
            assert(s1.drop_last().len() == 0);
            assert(be_value(s1) == s1.last());
            assert(s1.last() == s[0] && s2.last() == s[1] && s3.last() == s[2] && s.last() == s[3]);
            assert(be_value(s) == ((s[0] * 256 + s[1]) * 256 + s[2]) * 256 + s[3]);
        }
        (data[offset] as i64) * 16777216 + (data[offset + 1] as i64) * 65536 + (data[offset + 2] as i64)
            * 256 + (data[offset + 3] as i64)
    }
}

/// The first field with the given name, scanning in record order.
pub open spec fn find_field(fields: Seq<FieldView>, name: Seq<char>) -> Option<FieldValueView>
    decreases fields.len(),
{
    if fields.len() == 0 {
        None
    } else if fields[0].name == name {
        Some(fields[0].value)
    } else {
        find_field(fields.drop_first(), name)
    }
}

proof fn lemma_find_field_at(fields: Seq<FieldView>, name: Seq<char>, i: int)
    requires
        0 <= i < fields.len(),
        fields[i].name == name,
        forall|k: int| 0 <= k < i ==> (#[trigger] fields[k]).name != name,
    ensures
        find_field(fields, name) == Some(fields[i].value),
    decreases i,
{
    if i > 0 {
        lemma_find_field_at(fields.drop_first(), name, i - 1);
    }
}

proof fn lemma_find_field_none(fields: Seq<FieldView>, name: Seq<char>)
    requires
        forall|k: int| 0 <= k < fields.len() ==> (#[trigger] fields[k]).name != name,
    ensures
        find_field(fields, name) is None,
    decreases fields.len(),
{
    if fields.len() > 0 {
        lemma_find_field_none(fields.drop_first(), name);
    }
}

/// Rebuilds an owned copy of a field value.
fn clone_field_value(v: &FieldValue) -> (r: FieldValue)
    ensures
        r@ == v@,
{
    match v {
        FieldValue::Text(s) => FieldValue::Text(s.clone()),
        FieldValue::Date(t) => FieldValue::Date(*t),
        FieldValue::Number(n) => FieldValue::Number(*n),
    }
}

/// Scans decoded fields for the first one with the given name.
fn find_field_value(fields: &Vec<Field>, name: &str) -> (r: Option<FieldValue>)
    ensures
        match r {
            Some(v) => find_field(fields_view(fields@), name@) == Some(v@),
            None => find_field(fields_view(fields@), name@) is None,
        },
{
    let target = name.to_owned();
    let n = fields.len();
    let mut i: usize = 0;
    while i < n
        invariant
            i <= n,
            n == fields@.len(),
            target@ == name@,
            forall|k: int| 0 <= k < i ==> (#[trigger] fields_view(fields@)[k]).name != name@,
        decreases n - i,
    {
        if fields[i].name.eq(&target) {
            proof {
                lemma_find_field_at(fields_view(fields@), name@, i as int);
            }
            return Some(clone_field_value(&fields[i].value));
        }
        i = i + 1;
    }
    proof {
        lemma_find_field_none(fields_view(fields@), name@);
    }
    None
}

/// A field slot's bytes within a frame buffer.
pub open spec fn field_slice(data: Seq<u8>, f: FieldSpecView) -> Seq<u8>
    recommends
        field_spec_wf(f),
        field_in_range(data, f),
{
    data.subrange(f.offset, f.offset + f.length)
}

/// A field slot must lie within the buffer; a slot that exceeds the frame
/// bounds is skipped, tolerating frames truncated relative to the layout.
pub open spec fn field_in_range(data: Seq<u8>, f: FieldSpecView) -> bool {
    f.offset + f.length <= data.len()
}

/// What extraction makes of one field slot: a decoded field, a skip, or an
/// error that aborts the whole extraction.
pub open spec fn extract_field_model(data: Seq<u8>, f: FieldSpecView, now: int) -> Result<
    Option<FieldView>,
    ProxyError,
>
    recommends
        field_spec_wf(f),
{
    if !field_in_range(data, f) {
        Ok(None)
    } else {
        match f.ftype {
            FieldType::Text => {
                if valid_utf8(field_slice(data, f)) {
                    Ok(
                        Some(
                            FieldView {
                                name: f.name,
                                value: FieldValueView::Text(decode_utf8(field_slice(data, f))),
                            },
                        ),
                    )
                } else {
                    Err(ProxyError::EncodingError)
                }
            },
            FieldType::Date => Ok(Some(FieldView { name: f.name, value: FieldValueView::Date(now) })),
            FieldType::Number(d) => {
                if f.length == 1 || f.length == 2 || f.length == 4 {
                    Ok(
                        Some(
                            FieldView {
                                name: f.name,
                                value: FieldValueView::Number(
                                    reduced_num(be_value(field_slice(data, f)), d as int),
                                    reduced_den(be_value(field_slice(data, f)), d as int),
                                ),
                            },
                        ),
                    )
                } else {
                    Err(ProxyError::InvalidFieldLength)
                }
            },
        }
    }
}

/// What extraction makes of a sequence of field slots, in order; the first
/// error wins.
pub open spec fn extract_fields_model(data: Seq<u8>, fs: Seq<FieldSpecView>, now: int) -> Result<
    Seq<FieldView>,
    ProxyError,
>
    decreases fs.len(),
{
    if fs.len() == 0 {
        Ok(Seq::empty())
    } else {
        match extract_fields_model(data, fs.drop_last(), now) {
            Err(e) => Err(e),
            Ok(acc) => match extract_field_model(data, fs.last(), now) {
                Err(e) => Err(e),
                Ok(None) => Ok(acc),
                Ok(Some(f)) => Ok(acc.push(f)),
            },
        }
    }
}

proof fn lemma_extract_fields_err(data: Seq<u8>, fs: Seq<FieldSpecView>, i: int, now: int)
    requires
        0 <= i <= fs.len(),
        extract_fields_model(data, fs.take(i), now) is Err,
    ensures
        extract_fields_model(data, fs, now) == extract_fields_model(data, fs.take(i), now),
    decreases fs.len() - i,
{
    if i == fs.len() {
        assert(fs.take(i) =~= fs);
    } else {
        assert(fs.take(i + 1).drop_last() =~= fs.take(i));
        assert(extract_fields_model(data, fs.take(i + 1), now) == extract_fields_model(
            data,
            fs.take(i),
            now,
        ));
        lemma_extract_fields_err(data, fs, i + 1, now);
    }
}

/// A decoded output-power value must not exceed [`MAX_PV_POWER`]; a value
/// above it indicates the frame was decoded under the wrong layout.
pub open spec fn power_plausible(fields: Seq<FieldView>) -> bool {
    match find_field(fields, "pvpowerout"@) {
        Some(FieldValueView::Number(n, d)) => n <= MAX_PV_POWER * d,
        _ => true,
    }
}

/// Field extraction followed by the output-power plausibility check.
pub open spec fn fields_then_power(data: Seq<u8>, fs: Seq<FieldSpecView>, now: int) -> Result<
    Seq<FieldView>,
    ProxyError,
> {
    match extract_fields_model(data, fs, now) {
        Err(e) => Err(e),
        Ok(fields) => {
            if power_plausible(fields) {
                Ok(fields)
            } else {
                Err(ProxyError::PowerOutOfRange)
            }
        },
    }
}

/// Decodes every field slot of a layout from an already validated and, if
/// needed, decrypted buffer, then applies the plausibility check.
fn extract_body(data: &Vec<u8>, layout: &LayoutSpecification, now: i64) -> (r: Result<
    Vec<Field>,
    ProxyError,
>)
    requires
        layout.wf(),
    ensures
        match r {
            Ok(fields) => fields_then_power(data@, layout@.fields, now as int) == Ok::<
                Seq<FieldView>,
                ProxyError,
            >(fields_view(fields@)),
            Err(e) => fields_then_power(data@, layout@.fields, now as int) == Err::<
                Seq<FieldView>,
                ProxyError,
            >(e),
        },
{
    let n = layout.fields.len();
    let mut out: Vec<Field> = Vec::new();
    let mut idx: usize = 0;
    proof {
        assert(layout@.fields.take(0) =~= Seq::<FieldSpecView>::empty());
        assert(fields_view(out@) =~= Seq::<FieldView>::empty());
    }
    while idx < n
        invariant
            layout.wf(),
            n == layout@.fields.len(),
            n == layout.fields@.len(),
            idx <= n,
            extract_fields_model(data@, layout@.fields.take(idx as int), now as int) == Ok::<
                Seq<FieldView>,
                ProxyError,
            >(fields_view(out@)),
        decreases n - idx,
    {
        let ghost fsv = layout@.fields;
        let ghost prev = fields_view(out@);
        let f = &layout.fields[idx];
        proof {
            assert(fsv[idx as int] == layout.fields@[idx as int]@);
            assert(field_spec_wf(fsv[idx as int]));
            assert(fsv.take(idx as int + 1).drop_last() =~= fsv.take(idx as int));
            assert(fsv.take(idx as int + 1).last() == fsv[idx as int]);
        }
        if f.offset + f.length > data.len() {
            proof {
                assert(!field_in_range(data@, fsv[idx as int]));
                assert(extract_fields_model(data@, fsv.take(idx as int + 1), now as int) == Ok::<
                    Seq<FieldView>,
                    ProxyError,
                >(prev));
            }
        } else {
            proof {
                assert(field_in_range(data@, fsv[idx as int]));
            }
            match f.field_type {
                FieldType::Text => {
                    let slice = &data.as_slice()[f.offset..f.offset + f.length];
                    proof {
                        assert(slice@ =~= field_slice(data@, fsv[idx as int]));
                    }
                    match decode_text(slice) {
                        Some(s) => {
                            let field = Field { name: f.name.clone(), value: FieldValue::Text(s) };
                            out.push(field);
                            proof {
                                assert(fields_view(out@) =~= prev.push(field@));
                            }
                        },
                        None => {
                            proof {
                                lemma_extract_fields_err(data@, fsv, idx as int + 1, now as int);
                            }
                            return Err(ProxyError::EncodingError);
                        },
                    }
                },
                FieldType::Date => {
                    let field = Field { name: f.name.clone(), value: FieldValue::Date(now) };
                    out.push(field);
                    proof {
                        assert(fields_view(out@) =~= prev.push(field@));
                    }
                },
                FieldType::Number(divide) => {
                    if f.length == 1 || f.length == 2 || f.length == 4 {
                        let raw = read_be(data, f.offset, f.length);
                        proof {
                            assert(data@.subrange(
                                f.offset as int,
                                f.offset as int + f.length as int,
                            ) =~= field_slice(data@, fsv[idx as int]));
                        }
                        let rat = Rational::new(raw, divide);
                        let field = Field { name: f.name.clone(), value: FieldValue::Number(rat) };
                        out.push(field);
                        proof {
                            assert(fields_view(out@) =~= prev.push(field@));
                        }
                    } else {
                        proof {
                            lemma_extract_fields_err(data@, fsv, idx as int + 1, now as int);
                        }
                        return Err(ProxyError::InvalidFieldLength);
                    }
                },
            }
        }
        idx = idx + 1;
    }
    proof {
        assert(layout@.fields.take(n as int) =~= layout@.fields);
    }
    match find_field_value(&out, "pvpowerout") {
        Some(FieldValue::Number(r)) => {
            let num = r.numer();
            let den = r.denom();
            if (num as i128) > (MAX_PV_POWER as i128) * (den as i128) {
                return Err(ProxyError::PowerOutOfRange);
            }
            Ok(out)
        },
        _ => Ok(out),
    }
}

/// View of an extraction result: the record's image on success, the error
/// unchanged on failure.
pub open spec fn record_result_view(r: Result<GrowattData, ProxyError>) -> Result<
    RecordView,
    ProxyError,
> {
    match r {
        Ok(gd) => Ok(gd@),
        Err(e) => Err(e),
    }
}

/// The buffer as extraction leaves it: decrypted when the frame was long
/// enough and valid and the layout asked for decryption, untouched otherwise.
pub open spec fn buffer_after(data: Seq<u8>, decrypt: bool) -> Seq<u8> {
    if data.len() >= 12 && frame_valid(data) && decrypt {
        decrypted(data)
    } else {
        data
    }
}

/// What extraction under an explicit layout returns for a buffer: the
/// dedicated ACK error below 12 bytes, the integrity errors next, then the
/// decoded record or the first field error.
pub open spec fn from_buffer_model(data: Seq<u8>, layout: LayoutView, now: int) -> Result<
    RecordView,
    ProxyError,
> {
    if data.len() < 12 {
        Err(ProxyError::AckFrame)
    } else if !length_ok(data) {
        Err(ProxyError::LengthMismatch)
    } else if needs_checksum(data) && !checksum_ok(data) {
        Err(ProxyError::ChecksumMismatch)
    } else {
        let w = if layout.decrypt {
            decrypted(data)
        } else {
            data
        };
        match fields_then_power(w, layout.fields, now) {
            Err(e) => Err(e),
            Ok(fields) => Ok(
                RecordView { header: data.subrange(0, 8), layout_spec: layout.id, fields },
            ),
        }
    }
}

/// Copies the 8 header bytes out of a frame buffer.
fn copy_header(data: &Vec<u8>) -> (h: [u8; 8])
    requires
        data@.len() >= 8,
    ensures
        h@ == data@.subrange(0, 8),
{
    let h: [u8; 8] = [data[0], data[1], data[2], data[3], data[4], data[5], data[6], data[7]];
    proof {
        assert(h@ =~= data@.subrange(0, 8));
    }
    h
}

/// Extracts a typed record from a frame under an explicit layout, stamping
/// date fields with the given timestamp.
///
/// The buffer is decrypted in place when the layout requires it and the
/// frame passes validation; the returned record or error is exactly what
/// [`from_buffer_model`] prescribes.
pub fn extract_at(growatt_data: &mut Vec<u8>, spec: &LayoutSpecification, now: i64) -> (r: Result<
    GrowattData,
    ProxyError,
>)
    requires
        spec.wf(),
    ensures
        final(growatt_data)@ == buffer_after(old(growatt_data)@, spec@.decrypt),
        record_result_view(r) == from_buffer_model(old(growatt_data)@, spec@, now as int),
{
    if growatt_data.len() < 12 {
        return Err(ProxyError::AckFrame);
    }
    match validate(growatt_data.as_slice()) {
        Err(e) => {
            return Err(e);
        },
        Ok(_) => {},
    }
    let header = copy_header(growatt_data);
    if spec.decrypt {
        decrypt_in_place(growatt_data);
    }
    proof {
        assert(growatt_data@ == if spec@.decrypt {
            decrypted(old(growatt_data)@)
        } else {
            old(growatt_data)@
        });
    }
    match extract_body(growatt_data, spec, now) {
        Err(e) => Err(e),
        Ok(fields) => {
            let result = GrowattData { header, layout_spec: spec.id.clone(), fields };
            Ok(result)
        },
    }
}

impl GrowattData {
    /// Extracts a typed record from a frame under an explicit layout,
    /// stamping date fields with the current wall-clock time.
    pub fn from_buffer(growatt_data: &mut Vec<u8>, spec: &LayoutSpecification) -> (r: Result<
        GrowattData,
        ProxyError,
    >)
        requires
            spec.wf(),
        ensures
            final(growatt_data)@ == buffer_after(old(growatt_data)@, spec@.decrypt),
            exists|now: int|
                record_result_view(r) == #[trigger] from_buffer_model(
                    old(growatt_data)@,
                    spec@,
                    now,
                ),
    {
        let now = current_timestamp();
        let r = extract_at(growatt_data, spec, now);
        proof {
            assert(record_result_view(r) == from_buffer_model(
                old(growatt_data)@,
                spec@,
                now as int,
            ));
        }
        r
    }

    /// Decrypts a frame body in place; the same call re-encrypts.
    pub fn decrypt_data(growatt_data: &mut Vec<u8>)
        requires
            old(growatt_data)@.len() >= 8,
        ensures
            final(growatt_data)@ == decrypted(old(growatt_data)@),
    {
        decrypt_in_place(growatt_data);
    }
}

/// The two status/heartbeat tags whose frames carry no telemetry; their
/// decode short-circuits to an empty record.
pub open spec fn no_telemetry_tag(tag: Seq<char>) -> bool {
    tag == "T065103"@ || tag == "T065129"@
}

/// What auto-detecting extraction returns for a buffer: the layout is
/// resolved from the header, the two no-telemetry tags yield an empty
/// record, and everything else follows [`from_buffer_model`].
pub open spec fn auto_model(data: Seq<u8>, now: int) -> Result<RecordView, ProxyError> {
    if data.len() < 12 {
        Err(ProxyError::AckFrame)
    } else {
        let layout = crate::layouts::detect_model(data.subrange(0, 8));
        if !length_ok(data) {
            Err(ProxyError::LengthMismatch)
        } else if needs_checksum(data) && !checksum_ok(data) {
            Err(ProxyError::ChecksumMismatch)
        } else if no_telemetry_tag(tag_of(data.subrange(0, 8))) {
            Ok(
                RecordView {
                    header: data.subrange(0, 8),
                    layout_spec: layout.id,
                    fields: Seq::empty(),
                },
            )
        } else {
            let w = if layout.decrypt {
                decrypted(data)
            } else {
                data
            };
            match fields_then_power(w, layout.fields, now) {
                Err(e) => Err(e),
                Ok(fields) => Ok(
                    RecordView { header: data.subrange(0, 8), layout_spec: layout.id, fields },
                ),
            }
        }
    }
}

/// The buffer as auto-detecting extraction leaves it; the resolved layout
/// decides whether a valid frame is decrypted in place.
pub open spec fn auto_buffer_after(data: Seq<u8>) -> Seq<u8> {
    if data.len() >= 12 && frame_valid(data) && crate::layouts::detect_model(
        data.subrange(0, 8),
    ).decrypt {
        decrypted(data)
    } else {
        data
    }
}

impl GrowattData {
    /// Extracts a typed record with the layout resolved from the frame
    /// header, stamping date fields with the given timestamp.
    pub fn extract_auto_at(growatt_data: &mut Vec<u8>, now: i64) -> (r: Result<
        GrowattData,
        ProxyError,
    >)
        ensures
            final(growatt_data)@ == auto_buffer_after(old(growatt_data)@),
            record_result_view(r) == auto_model(old(growatt_data)@, now as int),
    {
        if growatt_data.len() < 12 {
            return Err(ProxyError::AckFrame);
        }
        let header = copy_header(growatt_data);
        let spec = crate::layouts::detect_layout(&header);
        match validate(growatt_data.as_slice()) {
            Err(e) => {
                return Err(e);
            },
            Ok(_) => {},
        }
        if spec.requires_decrypt() {
            decrypt_in_place(growatt_data);
        }
        let tag = layout_tag(&header);
        let no_data_a = String::from_str("T065103");
        let no_data_b = String::from_str("T065129");
        if tag.eq(&no_data_a) || tag.eq(&no_data_b) {
            let result = GrowattData {
                header,
                layout_spec: spec.id.clone(),
                fields: Vec::new(),
            };
            proof {
                assert(result@.fields =~= Seq::<FieldView>::empty());
            }
            return Ok(result);
        }
        match extract_body(growatt_data, &spec, now) {
            Err(e) => Err(e),
            Ok(fields) => {
                let result = GrowattData { header, layout_spec: spec.id.clone(), fields };
                Ok(result)
            },
        }
    }

    /// Extracts a typed record with the layout resolved from the frame
    /// header, stamping date fields with the current wall-clock time.
    ///
    /// A supplied serial number serves only as a diagnostic anchor in
    /// companion tooling and does not change which layout is chosen.
    #[allow(unused_variables)]
    pub fn from_buffer_auto_detect_layout(growatt_data: &mut Vec<u8>, serial: Option<String>) -> (r:
        Result<GrowattData, ProxyError>)
        ensures
            final(growatt_data)@ == auto_buffer_after(old(growatt_data)@),
            exists|now: int| record_result_view(r) == #[trigger] auto_model(old(growatt_data)@, now),
    {
        let now = current_timestamp();
        let r = GrowattData::extract_auto_at(growatt_data, now);
        proof {
            assert(record_result_view(r) == auto_model(old(growatt_data)@, now as int));
        }
        r
    }
}

/// Bytes of an optional serial-number string.
pub open spec fn opt_serial_bytes(serial: Option<String>) -> Option<Seq<u8>> {
    match serial {
        Some(s) => Some(vstd::utf8::encode_utf8(s@)),
        None => None,
    }
}

/// A requested serial number does not occur in the working buffer.
pub open spec fn serial_missing(w: Seq<u8>, serial: Option<Seq<u8>>) -> bool {
    serial is Some && !(exists|i: int| subseq_matches_at(w, serial->Some_0, i))
}

/// The buffer as the offline analyzer leaves it: a valid frame is decrypted
/// once up front, and a second time by fallback-layout extraction unless a
/// requested serial was missing.
pub open spec fn analyze_buffer_after(data: Seq<u8>, serial: Option<Seq<u8>>) -> Seq<u8> {
    let w = if frame_valid(data) {
        decrypted(data)
    } else {
        data
    };
    if serial_missing(w, serial) {
        w
    } else {
        buffer_after(w, true)
    }
}

/// What the offline analyzer makes of a buffer: a valid frame is decrypted
/// first, a supplied serial must occur in the working buffer, and the
/// fallback layout is then applied to it.
pub open spec fn analyze_model(data: Seq<u8>, serial: Option<Seq<u8>>, now: int) -> Result<
    RecordView,
    ProxyError,
>
    recommends
        data.len() >= 8,
{
    let w = if frame_valid(data) {
        decrypted(data)
    } else {
        data
    };
    if serial_missing(w, serial) {
        Err(ProxyError::SerialNotFound)
    } else {
        from_buffer_model(w, crate::layouts::fallback_view(), now)
    }
}

impl GrowattData {
    /// Offline analysis of a captured frame: decrypts a valid frame in
    /// place, optionally locates a known serial number inside it, and
    /// decodes it under the fallback layout.
    pub fn analyze_data(growatt_data: &mut Vec<u8>, serial: Option<String>) -> (r: Result<
        GrowattData,
        ProxyError,
    >)
        requires
            old(growatt_data)@.len() >= 8,
            serial matches Some(s) ==> vstd::utf8::encode_utf8(s@).len() >= 1,
        ensures
            final(growatt_data)@ == analyze_buffer_after(
                old(growatt_data)@,
                opt_serial_bytes(serial),
            ),
            exists|now: int|
                record_result_view(r) == #[trigger] analyze_model(
                    old(growatt_data)@,
                    opt_serial_bytes(serial),
                    now,
                ),
    {
        let ghost orig = growatt_data@;
        match validate(growatt_data.as_slice()) {
            Ok(_) => {
                decrypt_in_place(growatt_data);
            },
            Err(_) => {},
        }
        let ghost w = growatt_data@;
        let ghost serial_bytes: Option<Seq<u8>> = opt_serial_bytes(serial);
        if let Some(s) = &serial {
            let needle = s.as_str().as_bytes();
            match find_subsequence(growatt_data.as_slice(), needle) {
                Some(found) => {
                    proof {
                        assert(needle@ == vstd::utf8::encode_utf8(s@));
                        assert(serial_bytes == Some(needle@));
                        assert(subseq_matches_at(w, needle@, found as int));
                        assert(exists|i: int| subseq_matches_at(w, needle@, i));
                    }
                },
                None => {
                    proof {
                        assert(forall|i: int| !subseq_matches_at(w, needle@, i));
                        assert(analyze_model(orig, serial_bytes, 0) == Err::<
                            RecordView,
                            ProxyError,
                        >(ProxyError::SerialNotFound));
                    }
                    return Err(ProxyError::SerialNotFound);
                },
            }
        }
        let spec = crate::layouts::t06nnnnx();
        proof {
            assert(spec@ == crate::layouts::fallback_view());
        }
        let now = current_timestamp();
        let r = extract_at(growatt_data, &spec, now);
        proof {
            let w2 = if frame_valid(orig) {
                decrypted(orig)
            } else {
                orig
            };
            assert(w2 == w);
            if serial_bytes is Some {
                let nb = serial_bytes->Some_0;
                let i0 = choose|i: int| subseq_matches_at(w, nb, i);
                assert(subseq_matches_at(w2, nb, i0));
                assert(exists|i: int| subseq_matches_at(w2, nb, i));
            }
            assert(!serial_missing(w2, serial_bytes));
            assert(record_result_view(r) == analyze_model(orig, serial_bytes, now as int));
        }
        r
    }
}

/// Two field values are alike when they are equal, except that two date
/// stamps are always alike whatever they hold.
pub open spec fn alike_value(a: FieldValueView, b: FieldValueView) -> bool {
    match (a, b) {
        (FieldValueView::Date(_), FieldValueView::Date(_)) => true,
        _ => a == b,
    }
}

/// Two decoded field sequences are alike when they agree on names and on
/// every non-date value.
pub open spec fn alike_fields(a: Seq<FieldView>, b: Seq<FieldView>) -> bool {
    &&& a.len() == b.len()
    &&& forall|i: int|
        0 <= i < a.len() ==> (#[trigger] a[i]).name == b[i].name && alike_value(
            a[i].value,
            b[i].value,
        )
}

proof fn lemma_fields_model_clock(data: Seq<u8>, fs: Seq<FieldSpecView>, n1: int, n2: int)
    ensures
        match (extract_fields_model(data, fs, n1), extract_fields_model(data, fs, n2)) {
            (Ok(f1), Ok(f2)) => alike_fields(f1, f2),
            (Err(e1), Err(e2)) => e1 == e2,
            _ => false,
        },
    decreases fs.len(),
{
    if fs.len() == 0 {
        assert(alike_fields(Seq::<FieldView>::empty(), Seq::<FieldView>::empty()));
    } else {
        lemma_fields_model_clock(data, fs.drop_last(), n1, n2);
        let m1 = extract_fields_model(data, fs.drop_last(), n1);
        let m2 = extract_fields_model(data, fs.drop_last(), n2);
        if m1 is Ok && m2 is Ok {
            let acc1 = m1->Ok_0;
            let acc2 = m2->Ok_0;
            match (extract_field_model(data, fs.last(), n1), extract_field_model(
                data,
                fs.last(),
                n2,
            )) {
                (Ok(Some(f1)), Ok(Some(f2))) => {
                    assert(f1.name == f2.name && alike_value(f1.value, f2.value));
                    assert(alike_fields(acc1.push(f1), acc2.push(f2))) by {
                        assert(forall|i: int|
                            0 <= i < acc1.len() ==> (#[trigger] acc1.push(f1)[i]) == acc1[i]
                                && acc2.push(f2)[i] == acc2[i]);
                        assert(acc1.push(f1)[acc1.len() as int] == f1 && acc2.push(f2)[
                        acc2.len() as int] == f2);
                    }
                },
                _ => {},
            }
        }
    }
}

proof fn lemma_find_field_alike(a: Seq<FieldView>, b: Seq<FieldView>, name: Seq<char>)
    requires
        alike_fields(a, b),
    ensures
        match (find_field(a, name), find_field(b, name)) {
            (Some(v1), Some(v2)) => alike_value(v1, v2),
            (None, None) => true,
            _ => false,
        },
    decreases a.len(),
{
    if a.len() > 0 {
        assert(a[0].name == b[0].name && alike_value(a[0].value, b[0].value));
        if a[0].name != name {
            assert(alike_fields(a.drop_first(), b.drop_first())) by {
                assert(forall|i: int|
                    0 <= i < a.len() - 1 ==> (#[trigger] a.drop_first()[i]) == a[i + 1]
                        && b.drop_first()[i] == b[i + 1]);
            }
            lemma_find_field_alike(a.drop_first(), b.drop_first(), name);
        }
    }
}

/// Whether decoding succeeds, and which error it reports, do not depend on
/// the wall-clock time: only the stamped values of date fields do. This is
/// what lets the extraction entry points promise their result for some
/// timestamp without weakening which frames are accepted.
pub proof fn lemma_decode_independent_of_clock(data: Seq<u8>, layout: LayoutView, n1: int, n2: int)
    ensures
        (from_buffer_model(data, layout, n1) is Ok) == (from_buffer_model(data, layout, n2) is Ok),
        from_buffer_model(data, layout, n1) is Err ==> from_buffer_model(data, layout, n1)
            == from_buffer_model(data, layout, n2),
        (auto_model(data, n1) is Ok) == (auto_model(data, n2) is Ok),
        auto_model(data, n1) is Err ==> auto_model(data, n1) == auto_model(data, n2),
{
    let w = if layout.decrypt {
        decrypted(data)
    } else {
        data
    };
    lemma_fields_model_clock(w, layout.fields, n1, n2);
    lemma_power_alike(w, layout.fields, n1, n2);
    let detected = crate::layouts::detect_model(data.subrange(0, 8));
    let wd = if detected.decrypt {
        decrypted(data)
    } else {
        data
    };
    lemma_fields_model_clock(wd, detected.fields, n1, n2);
    lemma_power_alike(wd, detected.fields, n1, n2);
}

proof fn lemma_power_alike(w: Seq<u8>, fs: Seq<FieldSpecView>, n1: int, n2: int)
    ensures
        match (extract_fields_model(w, fs, n1), extract_fields_model(w, fs, n2)) {
            (Ok(f1), Ok(f2)) => power_plausible(f1) == power_plausible(f2),
            _ => true,
        },
{
    lemma_fields_model_clock(w, fs, n1, n2);
    match (extract_fields_model(w, fs, n1), extract_fields_model(w, fs, n2)) {
        (Ok(f1), Ok(f2)) => {
            lemma_find_field_alike(f1, f2, "pvpowerout"@);
        },
        _ => {},
    }
}

/// A reported success is never a false positive: extraction, under an
/// explicit layout or an auto-detected one, returns a record only for a
/// frame of decodable length whose declared body length matches and whose
/// checksum, when required, matches.
pub proof fn lemma_extract_ok_implies_valid(data: Seq<u8>, layout: LayoutView, now: int)
    ensures
        from_buffer_model(data, layout, now) is Ok ==> data.len() >= 12 && frame_valid(data),
        auto_model(data, now) is Ok ==> data.len() >= 12 && frame_valid(data),
{
}

/// A frame shorter than 12 bytes is always rejected with the dedicated
/// ACK error and never partially parsed, under any layout.
pub proof fn lemma_short_frame_rejected(data: Seq<u8>, layout: LayoutView, now: int)
    requires
        data.len() < 12,
    ensures
        from_buffer_model(data, layout, now) == Err::<RecordView, ProxyError>(ProxyError::AckFrame),
        auto_model(data, now) == Err::<RecordView, ProxyError>(ProxyError::AckFrame),
{
}

/// A valid frame whose header resolves to one of the two no-telemetry tags
/// decodes to a record with zero fields.
pub proof fn lemma_no_telemetry_empty_record(data: Seq<u8>, now: int)
    requires
        data.len() >= 12,
        frame_valid(data),
        no_telemetry_tag(tag_of(data.subrange(0, 8))),
    ensures
        auto_model(data, now) is Ok,
        auto_model(data, now)->Ok_0.fields.len() == 0,
{
}

/// The needle occurs in the haystack starting at position `i`.
pub open spec fn subseq_matches_at(haystack: Seq<u8>, needle: Seq<u8>, i: int) -> bool {
    &&& 0 <= i
    &&& i + needle.len() <= haystack.len()
    &&& haystack.subrange(i, i + needle.len()) == needle
}

/// Compares the needle against the haystack at one position.
fn subseq_match_at(haystack: &[u8], needle: &[u8], i: usize) -> (b: bool)
    requires
        i + needle@.len() <= haystack@.len(),
    ensures
        b == subseq_matches_at(haystack@, needle@, i as int),
{
    let nn = needle.len();
    let hl = haystack.len();
    let mut k: usize = 0;
    while k < nn
        invariant
            i + nn <= hl,
            hl == haystack@.len(),
            k <= nn,
            nn == needle@.len(),
            forall|t: int| 0 <= t < k ==> haystack@[i + t] == needle@[t],
        decreases nn - k,
    {
        if haystack[i + k] != needle[k] {
            proof {
                assert(haystack@.subrange(i as int, i as int + nn as int)[k as int] == haystack@[i
                    + k]);
            }
            return false;
        }
        k = k + 1;
    }
    proof {
        assert(haystack@.subrange(i as int, i as int + nn as int) =~= needle@);
    }
    true
}

/// Position of the first occurrence of `needle` inside `haystack`, if any.
pub fn find_subsequence(haystack: &[u8], needle: &[u8]) -> (r: Option<usize>)
    requires
        needle@.len() >= 1,
    ensures
        match r {
            Some(i) => subseq_matches_at(haystack@, needle@, i as int) && forall|j: int|
                0 <= j < i ==> !subseq_matches_at(haystack@, needle@, j),
            None => forall|j: int| !subseq_matches_at(haystack@, needle@, j),
        },
{
    let hn = haystack.len();
    let nn = needle.len();
    if nn > hn {
        return None;
    }
    let mut i: usize = 0;
    while i <= hn - nn
        invariant
            1 <= nn <= hn,
            hn == haystack@.len(),
            nn == needle@.len(),
            i <= hn - nn + 1,
            forall|j: int| 0 <= j < i ==> !subseq_matches_at(haystack@, needle@, j),
        decreases hn - nn + 1 - i,
    {
        if subseq_match_at(haystack, needle, i) {
            return Some(i);
        }
        i = i + 1;
    }
    None
}

} // verus!
