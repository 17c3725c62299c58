use vstd::prelude::*;

use crate::bytes::{
    be16, be24, be32, copy_range, from_be16, from_be24, from_be32, join16, join24, join32,
    lemma_be16_round_trip, lemma_be24_round_trip, lemma_be32_round_trip,
};
use crate::float::Float32;
use crate::operation::laws::{is_trimmed, lemma_trimmed};
use crate::operation::process::float_at;
use crate::operation::text::{
    character_of, latin1, latin1_string, latin1_text, lemma_latin1_round_trip,
    lemma_packed_text_round_trip, packed_text, sextet_char, trimmed_length, unpacked,
    unpacked_text,
};
use crate::operation::OperationError;
use crate::strings::{
    blank, byte_length, is_blank, same_text, text_bytes, text_from, trimmed_end,
};

verus! {

/// Largest number of named fields in one application payload schema.
pub const MAXIMUM_SCHEMA_FIELDS: usize = 255;

/// Largest UTF-8 byte length accepted for a field or enumeration label.
pub const MAXIMUM_SCHEMA_NAME_BYTES: usize = 256;

/// Enumeration variant that preserves its numeric code.
#[derive(Debug, PartialEq, Eq)]
pub struct EnumChoice {
    /// Numeric value carried on the wire.
    pub value: u32,
    /// Display name from the source description.
    pub name: String,
}

impl Clone for EnumChoice {
    fn clone(&self) -> (copy: Self)
        ensures
            copy.value == self.value,
            copy.name@ == self.name@,
    {
        EnumChoice { value: self.value, name: self.name.clone() }
    }
}

impl EnumChoice {
    /// Creates one preserved numeric enumeration choice.
    pub fn new(value: u32, name: String) -> (choice: Self)
        ensures
            choice == (EnumChoice { value, name }),
    {
        EnumChoice { value, name }
    }
}

/// Type of one sequential field.
#[derive(Debug, PartialEq, Eq, Clone)]
pub enum FieldKind {
    /// Unsigned byte.
    U8,
    /// Signed byte.
    I8,
    /// Unsigned 16-bit integer.
    U16,
    /// Signed 16-bit integer.
    I16,
    /// Unsigned 24-bit integer.
    U24,
    /// Unsigned 32-bit integer.
    U32,
    /// Signed 32-bit integer.
    I32,
    /// Single-precision IEEE-754 number.
    F32,
    /// Boolean value where zero means false.
    Boolean,
    /// Raw bytes of fixed length.
    Bytes {
        /// Field length.
        length: usize,
    },
    /// Fixed-length Latin-1 string.
    Latin1 {
        /// Field length.
        length: usize,
    },
    /// Packed six-bit HART text.
    PackedAscii {
        /// Number of input bytes.
        length: usize,
    },
    /// Enumeration encoded as an unsigned byte.
    Enum8 {
        /// Known values.
        choices: Vec<EnumChoice>,
    },
}

impl FieldKind {
    /// Number of payload bytes of a field of this type.
    pub open spec fn width(self) -> nat {
        match self {
            FieldKind::U8 => 1,
            FieldKind::I8 => 1,
            FieldKind::Boolean => 1,
            FieldKind::Enum8 { .. } => 1,
            FieldKind::U16 => 2,
            FieldKind::I16 => 2,
            FieldKind::U24 => 3,
            FieldKind::U32 => 4,
            FieldKind::I32 => 4,
            FieldKind::F32 => 4,
            FieldKind::Bytes { length } => length as nat,
            FieldKind::Latin1 { length } => length as nat,
            FieldKind::PackedAscii { length } => length as nat,
        }
    }

    fn encoded_len(&self) -> (length: usize)
        ensures
            length == self.width(),
    {
        match self {
            FieldKind::U8 => 1,
            FieldKind::I8 => 1,
            FieldKind::Boolean => 1,
            FieldKind::Enum8 { .. } => 1,
            FieldKind::U16 => 2,
            FieldKind::I16 => 2,
            FieldKind::U24 => 3,
            FieldKind::U32 => 4,
            FieldKind::I32 => 4,
            FieldKind::F32 => 4,
            FieldKind::Bytes { length } => *length,
            FieldKind::Latin1 { length } => *length,
            FieldKind::PackedAscii { length } => *length,
        }
    }
}

/// Description of one response field.
#[derive(Debug, PartialEq, Eq, Clone)]
pub struct FieldSpec {
    /// Name unique within the schema.
    pub name: String,
    /// Representation type.
    pub field_type: FieldKind,
}

impl FieldSpec {
    /// Creates one named sequential field.
    pub fn new(name: String, field_type: FieldKind) -> (field: Self)
        ensures
            field == (FieldSpec { name, field_type }),
    {
        FieldSpec { name, field_type }
    }
}

/// Sequential payload schema.
#[derive(Debug, PartialEq, Eq, Clone)]
pub struct DataSchema {
    /// Fields in wire order.
    pub fields: Vec<FieldSpec>,
    /// Preserves an unknown tail instead of returning an error.
    pub preserve_tail: bool,
}

impl Default for DataSchema {
    fn default() -> (schema: Self)
        ensures
            schema.fields@ == Seq::<FieldSpec>::empty(),
            !schema.preserve_tail,
    {
        DataSchema::new()
    }
}

/// Error defining or applying a schema.
#[derive(Debug, PartialEq, Eq, Clone)]
pub enum SchemaError {
    /// A field name is empty.
    EmptyName,
    /// A schema has more named fields than can fit in a HART payload model.
    TooManyFields(usize),
    /// A field name is implausibly large.
    NameTooLong(usize),
    /// A device profile has no display name.
    EmptyProfileName,
    /// A device profile has no source revision.
    MissingSourceRevision,
    /// A profile identity or response-code description is implausibly large.
    ProfileTextTooLong(&'static str, usize),
    /// An exact device revision contains an implausible number of commands.
    TooManyProfileCommands(usize),
    /// A catalog reached its configured exact-revision limit.
    CatalogProfileLimit(usize),
    /// A response-code value has the communication-error bit set.
    ResponseCode(u8),
    /// A response-code description is empty.
    EmptyResponseCodeDescription(u8),
    /// An expanded device type does not fit a HART unique address.
    ExpandedDeviceType(u16),
    /// A field name is duplicated.
    DuplicateName(String),
    /// The total length does not fit in a payload.
    PayloadTooLarge(usize),
    /// An enumeration code does not fit the selected type.
    EnumValue(u32),
    /// An enumeration code is duplicated.
    DuplicateEnum(u32),
    /// An enumeration choice has no display label.
    EmptyEnumLabel(u32),
    /// A one-byte enumeration declares more than 256 alternatives.
    TooManyEnumChoices(usize),
    /// An enumeration label is implausibly large.
    EnumLabelTooLong {
        /// Numeric enumeration value.
        value: u32,
        /// Label length.
        bytes: usize,
    },
    /// A named byte or text field must consume at least one byte.
    ZeroLengthField(String),
    /// The payload does not match the schema.
    Codec(OperationError),
}

/// What an error holds, with its names as sequences of characters.
#[verifier::ext_equal]
pub enum SchemaErrorView {
    DuplicateName(Seq<char>),
    ZeroLengthField(Seq<char>),
    Plain(SchemaError),
}

impl View for SchemaError {
    type V = SchemaErrorView;

    open spec fn view(&self) -> SchemaErrorView {
        match self {
            SchemaError::DuplicateName(name) => SchemaErrorView::DuplicateName(name@),
            SchemaError::ZeroLengthField(name) => SchemaErrorView::ZeroLengthField(name@),
            _ => SchemaErrorView::Plain(*self),
        }
    }
}

/// Whether a check ended with the given problem, or with success where there is none.
pub open spec fn checked<T>(result: Result<T, SchemaError>, problem: Option<SchemaErrorView>) -> bool {
    match problem {
        Some(view) => result matches Err(error) && error@ == view,
        None => result is Ok,
    }
}

/// What is wrong with an enumeration choice among those before it, if anything.
pub open spec fn choice_violation(choices: Seq<EnumChoice>, index: int) -> Option<SchemaErrorView> {
    let choice = choices[index];
    if blank(choice.name@) {
        Some(SchemaErrorView::Plain(SchemaError::EmptyEnumLabel(choice.value)))
    } else if text_bytes(choice.name@).len() > MAXIMUM_SCHEMA_NAME_BYTES {
        Some(
            SchemaErrorView::Plain(
                SchemaError::EnumLabelTooLong {
                    value: choice.value,
                    bytes: text_bytes(choice.name@).len() as usize,
                },
            ),
        )
    } else if choice.value > 255 {
        Some(SchemaErrorView::Plain(SchemaError::EnumValue(choice.value)))
    } else if exists|earlier: int|
        0 <= earlier < index && (#[trigger] choices[earlier]).value == choice.value {
        Some(SchemaErrorView::Plain(SchemaError::DuplicateEnum(choice.value)))
    } else {
        None
    }
}

/// What is wrong with the choices from a position on, if anything.
pub open spec fn choices_violation(choices: Seq<EnumChoice>, from: int) -> Option<SchemaErrorView>
    decreases choices.len() - from,
{
    if from >= choices.len() {
        None
    } else {
        match choice_violation(choices, from) {
            Some(problem) => Some(problem),
            None => choices_violation(choices, from + 1),
        }
    }
}

/// What is wrong with the type of a field, if anything.
pub open spec fn kind_violation(field: FieldSpec) -> Option<SchemaErrorView> {
    match field.field_type {
        FieldKind::Enum8 { choices } => if choices@.len() > 256 {
            Some(SchemaErrorView::Plain(SchemaError::TooManyEnumChoices(choices@.len() as usize)))
        } else {
            choices_violation(choices@, 0)
        },
        FieldKind::Bytes { length } => empty_field(field, length),
        FieldKind::Latin1 { length } => empty_field(field, length),
        FieldKind::PackedAscii { length } => empty_field(field, length),
        _ => None,
    }
}

/// A field of fixed length must hold a byte.
pub open spec fn empty_field(field: FieldSpec, length: usize) -> Option<SchemaErrorView> {
    if length == 0 {
        Some(SchemaErrorView::ZeroLengthField(field.name@))
    } else {
        None
    }
}

/// Number of payload bytes of the first `count` fields.
pub open spec fn width_of(fields: Seq<FieldSpec>, count: int) -> nat
    decreases count,
{
    if count <= 0 {
        0
    } else {
        width_of(fields, count - 1) + fields[count - 1].field_type.width()
    }
}

/// What is wrong with a field among those before it, if anything.
pub open spec fn field_violation(fields: Seq<FieldSpec>, index: int) -> Option<SchemaErrorView> {
    let field = fields[index];
    if blank(field.name@) {
        Some(SchemaErrorView::Plain(SchemaError::EmptyName))
    } else if text_bytes(field.name@).len() > MAXIMUM_SCHEMA_NAME_BYTES {
        Some(
            SchemaErrorView::Plain(SchemaError::NameTooLong(text_bytes(field.name@).len() as usize)),
        )
    } else if exists|earlier: int|
        0 <= earlier < index && (#[trigger] fields[earlier]).name@ == field.name@ {
        Some(SchemaErrorView::DuplicateName(field.name@))
    } else if width_of(fields, index + 1) > usize::MAX {
        Some(SchemaErrorView::Plain(SchemaError::PayloadTooLarge(usize::MAX)))
    } else {
        kind_violation(field)
    }
}

/// What is wrong with the fields from a position on, if anything.
pub open spec fn fields_violation(fields: Seq<FieldSpec>, from: int) -> Option<SchemaErrorView>
    decreases fields.len() - from,
{
    if from >= fields.len() {
        None
    } else {
        match field_violation(fields, from) {
            Some(problem) => Some(problem),
            None => fields_violation(fields, from + 1),
        }
    }
}

/// The first field at or after `from` that the payload does not hold whole.
pub open spec fn first_incomplete(fields: Seq<FieldSpec>, length: nat, from: int) -> Option<int>
    decreases fields.len() - from,
{
    if from >= fields.len() {
        None
    } else if width_of(fields, from + 1) > length {
        Some(from)
    } else {
        first_incomplete(fields, length, from + 1)
    }
}

/// Whether a problem is that a catalog is full.
pub open spec fn about_a_full_catalog(problem: SchemaErrorView) -> bool {
    problem matches SchemaErrorView::Plain(SchemaError::CatalogProfileLimit(_))
}

proof fn lemma_choices_are_not_a_full_catalog(choices: Seq<EnumChoice>, from: int)
    ensures
        choices_violation(choices, from) matches Some(problem) ==> !about_a_full_catalog(problem),
    decreases choices.len() - from,
{
    if from < choices.len() {
        lemma_choices_are_not_a_full_catalog(choices, from + 1);
    }
}

proof fn lemma_fields_are_not_a_full_catalog(fields: Seq<FieldSpec>, from: int)
    ensures
        fields_violation(fields, from) matches Some(problem) ==> !about_a_full_catalog(problem),
    decreases fields.len() - from,
{
    if from < fields.len() {
        lemma_fields_are_not_a_full_catalog(fields, from + 1);
        if let FieldKind::Enum8 { choices } = fields[from].field_type {
            lemma_choices_are_not_a_full_catalog(choices@, 0);
        }
    }
}

pub(crate) proof fn lemma_schema_is_not_a_full_catalog(schema: DataSchema)
    ensures
        schema.violation() matches Some(problem) ==> !about_a_full_catalog(problem),
{
    lemma_fields_are_not_a_full_catalog(schema.fields@, 0);
}

impl DataSchema {
    /// What is wrong with the schema, if anything.
    pub open spec fn violation(self) -> Option<SchemaErrorView> {
        let total = width_of(self.fields@, self.fields@.len() as int);
        if self.fields@.len() > MAXIMUM_SCHEMA_FIELDS {
            Some(SchemaErrorView::Plain(SchemaError::TooManyFields(self.fields@.len() as usize)))
        } else if fields_violation(self.fields@, 0) is Some {
            fields_violation(self.fields@, 0)
        } else if total > 255 {
            Some(SchemaErrorView::Plain(SchemaError::PayloadTooLarge(total as usize)))
        } else {
            None
        }
    }

    /// What keeps a payload from being decoded with a valid schema, if anything.
    pub open spec fn payload_error(self, length: nat) -> Option<OperationError> {
        let total = width_of(self.fields@, self.fields@.len() as int);
        match first_incomplete(self.fields@, length, 0) {
            Some(index) => Some(
                OperationError::Truncated {
                    field: "dynamic field",
                    offset: width_of(self.fields@, index) as usize,
                },
            ),
            None => if !self.preserve_tail && total < length {
                Some(OperationError::TrailingBytes((length - total) as usize))
            } else {
                None
            },
        }
    }

    /// Creates an empty strict sequential schema.
    pub fn new() -> (schema: Self)
        ensures
            schema.fields@ == Seq::<FieldSpec>::empty(),
            !schema.preserve_tail,
    {
        DataSchema { fields: Vec::new(), preserve_tail: false }
    }

    /// Appends one field in wire order.
    pub fn with_field(self, field: FieldSpec) -> (schema: Self)
        ensures
            schema.fields@ == self.fields@.push(field),
            schema.preserve_tail == self.preserve_tail,
    {
        let mut fields = self.fields;
        fields.push(field);
        DataSchema { fields, ..self }
    }

    /// Chooses whether unknown response bytes are preserved.
    pub fn preserving_tail(self, preserve_tail: bool) -> (schema: Self)
        ensures
            schema == (DataSchema { preserve_tail, ..self }),
    {
        DataSchema { preserve_tail, ..self }
    }

    /// Validates unique names and the HART payload-size limit.
    pub fn validate(&self) -> (result: Result<(), SchemaError>)
        ensures
            checked(result, self.violation()),
    {
        if self.fields.len() > MAXIMUM_SCHEMA_FIELDS {
            return Err(SchemaError::TooManyFields(self.fields.len()));
        }
        let mut total: usize = 0;
        let mut index: usize = 0;
        while index < self.fields.len()
            invariant
                index <= self.fields@.len() <= MAXIMUM_SCHEMA_FIELDS,
                total == width_of(self.fields@, index as int),
                fields_violation(self.fields@, 0) == fields_violation(self.fields@, index as int),
            decreases self.fields@.len() - index,
        {
            let field = &self.fields[index];
            if is_blank(&field.name) {
                return Err(SchemaError::EmptyName);
            }
            let length: usize = byte_length(&field.name);
            if length > MAXIMUM_SCHEMA_NAME_BYTES {
                return Err(SchemaError::NameTooLong(length));
            }
            if named_before(&self.fields, index) {
                return Err(SchemaError::DuplicateName(field.name.clone()));
            }
            total = match total.checked_add(field.field_type.encoded_len()) {
                Some(sum) => sum,
                None => {
                    return Err(SchemaError::PayloadTooLarge(usize::MAX));
                },
            };
            check_kind(field)?;
            index += 1;
        }
        if total > 255 {
            return Err(SchemaError::PayloadTooLarge(total));
        }
        Ok(())
    }

    /// Decodes a record while preserving unknown values without losing their codes.
    pub fn decode(&self, bytes: &[u8]) -> (result: Result<DynamicRecord, SchemaError>)
        ensures
            match self.violation() {
                Some(problem) => result matches Err(error) && error@ == problem,
                None => match self.payload_error(bytes@.len()) {
                    Some(error) => result == Err::<DynamicRecord, SchemaError>(
                        SchemaError::Codec(error),
                    ),
                    None => result matches Ok(record) && record.holds(*self, bytes@),
                },
            },
    {
        self.validate()?;
        let length: usize = bytes.len();
        let mut values: Vec<NamedValue> = Vec::new();
        let mut offset: usize = 0;
        let mut index: usize = 0;
        while index < self.fields.len()
            invariant
                index <= self.fields@.len(),
                self.violation() is None,
                length == bytes@.len(),
                offset == width_of(self.fields@, index as int),
                offset <= length,
                first_incomplete(self.fields@, length as nat, 0) == first_incomplete(
                    self.fields@,
                    length as nat,
                    index as int,
                ),
                values@.len() == index,
                forall|i: int|
                    #![trigger values@[i]]
                    0 <= i < index ==> values@[i].name@ == self.fields@[i].name@
                        && values@[i].value@ == decoded_value(
                        self.fields@[i].field_type,
                        bytes@.skip(width_of(self.fields@, i) as int),
                    ),
            decreases self.fields@.len() - index,
        {
            let field = &self.fields[index];
            let width: usize = field.field_type.encoded_len();
            if width > length - offset {
                return Err(
                    SchemaError::Codec(OperationError::Truncated { field: "dynamic field", offset }),
                );
            }
            let end: usize = offset + width;
            let value = decode_field(&field.field_type, bytes, offset);
            values.push(NamedValue { name: field.name.clone(), value });
            offset = end;
            index += 1;
        }
        let tail = if self.preserve_tail {
            copy_range(bytes, offset, length)
        } else {
            if offset < length {
                return Err(SchemaError::Codec(OperationError::TrailingBytes(length - offset)));
            }
            Vec::new()
        };
        assert(tail@ =~= bytes@.skip(offset as int));
        Ok(DynamicRecord { values, tail })
    }
}

fn named_before(fields: &Vec<FieldSpec>, index: usize) -> (before: bool)
    requires
        index < fields@.len(),
    ensures
        before == exists|earlier: int|
            0 <= earlier < index && (#[trigger] fields@[earlier]).name@
                == fields@[index as int].name@,
{
    let mut earlier: usize = 0;
    while earlier < index
        invariant
            earlier <= index < fields@.len(),
            forall|i: int|
                0 <= i < earlier ==> (#[trigger] fields@[i]).name@ != fields@[index as int].name@,
        decreases index - earlier,
    {
        if same_text(&fields[earlier].name, &fields[index].name) {
            assert(fields@[earlier as int].name@ == fields@[index as int].name@);
            return true;
        }
        earlier += 1;
    }
    false
}

fn check_kind(field: &FieldSpec) -> (result: Result<(), SchemaError>)
    ensures
        checked(result, kind_violation(*field)),
{
    match &field.field_type {
        FieldKind::Enum8 { choices } => {
            if choices.len() > 256 {
                return Err(SchemaError::TooManyEnumChoices(choices.len()));
            }
            check_choices(choices)
        },
        FieldKind::Bytes { length } => check_length(field, *length),
        FieldKind::Latin1 { length } => check_length(field, *length),
        FieldKind::PackedAscii { length } => check_length(field, *length),
        _ => Ok(()),
    }
}

fn check_length(field: &FieldSpec, length: usize) -> (result: Result<(), SchemaError>)
    ensures
        checked(result, empty_field(*field, length)),
{
    if length == 0 {
        return Err(SchemaError::ZeroLengthField(field.name.clone()));
    }
    Ok(())
}

fn check_choices(choices: &Vec<EnumChoice>) -> (result: Result<(), SchemaError>)
    ensures
        checked(result, choices_violation(choices@, 0)),
{
    let mut index: usize = 0;
    while index < choices.len()
        invariant
            index <= choices@.len(),
            choices_violation(choices@, 0) == choices_violation(choices@, index as int),
        decreases choices@.len() - index,
    {
        let value: u32 = choices[index].value;
        if is_blank(&choices[index].name) {
            return Err(SchemaError::EmptyEnumLabel(value));
        }
        let length: usize = byte_length(&choices[index].name);
        if length > MAXIMUM_SCHEMA_NAME_BYTES {
            return Err(SchemaError::EnumLabelTooLong { value, bytes: length });
        }
        if value > 255 {
            return Err(SchemaError::EnumValue(value));
        }
        if valued_before(choices, index) {
            return Err(SchemaError::DuplicateEnum(value));
        }
        index += 1;
    }
    Ok(())
}

fn valued_before(choices: &Vec<EnumChoice>, index: usize) -> (before: bool)
    requires
        index < choices@.len(),
    ensures
        before == exists|earlier: int|
            0 <= earlier < index && (#[trigger] choices@[earlier]).value
                == choices@[index as int].value,
{
    let mut earlier: usize = 0;
    while earlier < index
        invariant
            earlier <= index < choices@.len(),
            forall|i: int|
                0 <= i < earlier ==> (#[trigger] choices@[i]).value != choices@[index as int].value,
        decreases index - earlier,
    {
        if choices[earlier].value == choices[index].value {
            return true;
        }
        earlier += 1;
    }
    false
}

/// Dynamically typed field value.
#[derive(Debug, PartialEq, Eq, Clone)]
pub enum DynamicValue {
    /// Unsigned integer.
    Unsigned(u32),
    /// Signed integer.
    Signed(i32),
    /// Floating-point number.
    Float(Float32),
    /// Boolean value.
    Boolean(bool),
    /// Raw bytes.
    Bytes(Vec<u8>),
    /// Text.
    Text(String),
    /// Known or unknown enumeration value.
    Enumeration {
        /// Original numeric code.
        code: u32,
        /// Name when the code is described by the schema.
        name: Option<String>,
    },
}

/// What a value holds, with its bytes and texts as sequences.
#[verifier::ext_equal]
pub enum ValueView {
    Unsigned(u32),
    Signed(i32),
    Float(Float32),
    Boolean(bool),
    Bytes(Seq<u8>),
    Text(Seq<char>),
    Enumeration { code: u32, name: Option<Seq<char>> },
}

impl View for DynamicValue {
    type V = ValueView;

    open spec fn view(&self) -> ValueView {
        match self {
            DynamicValue::Unsigned(value) => ValueView::Unsigned(*value),
            DynamicValue::Signed(value) => ValueView::Signed(*value),
            DynamicValue::Float(value) => ValueView::Float(*value),
            DynamicValue::Boolean(value) => ValueView::Boolean(*value),
            DynamicValue::Bytes(bytes) => ValueView::Bytes(bytes@),
            DynamicValue::Text(text) => ValueView::Text(text@),
            DynamicValue::Enumeration { code, name } => ValueView::Enumeration {
                code: *code,
                name: match name {
                    Some(text) => Some(text@),
                    None => None,
                },
            },
        }
    }
}

/// One decoded field.
#[derive(Debug, PartialEq, Eq, Clone)]
pub struct NamedValue {
    /// Field name.
    pub name: String,
    /// Decoded value.
    pub value: DynamicValue,
}

/// Result of dynamic decoding.
#[derive(Debug, PartialEq, Eq, Clone)]
pub struct DynamicRecord {
    /// Values in wire order, each under a name of its own.
    pub values: Vec<NamedValue>,
    /// Unrecognized tail.
    pub tail: Vec<u8>,
}

impl DynamicRecord {
    /// No two values share a name.
    pub open spec fn well_formed(self) -> bool {
        forall|i: int, j: int|
            0 <= i < j < self.values@.len() ==> (#[trigger] self.values@[i]).name@ != (
            #[trigger] self.values@[j]).name@
    }

    /// Whether this is the record that a payload decodes to.
    pub open spec fn holds(self, schema: DataSchema, bytes: Seq<u8>) -> bool {
        let fields = schema.fields@;
        &&& self.values@.len() == fields.len()
        &&& forall|i: int|
            #![trigger self.values@[i]]
            0 <= i < fields.len() ==> self.values@[i].name@ == fields[i].name@
                && self.values@[i].value@ == decoded_value(
                fields[i].field_type,
                bytes.skip(width_of(fields, i) as int),
            )
        &&& self.tail@ == bytes.skip(width_of(fields, fields.len() as int) as int)
    }

    /// Returns the value under a name.
    pub fn get(&self, name: &str) -> (value: Option<&DynamicValue>)
        ensures
            match value {
                Some(found) => exists|i: int|
                    0 <= i < self.values@.len() && (#[trigger] self.values@[i]).name@ == name@
                        && self.values@[i].value == found && forall|earlier: int|
                        0 <= earlier < i ==> (#[trigger] self.values@[earlier]).name@ != name@,
                None => forall|i: int|
                    0 <= i < self.values@.len() ==> (#[trigger] self.values@[i]).name@ != name@,
            },
    {
        let mut index: usize = 0;
        while index < self.values.len()
            invariant
                index <= self.values@.len(),
                forall|i: int| 0 <= i < index ==> (#[trigger] self.values@[i]).name@ != name@,
            decreases self.values@.len() - index,
        {
            if same_text(&self.values[index].name, name) {
                assert(self.values@[index as int].name@ == name@);
                return Some(&self.values[index].value);
            }
            index += 1;
        }
        None
    }
}

/// A record that a valid schema decoded never holds two values of one name.
pub proof fn lemma_decoded_names_are_unique(
    schema: DataSchema,
    record: DynamicRecord,
    bytes: Seq<u8>,
)
    requires
        schema.violation() is None,
        record.holds(schema, bytes),
    ensures
        record.well_formed(),
{
    let fields = schema.fields@;
    assert forall|i: int, j: int|
        0 <= i < j < record.values@.len() implies (#[trigger] record.values@[i]).name@ != (
    #[trigger] record.values@[j]).name@ by {
        lemma_no_field_violation(fields, 0, j);
        assert(fields[i].name@ != fields[j].name@);
    }
}

proof fn lemma_no_field_violation(fields: Seq<FieldSpec>, from: int, index: int)
    requires
        0 <= from <= index < fields.len(),
        fields_violation(fields, from) is None,
    ensures
        field_violation(fields, index) is None,
    decreases index - from,
{
    if from < index {
        lemma_no_field_violation(fields, from + 1, index);
    }
}

/// A byte in two's complement.
pub open spec fn signed8(byte: u8) -> i32 {
    if byte < 128 {
        byte as i32
    } else {
        (byte - 256) as i32
    }
}

/// A 16-bit number in two's complement.
pub open spec fn signed16(value: u16) -> i32 {
    if value < 0x8000 {
        value as i32
    } else {
        (value - 0x1_0000) as i32
    }
}

/// A 32-bit number in two's complement.
pub open spec fn signed32(value: u32) -> i32 {
    if value < 0x8000_0000 {
        value as i32
    } else {
        (value - 0x1_0000_0000) as i32
    }
}

/// The six bits at a position of a bit string, most significant bit first.
pub open spec fn six_bits(bytes: Seq<u8>, position: int) -> u8 {
    let index = position * 6 / 8;
    let shift = position * 6 % 8;
    if shift == 0 {
        bytes[index] / 4
    } else if shift == 2 {
        bytes[index] % 64
    } else if shift == 4 {
        ((bytes[index] % 16) * 4 + bytes[index + 1] / 64) as u8
    } else {
        ((bytes[index] % 4) * 16 + bytes[index + 1] / 16) as u8
    }
}

/// The text of packed six-bit codes, without trailing spaces. Bits that are
/// left over at the end stand for nothing.
pub open spec fn packed_ascii(bytes: Seq<u8>) -> Seq<char> {
    trimmed_end(
        Seq::new(bytes.len() * 8 / 6, |k: int| sextet_char(six_bits(bytes, k))),
        set![' '],
    )
}

/// A packed field of whole groups holds the text that packed text of the same
/// bytes holds.
pub proof fn lemma_packed_field_is_packed_text(bytes: Seq<u8>)
    requires
        bytes.len() % 3 == 0,
    ensures
        packed_ascii(bytes) == unpacked_text(bytes),
{
    let codes = unpacked(bytes);
    let field = Seq::new(bytes.len() * 8 / 6, |k: int| sextet_char(six_bits(bytes, k)));
    assert(field.len() == codes.len());
    assert forall|k: int| 0 <= k < codes.len() implies six_bits(bytes, k) == #[trigger] codes[k] by {
        let group = k / 4 * 3;
        if k % 4 == 0 {
            assert(k * 6 == 8 * group);
        } else if k % 4 == 1 {
            assert(k * 6 == 8 * group + 6);
        } else if k % 4 == 2 {
            assert(k * 6 == 8 * (group + 1) + 4);
        } else {
            assert(k * 6 == 8 * (group + 2) + 2);
        }
    }
    assert(field =~= codes.map_values(|code: u8| sextet_char(code)));
}

/// The label of the first choice with a code.
pub open spec fn label_of(choices: Seq<EnumChoice>, from: int, code: u32) -> Option<Seq<char>>
    decreases choices.len() - from,
{
    if from >= choices.len() {
        None
    } else if choices[from].value == code {
        Some(choices[from].name@)
    } else {
        label_of(choices, from + 1, code)
    }
}

/// The value of a field at the head of a payload that holds it whole.
pub open spec fn decoded_value(kind: FieldKind, data: Seq<u8>) -> ValueView {
    match kind {
        FieldKind::U8 => ValueView::Unsigned(data[0] as u32),
        FieldKind::I8 => ValueView::Signed(signed8(data[0])),
        FieldKind::U16 => ValueView::Unsigned(from_be16(data[0], data[1]) as u32),
        FieldKind::I16 => ValueView::Signed(signed16(from_be16(data[0], data[1]))),
        FieldKind::U24 => ValueView::Unsigned(from_be24(data[0], data[1], data[2])),
        FieldKind::U32 => ValueView::Unsigned(from_be32(data[0], data[1], data[2], data[3])),
        FieldKind::I32 => ValueView::Signed(
            signed32(from_be32(data[0], data[1], data[2], data[3])),
        ),
        FieldKind::F32 => ValueView::Float(float_at(data, 0)),
        FieldKind::Boolean => ValueView::Boolean(data[0] != 0),
        FieldKind::Bytes { length } => ValueView::Bytes(data.take(length as int)),
        FieldKind::Latin1 { length } => ValueView::Text(latin1_text(data.take(length as int))),
        FieldKind::PackedAscii { length } => ValueView::Text(
            packed_ascii(data.take(length as int)),
        ),
        FieldKind::Enum8 { choices } => ValueView::Enumeration {
            code: data[0] as u32,
            name: label_of(choices@, 0, data[0] as u32),
        },
    }
}

/// The widths of the kinds of fields.
pub proof fn lemma_field_widths(length: usize, choices: Vec<EnumChoice>)
    ensures
        FieldKind::U8.width() == 1,
        FieldKind::I8.width() == 1,
        FieldKind::U16.width() == 2,
        FieldKind::I16.width() == 2,
        FieldKind::U24.width() == 3,
        FieldKind::U32.width() == 4,
        FieldKind::I32.width() == 4,
        FieldKind::F32.width() == 4,
        FieldKind::Boolean.width() == 1,
        (FieldKind::Bytes { length }).width() == length,
        (FieldKind::Latin1 { length }).width() == length,
        (FieldKind::PackedAscii { length }).width() == length,
        (FieldKind::Enum8 { choices }).width() == 1,
{
}

/// Every signed number comes back from the big-endian bytes of its two's
/// complement, in one, two and four bytes.
pub proof fn lemma_signed_fields_round_trip(small: i8, medium: i16, large: i32)
    ensures
        decoded_value(
            FieldKind::I8,
            seq![
                if small >= 0 {
                    small as u8
                } else {
                    (small + 0x100) as u8
                },
            ],
        ) == ValueView::Signed(small as i32),
        decoded_value(
            FieldKind::I16,
            be16(
                if medium >= 0 {
                    medium as u16
                } else {
                    (medium + 0x1_0000) as u16
                },
            ),
        ) == ValueView::Signed(medium as i32),
        decoded_value(
            FieldKind::I32,
            be32(
                if large >= 0 {
                    large as u32
                } else {
                    (large + 0x1_0000_0000) as u32
                },
            ),
        ) == ValueView::Signed(large),
{
    let wide = if medium >= 0 {
        medium as u16
    } else {
        (medium + 0x1_0000) as u16
    };
    let widest = if large >= 0 {
        large as u32
    } else {
        (large + 0x1_0000_0000) as u32
    };
    lemma_be16_round_trip(wide, 0, 0);
    lemma_be32_round_trip(widest, 0, 0, 0, 0);
}

/// A signed field of one or two bytes gives a number of that many bytes.
pub proof fn lemma_signed_fields_are_bounded(data: Seq<u8>)
    ensures
        decoded_value(FieldKind::I8, data) matches ValueView::Signed(value) && -0x80 <= value
            <= 0x7f && (value - data[0]) % 0x100 == 0,
        decoded_value(FieldKind::I16, data) matches ValueView::Signed(value) && -0x8000 <= value
            <= 0x7fff && (value - (data[0] * 0x100 + data[1])) % 0x1_0000 == 0,
{
}

/// Every unsigned number comes back from its big-endian bytes, and so does a
/// floating-point number.
pub proof fn lemma_unsigned_fields_round_trip(byte: u8, short: u16, medium: u32, large: u32)
    requires
        medium <= 0xff_ffff,
    ensures
        decoded_value(FieldKind::U8, seq![byte]) == ValueView::Unsigned(byte as u32),
        decoded_value(FieldKind::U16, be16(short)) == ValueView::Unsigned(short as u32),
        decoded_value(FieldKind::U24, be24(medium)) == ValueView::Unsigned(medium),
        decoded_value(FieldKind::U32, be32(large)) == ValueView::Unsigned(large),
        decoded_value(FieldKind::F32, be32(large)) == ValueView::Float(Float32 { bits: large }),
        decoded_value(FieldKind::Boolean, seq![byte]) == ValueView::Boolean(byte != 0),
{
    lemma_be16_round_trip(short, 0, 0);
    lemma_be24_round_trip(medium, 0, 0, 0);
    lemma_be32_round_trip(large, 0, 0, 0, 0);
}

/// A field of bytes gives its bytes. A text field gives back the text that was
/// written into it, without the blanks at its end.
pub proof fn lemma_text_fields_round_trip(bytes: Seq<u8>, text: Seq<char>, length: usize)
    requires
        bytes.len() == length,
    ensures
        decoded_value(FieldKind::Bytes { length }, bytes) == ValueView::Bytes(bytes),
        latin1(text, length as nat) is Ok ==> (decoded_value(
            FieldKind::Latin1 { length },
            latin1(text, length as nat)->Ok_0,
        ) matches ValueView::Text(read) && is_trimmed(read, text, true)),
        packed_text(text, length as nat) is Ok ==> (decoded_value(
            FieldKind::PackedAscii { length },
            packed_text(text, length as nat)->Ok_0,
        ) matches ValueView::Text(read) && is_trimmed(read, text, false)),
{
    assert(bytes.take(length as int) =~= bytes);
    if latin1(text, length as nat) is Ok {
        let written = latin1(text, length as nat)->Ok_0;
        lemma_latin1_round_trip(text, length as nat);
        lemma_trimmed(text, true);
        assert(written.take(length as int) =~= written);
    }
    if packed_text(text, length as nat) is Ok {
        let written = packed_text(text, length as nat)->Ok_0;
        lemma_packed_text_round_trip(text, length as nat);
        lemma_trimmed(text, false);
        assert(written.len() == length);
        assert(written.take(length as int) =~= written);
        lemma_packed_field_is_packed_text(written);
    }
}

/// An enumeration field gives its code, with the name of the first choice of
/// that code, or with none where no choice has it.
pub proof fn lemma_enumeration_field(choices: Vec<EnumChoice>, byte: u8, index: int)
    ensures
        decoded_value(FieldKind::Enum8 { choices }, seq![byte]) matches ValueView::Enumeration {
            code,
            name,
        } && code == byte && (0 <= index < choices@.len() && choices@[index].value == byte && (
        forall|earlier: int|
            0 <= earlier < index ==> (#[trigger] choices@[earlier]).value != byte) ==> name == Some(
            choices@[index].name@,
        )) && ((forall|any: int|
            0 <= any < choices@.len() ==> (#[trigger] choices@[any]).value != byte) ==> name
            is None),
{
    lemma_label_of(choices@, 0, byte as u32, index);
}

proof fn lemma_label_of(choices: Seq<EnumChoice>, from: int, code: u32, index: int)
    requires
        0 <= from,
    ensures
        from <= index < choices.len() && choices[index].value == code && (forall|earlier: int|
            from <= earlier < index ==> (#[trigger] choices[earlier]).value != code) ==> label_of(
            choices,
            from,
            code,
        ) == Some(choices[index].name@),
        (forall|any: int| from <= any < choices.len() ==> (#[trigger] choices[any]).value != code)
            ==> label_of(choices, from, code) is None,
    decreases choices.len() - from,
{
    if from < choices.len() {
        lemma_label_of(choices, from + 1, code, index);
    }
}

/// The bytes of the fields of a record in a row.
pub open spec fn joined(parts: Seq<Seq<u8>>, count: int) -> Seq<u8>
    decreases count,
{
    if count <= 0 {
        Seq::empty()
    } else {
        joined(parts, count - 1) + parts[count - 1]
    }
}

proof fn lemma_joined(fields: Seq<FieldSpec>, parts: Seq<Seq<u8>>, count: int, index: int)
    requires
        0 <= index < count <= parts.len(),
        parts.len() == fields.len(),
        forall|i: int|
            0 <= i < parts.len() ==> (#[trigger] parts[i]).len() == fields[i].field_type.width(),
    ensures
        joined(parts, count).len() == width_of(fields, count),
        width_of(fields, index) + parts[index].len() <= width_of(fields, count),
        forall|i: int|
            0 <= i < parts[index].len() ==> joined(parts, count)[width_of(fields, index) + i]
                == #[trigger] parts[index][i],
    decreases count,
{
    if count > 1 && index < count - 1 {
        lemma_joined(fields, parts, count - 1, index);
    } else if count > 1 {
        lemma_joined(fields, parts, count - 1, count - 2);
    } else {
        reveal_with_fuel(joined, 2);
        reveal_with_fuel(width_of, 2);
    }
}

/// A record that was written field after field is read back field after field:
/// each value is what its own bytes give, under the name of its field, and what
/// follows the last field is kept.
pub proof fn lemma_record_is_read_field_by_field(
    schema: DataSchema,
    parts: Seq<Seq<u8>>,
    tail: Seq<u8>,
    record: DynamicRecord,
    index: int,
)
    requires
        parts.len() == schema.fields@.len(),
        forall|i: int|
            0 <= i < parts.len() ==> (#[trigger] parts[i]).len()
                == schema.fields@[i].field_type.width(),
        record.holds(schema, joined(parts, parts.len() as int) + tail),
        0 <= index < parts.len(),
    ensures
        record.values@.len() == parts.len(),
        record.values@[index].name@ == schema.fields@[index].name@,
        record.values@[index].value@ == decoded_value(
            schema.fields@[index].field_type,
            parts[index],
        ),
        record.tail@ == tail,
{
    let fields = schema.fields@;
    let count = parts.len() as int;
    let bytes = joined(parts, count) + tail;
    let kind = fields[index].field_type;
    let at = width_of(fields, index) as int;
    let data = bytes.skip(at);
    let part = parts[index];
    lemma_joined(fields, parts, count, index);
    assert forall|i: int| 0 <= i < part.len() implies data[i] == part[i] by {
        assert(joined(parts, count)[at + i] == part[i]);
        assert(bytes[at + i] == part[i]);
    }
    assert(data.take(part.len() as int) =~= part);
    assert(part.take(part.len() as int) =~= part);
    assert(bytes.skip(width_of(fields, count) as int) =~= tail);
    assert(decoded_value(kind, data) == decoded_value(kind, part));
}

/// A payload is read exactly when it holds all fields and, unless bytes behind
/// them are kept, nothing else.
pub proof fn lemma_payload_of_a_schema(schema: DataSchema, length: nat)
    ensures
        schema.payload_error(length) is None <==> width_of(
            schema.fields@,
            schema.fields@.len() as int,
        ) <= length && (schema.preserve_tail || length == width_of(
            schema.fields@,
            schema.fields@.len() as int,
        )),
        forall|count: int|
            0 <= count < schema.fields@.len() ==> #[trigger] width_of(schema.fields@, count + 1)
                == width_of(schema.fields@, count) + schema.fields@[count].field_type.width(),
{
    lemma_first_incomplete(schema.fields@, length, 0);
}

proof fn lemma_first_incomplete(fields: Seq<FieldSpec>, length: nat, from: int)
    requires
        0 <= from <= fields.len(),
        width_of(fields, from) <= length,
    ensures
        first_incomplete(fields, length, from) is None <==> width_of(fields, fields.len() as int)
            <= length,
    decreases fields.len() - from,
{
    if from < fields.len() {
        if width_of(fields, from + 1) > length {
            lemma_widths_grow(fields, from + 1, fields.len() as int);
        } else {
            lemma_first_incomplete(fields, length, from + 1);
        }
    }
}

proof fn lemma_widths_grow(fields: Seq<FieldSpec>, from: int, to: int)
    requires
        0 <= from <= to <= fields.len(),
    ensures
        width_of(fields, from) <= width_of(fields, to),
    decreases to - from,
{
    if from < to {
        lemma_widths_grow(fields, from, to - 1);
    }
}

fn decode_field(kind: &FieldKind, bytes: &[u8], offset: usize) -> (value: DynamicValue)
    requires
        offset + kind.width() <= bytes@.len(),
    ensures
        value@ == decoded_value(*kind, bytes@.skip(offset as int)),
{
    let length: usize = bytes.len();
    let ghost data = bytes@.skip(offset as int);
    assert(length == bytes@.len());
    match kind {
        FieldKind::U8 => DynamicValue::Unsigned(bytes[offset] as u32),
        FieldKind::I8 => {
            let byte: u8 = bytes[offset];
            DynamicValue::Signed(
                if byte < 128 {
                    byte as i32
                } else {
                    byte as i32 - 256
                },
            )
        },
        FieldKind::U16 => DynamicValue::Unsigned(join16(bytes[offset], bytes[offset + 1]) as u32),
        FieldKind::I16 => {
            let number: u16 = join16(bytes[offset], bytes[offset + 1]);
            DynamicValue::Signed(
                if number < 0x8000 {
                    number as i32
                } else {
                    number as i32 - 0x1_0000
                },
            )
        },
        FieldKind::U24 => DynamicValue::Unsigned(
            join24(bytes[offset], bytes[offset + 1], bytes[offset + 2]),
        ),
        FieldKind::U32 => DynamicValue::Unsigned(
            join32(bytes[offset], bytes[offset + 1], bytes[offset + 2], bytes[offset + 3]),
        ),
        FieldKind::I32 => {
            let number: u32 = join32(
                bytes[offset],
                bytes[offset + 1],
                bytes[offset + 2],
                bytes[offset + 3],
            );
            DynamicValue::Signed(
                if number < 0x8000_0000 {
                    number as i32
                } else {
                    (number as i64 - 0x1_0000_0000) as i32
                },
            )
        },
        FieldKind::F32 => DynamicValue::Float(
            Float32 {
                bits: join32(bytes[offset], bytes[offset + 1], bytes[offset + 2], bytes[offset + 3]),
            },
        ),
        FieldKind::Boolean => DynamicValue::Boolean(bytes[offset] != 0),
        FieldKind::Bytes { length } => {
            let part = copy_range(bytes, offset, offset + *length);
            assert(part@ =~= data.take(*length as int));
            DynamicValue::Bytes(part)
        },
        FieldKind::Latin1 { length } => {
            let part = copy_range(bytes, offset, offset + *length);
            assert(part@ =~= data.take(*length as int));
            DynamicValue::Text(latin1_string(&part))
        },
        FieldKind::PackedAscii { length } => {
            let part = copy_range(bytes, offset, offset + *length);
            assert(part@ =~= data.take(*length as int));
            DynamicValue::Text(decode_packed_ascii(&part))
        },
        FieldKind::Enum8 { choices } => {
            let code: u32 = bytes[offset] as u32;
            DynamicValue::Enumeration { code, name: find_label(choices, code) }
        },
    }
}

fn find_label(choices: &Vec<EnumChoice>, code: u32) -> (label: Option<String>)
    ensures
        match label {
            Some(text) => label_of(choices@, 0, code) == Some(text@),
            None => label_of(choices@, 0, code) is None,
        },
{
    let mut index: usize = 0;
    while index < choices.len()
        invariant
            index <= choices@.len(),
            label_of(choices@, 0, code) == label_of(choices@, index as int, code),
        decreases choices@.len() - index,
    {
        if choices[index].value == code {
            return Some(choices[index].name.clone());
        }
        index += 1;
    }
    None
}

fn decode_packed_ascii(bytes: &Vec<u8>) -> (text: String)
    ensures
        text@ == packed_ascii(bytes@),
{
    let ghost whole = Seq::new(bytes@.len() * 8 / 6, |k: int| sextet_char(six_bits(bytes@, k)));
    let mut characters: Vec<char> = Vec::new();
    let mut carry: u8 = 0;
    let mut held: u8 = 0;
    let mut index: usize = 0;
    while index < bytes.len()
        invariant
            index <= bytes@.len(),
            whole == Seq::new(bytes@.len() * 8 / 6, |k: int| sextet_char(six_bits(bytes@, k))),
            held == 0 || held == 2 || held == 4,
            held == 8 * index - 6 * characters@.len(),
            held == 0 ==> carry == 0,
            held == 2 ==> index > 0 && carry == bytes@[index - 1] % 4,
            held == 4 ==> index > 0 && carry == bytes@[index - 1] % 16,
            characters@.len() <= whole.len(),
            characters@ == whole.take(characters@.len() as int),
        decreases bytes@.len() - index,
    {
        let byte: u8 = bytes[index];
        let ghost position = characters@.len() as int;
        if held == 0 {
            characters.push(character_of(byte / 4));
            assert(position * 6 == 8 * index);
            carry = byte % 4;
            held = 2;
        } else if held == 2 {
            characters.push(character_of(carry * 16 + byte / 16));
            assert(position * 6 == 8 * (index - 1) + 6);
            carry = byte % 16;
            held = 4;
        } else {
            characters.push(character_of(carry * 4 + byte / 64));
            assert(position * 6 == 8 * (index - 1) + 4);
            characters.push(character_of(byte % 64));
            assert((position + 1) * 6 == 8 * index + 2);
            carry = 0;
            held = 0;
        }
        index += 1;
        assert(characters@ =~= whole.take(characters@.len() as int));
    }
    assert(characters@ =~= whole);
    let length = trimmed_length(&characters, false);
    text_from(&characters, length)
}

/// Whether a choice of an enumeration is in order beside those before it.
pub open spec fn proper_choice(choices: Seq<EnumChoice>, index: int) -> bool {
    &&& !blank(choices[index].name@)
    &&& text_bytes(choices[index].name@).len() <= MAXIMUM_SCHEMA_NAME_BYTES
    &&& choices[index].value <= 255
    &&& forall|earlier: int|
        0 <= earlier < index ==> (#[trigger] choices[earlier]).value != choices[index].value
}

/// Whether a field is in order by itself.
pub open spec fn proper_kind(kind: FieldKind) -> bool {
    match kind {
        FieldKind::Bytes { length } => length > 0,
        FieldKind::Latin1 { length } => length > 0,
        FieldKind::PackedAscii { length } => length > 0,
        FieldKind::Enum8 { choices } => choices@.len() <= 256 && forall|index: int|
            0 <= index < choices@.len() ==> #[trigger] proper_choice(choices@, index),
        _ => true,
    }
}

/// Whether a field is in order beside those before it.
pub open spec fn proper_field(fields: Seq<FieldSpec>, index: int) -> bool {
    &&& !blank(fields[index].name@)
    &&& text_bytes(fields[index].name@).len() <= MAXIMUM_SCHEMA_NAME_BYTES
    &&& proper_kind(fields[index].field_type)
    &&& forall|earlier: int|
        0 <= earlier < index ==> (#[trigger] fields[earlier]).name@ != fields[index].name@
}

proof fn lemma_proper_choices(choices: Seq<EnumChoice>, from: int)
    requires
        0 <= from <= choices.len(),
    ensures
        choices_violation(choices, from) is None <==> forall|index: int|
            from <= index < choices.len() ==> #[trigger] proper_choice(choices, index),
    decreases choices.len() - from,
{
    if from < choices.len() {
        lemma_proper_choices(choices, from + 1);
        assert(choice_violation(choices, from) is None <==> proper_choice(choices, from));
    }
}

proof fn lemma_proper_fields(fields: Seq<FieldSpec>, from: int)
    requires
        0 <= from <= fields.len(),
        width_of(fields, fields.len() as int) <= usize::MAX,
    ensures
        fields_violation(fields, from) is None <==> forall|index: int|
            from <= index < fields.len() ==> #[trigger] proper_field(fields, index),
    decreases fields.len() - from,
{
    if from < fields.len() {
        lemma_proper_fields(fields, from + 1);
        lemma_widths_grow(fields, from + 1, fields.len() as int);
        if let FieldKind::Enum8 { choices } = fields[from].field_type {
            lemma_proper_choices(choices@, 0);
        }
        assert(field_violation(fields, from) is None <==> proper_field(fields, from));
    }
}

proof fn lemma_wide_fields(fields: Seq<FieldSpec>, from: int)
    requires
        0 <= from < fields.len(),
        width_of(fields, fields.len() as int) > usize::MAX,
    ensures
        fields_violation(fields, from) is Some,
    decreases fields.len() - from,
{
    if from + 1 < fields.len() {
        lemma_wide_fields(fields, from + 1);
    }
}

/// A layout is accepted exactly when it has at most 255 fields of together at
/// most 255 bytes, each with a name of its own that says something and is not
/// too long, none of them empty, and each enumeration with at most 256 choices
/// of different codes up to 255, all named.
pub proof fn lemma_valid_schema(schema: DataSchema)
    ensures
        schema.violation() is None <==> schema.fields@.len() <= 255 && width_of(
            schema.fields@,
            schema.fields@.len() as int,
        ) <= 255 && forall|index: int|
            0 <= index < schema.fields@.len() ==> #[trigger] proper_field(schema.fields@, index),
{
    let fields = schema.fields@;
    if width_of(fields, fields.len() as int) <= usize::MAX {
        lemma_proper_fields(fields, 0);
    } else {
        lemma_wide_fields(fields, 0);
    }
}

} // verus!
