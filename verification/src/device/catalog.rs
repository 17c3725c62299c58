use std::collections::BTreeMap;

use vstd::prelude::*;

use crate::device::schema::{DataSchema, SchemaError, SchemaErrorView};
use crate::operation::{CommandCode, CommandNumber};
use crate::ordered::{ascending_keys, find, holds, keys_of, lookup, put, size};
use crate::strings::{blank, byte_length, is_blank, text_bytes};

verus! {

/// Default upper bound for profiles retained by one catalog.
pub const DEFAULT_MAXIMUM_CATALOG_PROFILES: usize = 4096;

/// Default upper bound for one directly loaded JSON profile.
pub const DEFAULT_MAXIMUM_CATALOG_JSON_BYTES: usize = 8 * 1024 * 1024;

/// Hard upper bound for configured exact device revisions.
pub const MAXIMUM_CATALOG_PROFILES: usize = 65_536;

/// Hard upper bound for one direct JSON profile input.
pub const MAXIMUM_CATALOG_JSON_BYTES: usize = 64 * 1024 * 1024;

/// Largest UTF-8 byte length accepted for profile identity text.
pub const MAXIMUM_PROFILE_TEXT_BYTES: usize = 1024;

/// Largest number of command entries accepted in one exact device revision.
pub const MAXIMUM_PROFILE_COMMANDS: usize = 4096;

/// Resource limits for direct DeviceInfo-style catalog loading.
#[derive(Debug, Clone, Copy, PartialEq, Eq, Structural)]
pub struct CatalogLimits {
    /// Maximum exact device revisions retained at once.
    pub profiles: usize,
    /// Maximum bytes accepted by one [`DeviceCatalog::load_json`] call.
    pub json_bytes: usize,
}

impl Default for CatalogLimits {
    fn default() -> (limits: Self)
        ensures
            limits.profiles == DEFAULT_MAXIMUM_CATALOG_PROFILES,
            limits.json_bytes == DEFAULT_MAXIMUM_CATALOG_JSON_BYTES,
    {
        CatalogLimits {
            profiles: DEFAULT_MAXIMUM_CATALOG_PROFILES,
            json_bytes: DEFAULT_MAXIMUM_CATALOG_JSON_BYTES,
        }
    }
}

impl CatalogLimits {
    /// What is wrong with the limits, if anything.
    pub open spec fn violation(self) -> Option<CatalogLoadError> {
        if self.profiles == 0 || self.json_bytes == 0 {
            Some(CatalogLoadError::ZeroLimit)
        } else if self.profiles > MAXIMUM_CATALOG_PROFILES {
            Some(CatalogLoadError::ProfileConfigurationLimit(self.profiles))
        } else if self.json_bytes > MAXIMUM_CATALOG_JSON_BYTES {
            Some(CatalogLoadError::JsonConfigurationLimit(self.json_bytes))
        } else {
            None
        }
    }

    /// Sets the exact device-revision count limit.
    pub fn with_profiles(self, profiles: usize) -> (limits: Self)
        ensures
            limits == (CatalogLimits { profiles, ..self }),
    {
        CatalogLimits { profiles, ..self }
    }

    /// Sets the direct JSON input byte limit.
    pub fn with_json_bytes(self, json_bytes: usize) -> (limits: Self)
        ensures
            limits == (CatalogLimits { json_bytes, ..self }),
    {
        CatalogLimits { json_bytes, ..self }
    }

    /// Validates strict catalog resource limits.
    pub fn validate(self) -> (result: Result<(), CatalogLoadError>)
        ensures
            result == match self.violation() {
                Some(error) => Err(error),
                None => Ok(()),
            },
    {
        if self.profiles == 0 || self.json_bytes == 0 {
            return Err(CatalogLoadError::ZeroLimit);
        }
        if self.profiles > MAXIMUM_CATALOG_PROFILES {
            return Err(CatalogLoadError::ProfileConfigurationLimit(self.profiles));
        }
        if self.json_bytes > MAXIMUM_CATALOG_JSON_BYTES {
            return Err(CatalogLoadError::JsonConfigurationLimit(self.json_bytes));
        }
        Ok(())
    }
}

/// Exact device-revision key.
#[derive(Debug, Clone, Copy, PartialEq, Eq, PartialOrd, Ord, Hash, Structural)]
pub struct DeviceKey {
    /// Expanded device type.
    pub expanded_type: u16,
    /// Device revision.
    pub device_revision: u8,
}

impl DeviceKey {
    /// The key as one number, ordered by type and then by revision.
    pub open spec fn index(self) -> u32 {
        (self.expanded_type * 256 + self.device_revision) as u32
    }

    /// Creates an exact device key after checking the 14-bit expanded type.
    pub fn new(expanded_type: u16, device_revision: u8) -> (result: Result<Self, SchemaError>)
        ensures
            result == if expanded_type > 0x3fff {
                Err(SchemaError::ExpandedDeviceType(expanded_type))
            } else {
                Ok(DeviceKey { expanded_type, device_revision })
            },
    {
        if expanded_type > 0x3fff {
            return Err(SchemaError::ExpandedDeviceType(expanded_type));
        }
        Ok(DeviceKey { expanded_type, device_revision })
    }

    pub(crate) fn number(self) -> (number: u32)
        ensures
            number == self.index(),
    {
        self.expanded_type as u32 * 256 + self.device_revision as u32
    }
}

/// Two keys with one number are the same key.
pub proof fn lemma_key_index_is_injective(left: DeviceKey, right: DeviceKey)
    requires
        left.index() == right.index(),
    ensures
        left == right,
{
}

/// Command-specific status assigned by the exact DeviceInfo revision.
#[derive(Debug, Clone, Copy, PartialEq, Eq, Structural)]
pub enum ResponseCodeStatus {
    /// The command completed exactly as requested.
    Success,
    /// The command completed with an adjustment and response data remains meaningful.
    Warning,
    /// The command did not complete and response data must not be decoded as success data.
    Error,
}

/// Meaning of one response code for one command and device revision.
#[derive(Debug, Clone, PartialEq, Eq)]
pub struct ResponseCodeDefinition {
    /// Execution outcome described by DeviceInfo.
    pub status: ResponseCodeStatus,
    /// Human-readable meaning supplied by the source profile.
    pub description: String,
}

impl ResponseCodeDefinition {
    /// What is wrong with the meaning of a code, if anything.
    pub open spec fn violation(self, code: u8) -> Option<SchemaErrorView> {
        if code >= 128 {
            Some(SchemaErrorView::Plain(SchemaError::ResponseCode(code)))
        } else if blank(self.description@) {
            Some(SchemaErrorView::Plain(SchemaError::EmptyResponseCodeDescription(code)))
        } else if text_bytes(self.description@).len() > MAXIMUM_PROFILE_TEXT_BYTES {
            Some(
                SchemaErrorView::Plain(
                    SchemaError::ProfileTextTooLong(
                        "response code description",
                        text_bytes(self.description@).len() as usize,
                    ),
                ),
            )
        } else {
            None
        }
    }

    /// Creates one command-specific response-code meaning.
    pub fn new(status: ResponseCodeStatus, description: String) -> (definition: Self)
        ensures
            definition == (ResponseCodeDefinition { status, description }),
    {
        ResponseCodeDefinition { status, description }
    }

    fn check(&self, code: u8) -> (result: Result<(), SchemaError>)
        ensures
            crate::device::schema::checked(result, self.violation(code)),
    {
        if code >= 128 {
            return Err(SchemaError::ResponseCode(code));
        }
        if is_blank(&self.description) {
            return Err(SchemaError::EmptyResponseCodeDescription(code));
        }
        let length: usize = byte_length(&self.description);
        if length > MAXIMUM_PROFILE_TEXT_BYTES {
            return Err(SchemaError::ProfileTextTooLong("response code description", length));
        }
        Ok(())
    }
}

/// Schema set for one device type and revision.
#[derive(Debug, Clone, PartialEq, Eq)]
pub struct DeviceProfile {
    /// Profile-selection key.
    pub key: DeviceKey,
    /// Human-readable manufacturer and model name.
    pub display_name: String,
    /// Revision of the source description.
    pub source_revision: String,
    /// Response schemas indexed by logical command number.
    pub responses: BTreeMap<u16, DataSchema>,
    /// Command-specific response-code meanings indexed by command and code.
    pub response_codes: BTreeMap<u16, BTreeMap<u8, ResponseCodeDefinition>>,
}

/// The larger of two counts.
pub open spec fn larger(left: nat, right: nat) -> nat {
    if left >= right {
        left
    } else {
        right
    }
}

/// Every meaning of the codes of one command can be used.
pub open spec fn codes_usable(codes: Map<u8, ResponseCodeDefinition>) -> bool {
    forall|code: u8| #[trigger] codes.contains_key(code) ==> codes[code].violation(code) is None
}

/// Whether a problem is that of the smallest code with an unusable meaning.
pub open spec fn first_code_violation(
    codes: Map<u8, ResponseCodeDefinition>,
    code: u8,
    problem: SchemaErrorView,
) -> bool {
    &&& codes.contains_key(code)
    &&& codes[code].violation(code) == Some(problem)
    &&& forall|earlier: u8|
        earlier < code && #[trigger] codes.contains_key(earlier) ==> codes[earlier].violation(
            earlier,
        ) is None
}

impl DeviceProfile {
    /// What is wrong with the profile as a whole, if anything.
    pub open spec fn header_violation(self) -> Option<SchemaErrorView> {
        if self.key.expanded_type > 0x3fff {
            Some(SchemaErrorView::Plain(SchemaError::ExpandedDeviceType(self.key.expanded_type)))
        } else if blank(self.display_name@) {
            Some(SchemaErrorView::Plain(SchemaError::EmptyProfileName))
        } else if blank(self.source_revision@) {
            Some(SchemaErrorView::Plain(SchemaError::MissingSourceRevision))
        } else if text_bytes(self.display_name@).len() > MAXIMUM_PROFILE_TEXT_BYTES {
            Some(
                SchemaErrorView::Plain(
                    SchemaError::ProfileTextTooLong(
                        "display_name",
                        text_bytes(self.display_name@).len() as usize,
                    ),
                ),
            )
        } else if text_bytes(self.source_revision@).len() > MAXIMUM_PROFILE_TEXT_BYTES {
            Some(
                SchemaErrorView::Plain(
                    SchemaError::ProfileTextTooLong(
                        "source_revision",
                        text_bytes(self.source_revision@).len() as usize,
                    ),
                ),
            )
        } else if self.responses@.len() > MAXIMUM_PROFILE_COMMANDS || self.response_codes@.len()
            > MAXIMUM_PROFILE_COMMANDS {
            Some(
                SchemaErrorView::Plain(
                    SchemaError::TooManyProfileCommands(
                        larger(self.responses@.len(), self.response_codes@.len()) as usize,
                    ),
                ),
            )
        } else {
            None
        }
    }

    /// Every response schema can be used.
    pub open spec fn schemas_usable(self) -> bool {
        forall|command: u16| #[trigger]
            self.responses@.contains_key(command) ==> self.responses@[command].violation() is None
    }

    /// Every meaning of a response code can be used.
    pub open spec fn meanings_usable(self) -> bool {
        forall|command: u16| #[trigger]
            self.response_codes@.contains_key(command) ==> codes_usable(
                self.response_codes@[command]@,
            )
    }

    /// The profile and everything in it can be used.
    pub open spec fn usable(self) -> bool {
        self.header_violation() is None && self.schemas_usable() && self.meanings_usable()
    }

    /// Whether a problem is that of the smallest command with an unusable schema.
    pub open spec fn first_schema_violation(self, command: u16, problem: SchemaErrorView) -> bool {
        &&& self.responses@.contains_key(command)
        &&& self.responses@[command].violation() == Some(problem)
        &&& forall|earlier: u16|
            earlier < command && #[trigger] self.responses@.contains_key(earlier)
                ==> self.responses@[earlier].violation() is None
    }

    /// Whether a problem is that of the smallest command, and there the
    /// smallest code, with an unusable meaning.
    pub open spec fn first_meaning_violation(
        self,
        command: u16,
        code: u8,
        problem: SchemaErrorView,
    ) -> bool {
        &&& self.response_codes@.contains_key(command)
        &&& first_code_violation(self.response_codes@[command]@, code, problem)
        &&& forall|earlier: u16|
            earlier < command && #[trigger] self.response_codes@.contains_key(earlier)
                ==> codes_usable(self.response_codes@[earlier]@)
    }

    /// Whether a problem is the first that the profile deserves.
    pub open spec fn refused_with(self, problem: SchemaErrorView) -> bool {
        match self.header_violation() {
            Some(found) => problem == found,
            None => if !self.schemas_usable() {
                exists|command: u16| self.first_schema_violation(command, problem)
            } else {
                exists|command: u16, code: u8|
                    self.first_meaning_violation(command, code, problem)
            },
        }
    }

    /// Creates an empty exact-revision profile.
    pub fn new(key: DeviceKey, display_name: String, source_revision: String) -> (profile: Self)
        ensures
            profile.key == key,
            profile.display_name == display_name,
            profile.source_revision == source_revision,
            profile.responses@ == Map::<u16, DataSchema>::empty(),
            profile.response_codes@ == Map::<u16, BTreeMap<u8, ResponseCodeDefinition>>::empty(),
    {
        DeviceProfile {
            key,
            display_name,
            source_revision,
            responses: BTreeMap::new(),
            response_codes: BTreeMap::new(),
        }
    }

    /// Adds or replaces one response schema.
    pub fn with_response<C: CommandNumber>(self, command: C, schema: DataSchema) -> (profile: Self)
        ensures
            profile.responses@ == self.responses@.insert(command.number().0, schema),
            profile == (DeviceProfile { responses: profile.responses, ..self }),
    {
        let mut responses = self.responses;
        put(&mut responses, command.command_code().0, schema);
        DeviceProfile { responses, ..self }
    }

    /// Adds or replaces one command-specific response-code meaning.
    pub fn with_response_code<C: CommandNumber>(
        self,
        command: C,
        code: u8,
        definition: ResponseCodeDefinition,
    ) -> (profile: Self)
        ensures
            ({
                let number = command.number().0;
                let before = match lookup(self.response_codes@, number) {
                    Some(codes) => codes@,
                    None => Map::<u8, ResponseCodeDefinition>::empty(),
                };
                &&& profile.response_codes@.contains_key(number)
                &&& profile.response_codes@[number]@ == before.insert(code, definition)
                &&& profile.response_codes@.remove(number) == self.response_codes@.remove(number)
            }),
            profile == (DeviceProfile { response_codes: profile.response_codes, ..self }),
    {
        let mut response_codes = self.response_codes;
        let number: u16 = command.command_code().0;
        let mut codes = match crate::ordered::take(&mut response_codes, number) {
            Some(codes) => codes,
            None => BTreeMap::new(),
        };
        put(&mut codes, code, definition);
        put(&mut response_codes, number, codes);
        let profile = DeviceProfile { response_codes, ..self };
        assert(profile.response_codes@.remove(number) =~= self.response_codes@.remove(number));
        profile
    }

    /// Returns the schema for a specific response.
    pub fn response(&self, command: CommandCode) -> (schema: Option<&DataSchema>)
        ensures
            schema == match lookup(self.responses@, command.0) {
                Some(found) => Some(&found),
                None => None,
            },
    {
        find(&self.responses, command.0)
    }

    /// Returns the exact DeviceInfo meaning of one command response code.
    pub fn response_code(&self, command: CommandCode, code: u8) -> (definition: Option<
        &ResponseCodeDefinition,
    >)
        ensures
            definition == match lookup(self.response_codes@, command.0) {
                Some(codes) => match lookup(codes@, code) {
                    Some(found) => Some(&found),
                    None => None,
                },
                None => None,
            },
    {
        match find(&self.response_codes, command.0) {
            Some(codes) => find(codes, code),
            None => None,
        }
    }

    /// Whether a code is a warning of a command.
    pub open spec fn warns(self, command: CommandCode, code: u8) -> bool {
        &&& self.response_codes@.contains_key(command.0)
        &&& self.response_codes@[command.0]@.contains_key(code)
        &&& self.response_codes@[command.0]@[code].status is Warning
    }

    /// Returns warning codes that may be passed to
    /// [`crate::Operation::decode_reply_accepting`], in ascending order.
    pub fn warning_codes(&self, command: CommandCode) -> (codes: Vec<u8>)
        ensures
            forall|i: int, j: int| 0 <= i < j < codes@.len() ==> codes@[i] < codes@[j],
            forall|code: u8| #[trigger] codes@.contains(code) <==> self.warns(command, code),
    {
        let mut warnings: Vec<u8> = Vec::new();
        if let Some(codes) = find(&self.response_codes, command.0) {
            let keys = keys_of(codes);
            let mut index: usize = 0;
            while index < keys.len()
                invariant
                    index <= keys@.len(),
                    self.response_codes@.contains_key(command.0),
                    codes@ == self.response_codes@[command.0]@,
                    ascending_keys(keys@, codes@),
                    forall|i: int, j: int|
                        0 <= i < j < warnings@.len() ==> warnings@[i] < warnings@[j],
                    forall|i: int|
                        0 <= i < warnings@.len() ==> exists|k: int|
                            0 <= k < index && (#[trigger] warnings@[i]) == #[trigger] keys@[k],
                    forall|k: int|
                        0 <= k < index ==> (warnings@.contains(#[trigger] keys@[k])
                            <==> codes@[keys@[k]].status is Warning),
                decreases keys@.len() - index,
            {
                let key: u8 = keys[index];
                let ghost before = warnings@;
                assert(codes@.contains_key(keys@[index as int]));
                if let Some(definition) = find(codes, key) {
                    if definition.status == ResponseCodeStatus::Warning {
                        warnings.push(key);
                        assert(warnings@[before.len() as int] == key);
                        assert forall|k: int| 0 <= k < index + 1 implies (warnings@.contains(
                            #[trigger] keys@[k],
                        ) <==> codes@[keys@[k]].status is Warning) by {
                            if k < index {
                                assert(before.contains(keys@[k]) ==> warnings@.contains(keys@[k])) by {
                                    if before.contains(keys@[k]) {
                                        let i = choose|i: int|
                                            0 <= i < before.len() && before[i] == keys@[k];
                                        assert(warnings@[i] == keys@[k]);
                                    }
                                }
                                assert(warnings@.contains(keys@[k]) ==> before.contains(keys@[k])) by {
                                    if warnings@.contains(keys@[k]) {
                                        let i = choose|i: int|
                                            0 <= i < warnings@.len() && warnings@[i] == keys@[k];
                                        assert(keys@[k] < keys@[index as int]);
                                        assert(before[i] == keys@[k]);
                                    }
                                }
                            }
                        }
                        assert forall|i: int| 0 <= i < warnings@.len() implies exists|k: int|
                            0 <= k < index + 1 && (#[trigger] warnings@[i])
                                == #[trigger] keys@[k] by {
                            if i < before.len() {
                                assert(before[i] == warnings@[i]);
                            } else {
                                assert(warnings@[i] == keys@[index as int]);
                            }
                        }
                    } else {
                        assert(!warnings@.contains(key)) by {
                            if warnings@.contains(key) {
                                let i = choose|i: int|
                                    0 <= i < warnings@.len() && warnings@[i] == key;
                                let k = choose|k: int|
                                    0 <= k < index && warnings@[i] == #[trigger] keys@[k];
                                assert(keys@[k] < keys@[index as int]);
                            }
                        }
                    }
                }
                index += 1;
            }
            assert forall|code: u8| #[trigger] warnings@.contains(code) <==> self.warns(
                command,
                code,
            ) by {
                if warnings@.contains(code) {
                    let i = choose|i: int| 0 <= i < warnings@.len() && warnings@[i] == code;
                    let k = choose|k: int|
                        0 <= k < index && warnings@[i] == #[trigger] keys@[k];
                    assert(warnings@.contains(keys@[k]));
                }
                if self.warns(command, code) {
                    let k = choose|k: int| 0 <= k < keys@.len() && keys@[k] == code;
                    assert(warnings@.contains(keys@[k]));
                }
            }
        }
        warnings
    }

    /// Validates every schema in the profile.
    pub fn validate(&self) -> (result: Result<(), SchemaError>)
        ensures
            match result {
                Ok(()) => self.usable(),
                Err(error) => !self.usable() && self.refused_with(error@),
            },
    {
        if self.key.expanded_type > 0x3fff {
            return Err(SchemaError::ExpandedDeviceType(self.key.expanded_type));
        }
        if is_blank(&self.display_name) {
            return Err(SchemaError::EmptyProfileName);
        }
        if is_blank(&self.source_revision) {
            return Err(SchemaError::MissingSourceRevision);
        }
        let name_length: usize = byte_length(&self.display_name);
        if name_length > MAXIMUM_PROFILE_TEXT_BYTES {
            return Err(SchemaError::ProfileTextTooLong("display_name", name_length));
        }
        let revision_length: usize = byte_length(&self.source_revision);
        if revision_length > MAXIMUM_PROFILE_TEXT_BYTES {
            return Err(SchemaError::ProfileTextTooLong("source_revision", revision_length));
        }
        let responses: usize = size(&self.responses);
        let meanings: usize = size(&self.response_codes);
        if responses > MAXIMUM_PROFILE_COMMANDS || meanings > MAXIMUM_PROFILE_COMMANDS {
            return Err(
                SchemaError::TooManyProfileCommands(
                    if responses >= meanings {
                        responses
                    } else {
                        meanings
                    },
                ),
            );
        }
        self.check_schemas()?;
        self.check_meanings()
    }

    fn check_schemas(&self) -> (result: Result<(), SchemaError>)
        ensures
            match result {
                Ok(()) => self.schemas_usable(),
                Err(error) => !self.schemas_usable() && exists|command: u16|
                    self.first_schema_violation(command, error@),
            },
    {
        let keys = keys_of(&self.responses);
        let mut index: usize = 0;
        while index < keys.len()
            invariant
                index <= keys@.len(),
                ascending_keys(keys@, self.responses@),
                forall|i: int|
                    0 <= i < index ==> self.responses@[#[trigger] keys@[i]].violation() is None,
            decreases keys@.len() - index,
        {
            let key: u16 = keys[index];
            assert(self.responses@.contains_key(keys@[index as int]));
            if let Some(schema) = find(&self.responses, key) {
                if let Err(error) = schema.validate() {
                    assert(self.first_schema_violation(key, error@)) by {
                        assert forall|earlier: u16|
                            earlier < key && #[trigger] self.responses@.contains_key(
                                earlier,
                            ) implies self.responses@[earlier].violation() is None by {
                            let i = choose|i: int| 0 <= i < keys@.len() && keys@[i] == earlier;
                            assert(keys@[i] == earlier);
                        }
                    }
                    return Err(error);
                }
            }
            index += 1;
        }
        assert forall|command: u16| #[trigger] self.responses@.contains_key(
            command,
        ) implies self.responses@[command].violation() is None by {
            let i = choose|i: int| 0 <= i < keys@.len() && keys@[i] == command;
            assert(keys@[i] == command);
        }
        Ok(())
    }

    fn check_meanings(&self) -> (result: Result<(), SchemaError>)
        ensures
            match result {
                Ok(()) => self.meanings_usable(),
                Err(error) => !self.meanings_usable() && exists|command: u16, code: u8|
                    self.first_meaning_violation(command, code, error@),
            },
    {
        let keys = keys_of(&self.response_codes);
        let mut index: usize = 0;
        while index < keys.len()
            invariant
                index <= keys@.len(),
                ascending_keys(keys@, self.response_codes@),
                forall|i: int|
                    0 <= i < index ==> codes_usable(
                        self.response_codes@[#[trigger] keys@[i]]@,
                    ),
            decreases keys@.len() - index,
        {
            let key: u16 = keys[index];
            assert(self.response_codes@.contains_key(keys@[index as int]));
            if let Some(codes) = find(&self.response_codes, key) {
                if let Err(error) = check_codes(codes) {
                    let ghost code = choose|code: u8|
                        first_code_violation(codes@, code, error@);
                    assert(self.first_meaning_violation(key, code, error@)) by {
                        assert forall|earlier: u16|
                            earlier < key && #[trigger] self.response_codes@.contains_key(
                                earlier,
                            ) implies codes_usable(self.response_codes@[earlier]@) by {
                            let i = choose|i: int| 0 <= i < keys@.len() && keys@[i] == earlier;
                            assert(keys@[i] == earlier);
                        }
                    }
                    return Err(error);
                }
            }
            index += 1;
        }
        assert forall|command: u16| #[trigger] self.response_codes@.contains_key(
            command,
        ) implies codes_usable(self.response_codes@[command]@) by {
            let i = choose|i: int| 0 <= i < keys@.len() && keys@[i] == command;
            assert(keys@[i] == command);
        }
        Ok(())
    }
}

/// A profile is never refused because a catalog is full.
pub proof fn lemma_profile_is_not_a_full_catalog(profile: DeviceProfile, problem: SchemaErrorView)
    requires
        profile.refused_with(problem),
    ensures
        !crate::device::schema::about_a_full_catalog(problem),
{
    if profile.header_violation() is None && !profile.schemas_usable() {
        let command = choose|command: u16| profile.first_schema_violation(command, problem);
        crate::device::schema::lemma_schema_is_not_a_full_catalog(profile.responses@[command]);
    }
}

fn check_codes(codes: &BTreeMap<u8, ResponseCodeDefinition>) -> (result: Result<(), SchemaError>)
    ensures
        match result {
            Ok(()) => codes_usable(codes@),
            Err(error) => !codes_usable(codes@) && exists|code: u8|
                first_code_violation(codes@, code, error@),
        },
{
    let keys = keys_of(codes);
    let mut index: usize = 0;
    while index < keys.len()
        invariant
            index <= keys@.len(),
            ascending_keys(keys@, codes@),
            forall|i: int|
                0 <= i < index ==> codes@[#[trigger] keys@[i]].violation(keys@[i]) is None,
        decreases keys@.len() - index,
    {
        let key: u8 = keys[index];
        assert(codes@.contains_key(keys@[index as int]));
        if let Some(definition) = find(codes, key) {
            if let Err(error) = definition.check(key) {
                assert(first_code_violation(codes@, key, error@)) by {
                    assert forall|earlier: u8|
                        earlier < key && #[trigger] codes@.contains_key(
                            earlier,
                        ) implies codes@[earlier].violation(earlier) is None by {
                        let i = choose|i: int| 0 <= i < keys@.len() && keys@[i] == earlier;
                        assert(keys@[i] == earlier);
                    }
                }
                return Err(error);
            }
        }
        index += 1;
    }
    assert forall|code: u8| #[trigger] codes@.contains_key(code) implies codes@[code].violation(
        code,
    ) is None by {
        let i = choose|i: int| 0 <= i < keys@.len() && keys@[i] == code;
        assert(keys@[i] == code);
    }
    Ok(())
}

/// Profile catalog with exact revision selection.
#[derive(Debug)]
pub struct DeviceCatalog {
    profiles: BTreeMap<u32, DeviceProfile>,
    limits: CatalogLimits,
}

impl View for DeviceCatalog {
    type V = Map<u32, DeviceProfile>;

    closed spec fn view(&self) -> Map<u32, DeviceProfile> {
        self.profiles@
    }
}

impl Default for DeviceCatalog {
    fn default() -> (catalog: Self)
        ensures
            catalog.well_formed(),
            catalog@ == Map::<u32, DeviceProfile>::empty(),
            catalog.bounds() == (CatalogLimits {
                profiles: DEFAULT_MAXIMUM_CATALOG_PROFILES,
                json_bytes: DEFAULT_MAXIMUM_CATALOG_JSON_BYTES,
            }),
    {
        DeviceCatalog::new()
    }
}

impl Clone for DeviceCatalog {
    fn clone(&self) -> (copy: Self)
        ensures
            copy@ == self@,
            copy.bounds() == self.bounds(),
    {
        DeviceCatalog { profiles: self.profiles.clone(), limits: self.limits }
    }
}

impl DeviceCatalog {
    /// The effective limits.
    pub closed spec fn bounds(&self) -> CatalogLimits {
        self.limits
    }

    /// The limits are usable and kept, and every profile can be used and
    /// stands under its own key.
    pub open spec fn well_formed(&self) -> bool {
        &&& self.bounds().violation() is None
        &&& self@.len() <= self.bounds().profiles
        &&& self@.dom().finite()
        &&& forall|index: u32| #[trigger]
            self@.contains_key(index) ==> self@[index].usable() && self@[index].key.index()
                == index
    }

    /// Creates an empty catalog.
    pub fn new() -> (catalog: Self)
        ensures
            catalog.well_formed(),
            catalog@ == Map::<u32, DeviceProfile>::empty(),
            catalog.bounds() == (CatalogLimits {
                profiles: DEFAULT_MAXIMUM_CATALOG_PROFILES,
                json_bytes: DEFAULT_MAXIMUM_CATALOG_JSON_BYTES,
            }),
    {
        DeviceCatalog { profiles: BTreeMap::new(), limits: CatalogLimits::default() }
    }

    /// Creates an empty catalog after validating explicit memory limits.
    pub fn with_limits(limits: CatalogLimits) -> (result: Result<Self, CatalogLoadError>)
        ensures
            match limits.violation() {
                Some(error) => result == Err::<Self, CatalogLoadError>(error),
                None => result matches Ok(catalog) && catalog.well_formed() && catalog@ == Map::<
                    u32,
                    DeviceProfile,
                >::empty() && catalog.bounds() == limits,
            },
    {
        limits.validate()?;
        Ok(DeviceCatalog { profiles: BTreeMap::new(), limits })
    }

    /// The result of inserting a profile.
    pub open spec fn inserted(
        before: Self,
        profile: DeviceProfile,
        after: Self,
        result: Result<Option<DeviceProfile>, SchemaError>,
    ) -> bool {
        let index = profile.key.index();
        if !profile.usable() {
            &&& result matches Err(error)
            &&& profile.refused_with(error@)
            &&& after@ == before@
        } else if !before@.contains_key(index) && before@.len() >= before.bounds().profiles {
            &&& result == Err::<Option<DeviceProfile>, SchemaError>(
                SchemaError::CatalogProfileLimit(before.bounds().profiles),
            )
            &&& after@ == before@
        } else {
            &&& result == Ok::<Option<DeviceProfile>, SchemaError>(lookup(before@, index))
            &&& after@ == before@.insert(index, profile)
        }
    }

    /// Validates and inserts a profile, returning the replaced value.
    pub fn insert(&mut self, profile: DeviceProfile) -> (result: Result<
        Option<DeviceProfile>,
        SchemaError,
    >)
        requires
            old(self).well_formed(),
        ensures
            final(self).well_formed(),
            final(self).bounds() == old(self).bounds(),
            DeviceCatalog::inserted(*old(self), profile, *final(self), result),
    {
        profile.validate()?;
        let index: u32 = profile.key.number();
        if !holds(&self.profiles, index) && size(&self.profiles) >= self.limits.profiles {
            return Err(SchemaError::CatalogProfileLimit(self.limits.profiles));
        }
        Ok(put(&mut self.profiles, index, profile))
    }

    /// Finds only the exact device type and revision.
    ///
    /// A lower device revision is not selected implicitly because device-specific
    /// command layouts may change between revisions.
    pub fn resolve(&self, key: DeviceKey) -> (profile: Option<&DeviceProfile>)
        ensures
            profile == match lookup(self@, key.index()) {
                Some(found) => Some(&found),
                None => None,
            },
    {
        find(&self.profiles, key.number())
    }

    /// Tells whether a JSON input is short enough to be parsed.
    pub fn admit_json(&self, length: usize) -> (result: Result<(), CatalogLoadError>)
        ensures
            result == if length > self.bounds().json_bytes {
                Err(
                    CatalogLoadError::JsonLimit {
                        actual: length,
                        maximum: self.bounds().json_bytes,
                    },
                )
            } else {
                Ok(())
            },
    {
        if length > self.limits.json_bytes {
            return Err(
                CatalogLoadError::JsonLimit { actual: length, maximum: self.limits.json_bytes },
            );
        }
        Ok(())
    }

    /// Loads one profile that was parsed from JSON, after structural validation.
    ///
    /// `parsed` is the profile that the bytes stand for, or what the JSON
    /// parser said of them.
    pub fn load_json(&mut self, bytes: &[u8], parsed: Result<DeviceProfile, String>) -> (result:
        Result<DeviceKey, CatalogLoadError>)
        requires
            old(self).well_formed(),
        ensures
            final(self).well_formed(),
            final(self).bounds() == old(self).bounds(),
            if bytes@.len() > old(self).bounds().json_bytes {
                result == Err::<DeviceKey, CatalogLoadError>(
                    CatalogLoadError::JsonLimit {
                        actual: bytes@.len() as usize,
                        maximum: old(self).bounds().json_bytes,
                    },
                ) && final(self)@ == old(self)@
            } else {
                match parsed {
                    Err(message) => result == Err::<DeviceKey, CatalogLoadError>(
                        CatalogLoadError::Json(message),
                    ) && final(self)@ == old(self)@,
                    Ok(profile) => exists|inner: Result<Option<DeviceProfile>, SchemaError>|
                        #[trigger] DeviceCatalog::inserted(
                            *old(self),
                            profile,
                            *final(self),
                            inner,
                        ) && result == match inner {
                            Ok(_) => Ok(profile.key),
                            Err(error) => Err(CatalogLoadError::Schema(error)),
                        },
                }
            },
    {
        self.admit_json(bytes.len())?;
        match parsed {
            Err(message) => Err(CatalogLoadError::Json(message)),
            Ok(profile) => {
                let key = profile.key;
                let ghost given = profile;
                let inner = self.insert(profile);
                assert(DeviceCatalog::inserted(*old(self), given, *self, inner));
                match inner {
                    Ok(_) => Ok(key),
                    Err(error) => Err(CatalogLoadError::Schema(error)),
                }
            },
        }
    }

    /// Returns the number of profiles.
    pub fn len(&self) -> (count: usize)
        ensures
            count == self@.len(),
    {
        size(&self.profiles)
    }

    /// Reports whether the catalog is empty.
    pub fn is_empty(&self) -> (empty: bool)
        ensures
            empty == (self@.len() == 0),
    {
        self.len() == 0
    }

    /// Returns the effective catalog resource limits.
    pub fn limits(&self) -> (limits: CatalogLimits)
        ensures
            limits == self.bounds(),
    {
        self.limits
    }
}

/// Catalog-loading error.
#[derive(Debug, Clone, PartialEq, Eq)]
pub enum CatalogLoadError {
    /// JSON does not match the model.
    Json(String),
    /// An embedded schema is invalid.
    Schema(SchemaError),
    /// One or more catalog limits are zero.
    ZeroLimit,
    /// The configured profile count exceeds the hard safety bound.
    ProfileConfigurationLimit(usize),
    /// The configured direct JSON size exceeds the hard safety bound.
    JsonConfigurationLimit(usize),
    /// A direct JSON input exceeds its configured bound.
    JsonLimit {
        /// Input length.
        actual: usize,
        /// Configured maximum.
        maximum: usize,
    },
}

/// A profile that was put into a catalog is found under its type and revision
/// and under no other; the other profiles stay as they were.
pub proof fn lemma_inserted_profile_is_found(
    before: DeviceCatalog,
    profile: DeviceProfile,
    after: DeviceCatalog,
    result: Result<Option<DeviceProfile>, SchemaError>,
    other: DeviceKey,
)
    requires
        DeviceCatalog::inserted(before, profile, after, result),
        other.expanded_type != profile.key.expanded_type || other.device_revision
            != profile.key.device_revision,
    ensures
        result is Ok ==> lookup(after@, profile.key.index()) == Some(profile),
        lookup(after@, other.index()) == lookup(before@, other.index()),
        result is Err ==> after@ == before@,
        result matches Ok(previous) ==> previous == lookup(before@, profile.key.index()),
        profile.usable() && (before@.contains_key(profile.key.index()) || before@.len()
            < before.bounds().profiles) ==> result is Ok,
        !profile.usable() ==> result is Err,
{
    if other.index() == profile.key.index() {
        lemma_key_index_is_injective(other, profile.key);
    }
}

/// A profile is accepted exactly when its type has 14 bits, its name and its
/// source say something within the length limit, it describes no more commands
/// than allowed, all its layouts are valid, and all its response codes are
/// below 128 and described within the limit.
pub proof fn lemma_usable_profile(profile: DeviceProfile)
    ensures
        profile.usable() <==> profile.key.expanded_type < 0x4000 && !blank(profile.display_name@)
            && !blank(profile.source_revision@) && text_bytes(profile.display_name@).len()
            <= MAXIMUM_PROFILE_TEXT_BYTES && text_bytes(profile.source_revision@).len()
            <= MAXIMUM_PROFILE_TEXT_BYTES && profile.responses@.len() <= MAXIMUM_PROFILE_COMMANDS
            && profile.response_codes@.len() <= MAXIMUM_PROFILE_COMMANDS && (forall|command: u16|
         #[trigger]
            profile.responses@.contains_key(command) ==> profile.responses@[command].violation()
                is None) && forall|command: u16, code: u8|
            #![trigger profile.response_codes@.contains_key(command), profile.response_codes@[command]@.contains_key(code)]
            profile.response_codes@.contains_key(command)
                && profile.response_codes@[command]@.contains_key(code) ==> code < 128 && !blank(
                profile.response_codes@[command]@[code].description@,
            ) && text_bytes(profile.response_codes@[command]@[code].description@).len()
                <= MAXIMUM_PROFILE_TEXT_BYTES,
{
    if profile.usable() {
        assert forall|command: u16, code: u8|
            #![trigger profile.response_codes@.contains_key(command), profile.response_codes@[command]@.contains_key(code)]
            profile.response_codes@.contains_key(command)
                && profile.response_codes@[command]@.contains_key(code) implies code < 128 && !blank(
            profile.response_codes@[command]@[code].description@,
        ) && text_bytes(profile.response_codes@[command]@[code].description@).len()
            <= MAXIMUM_PROFILE_TEXT_BYTES by {
            assert(codes_usable(profile.response_codes@[command]@));
            assert(profile.response_codes@[command]@[code].violation(code) is None);
        }
    }
    if profile.header_violation() is None && forall|command: u16, code: u8|
        #![trigger profile.response_codes@.contains_key(command), profile.response_codes@[command]@.contains_key(code)]
        profile.response_codes@.contains_key(command)
            && profile.response_codes@[command]@.contains_key(code) ==> code < 128 && !blank(
            profile.response_codes@[command]@[code].description@,
        ) && text_bytes(profile.response_codes@[command]@[code].description@).len()
            <= MAXIMUM_PROFILE_TEXT_BYTES {
        assert forall|command: u16| #[trigger]
            profile.response_codes@.contains_key(command) implies codes_usable(
            profile.response_codes@[command]@,
        ) by {
            let codes = profile.response_codes@[command]@;
            assert forall|code: u8| #[trigger]
                codes.contains_key(code) implies codes[code].violation(code) is None by {}
        }
    }
}

/// The number of a profile carries its type above its revision.
pub proof fn lemma_key_number(key: DeviceKey)
    ensures
        key.index() / 256 == key.expanded_type,
        key.index() % 256 == key.device_revision,
{
}

/// A description that is loaded is found under its key; one that is too long,
/// cannot be read or is refused leaves the catalog as it was.
pub proof fn lemma_description_is_found(
    catalog: &mut DeviceCatalog,
    bytes: &[u8],
    parsed: Result<DeviceProfile, String>,
    result: Result<DeviceKey, CatalogLoadError>,
)
    requires
        call_ensures(DeviceCatalog::load_json, (catalog, bytes, parsed), result),
    ensures
        result matches Ok(key) ==> parsed is Ok && key == parsed->Ok_0.key && bytes@.len()
            <= old(catalog).bounds().json_bytes && final(catalog)@.contains_key(key.index())
            && final(catalog)@[key.index()] == parsed->Ok_0,
        result is Err ==> final(catalog)@ == old(catalog)@,
        parsed is Err ==> result is Err,
        bytes@.len() > old(catalog).bounds().json_bytes ==> result is Err,
        final(catalog).bounds() == old(catalog).bounds(),
{
}

} // verus!
