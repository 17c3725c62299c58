//! Versioned resolution of codes from HART common tables.

use std::collections::BTreeMap;

use vstd::prelude::*;

use crate::ordered::{find, keys_of, put, size};
use crate::strings::{blank, byte_length, is_blank, text_bytes};

verus! {

/// Largest number of values accepted in one versioned common table.
pub const MAXIMUM_COMMON_TABLE_ENTRIES: usize = 65_536;

/// Largest UTF-8 byte length accepted for table revision and labels.
pub const MAXIMUM_COMMON_TABLE_TEXT_BYTES: usize = 1024;

/// Default upper bound for tables retained by one repository.
pub const DEFAULT_MAXIMUM_TABLES: usize = 1024;

/// Default upper bound for entries retained across one repository.
pub const DEFAULT_MAXIMUM_TABLE_ENTRIES: usize = 1_048_576;

/// Hard upper bound for configured table count.
pub const MAXIMUM_TABLES: usize = 4096;

/// Hard upper bound for configured aggregate entry count.
pub const MAXIMUM_TABLE_ENTRIES: usize = 4_194_304;

/// Aggregate repository resource limits.
#[derive(Debug, Clone, Copy, PartialEq, Eq, Structural)]
pub struct TableRepositoryLimits {
    /// Maximum number of versioned common tables.
    pub tables: usize,
    /// Maximum number of values across every retained table.
    pub entries: usize,
}

impl Default for TableRepositoryLimits {
    fn default() -> (limits: Self)
        ensures
            limits.tables == DEFAULT_MAXIMUM_TABLES,
            limits.entries == DEFAULT_MAXIMUM_TABLE_ENTRIES,
    {
        TableRepositoryLimits {
            tables: DEFAULT_MAXIMUM_TABLES,
            entries: DEFAULT_MAXIMUM_TABLE_ENTRIES,
        }
    }
}

impl TableRepositoryLimits {
    /// What is wrong with the limits, if anything.
    pub open spec fn violation(self) -> Option<TableError> {
        if self.tables == 0 || self.entries == 0 {
            Some(TableError::ZeroRepositoryLimit)
        } else if self.tables > MAXIMUM_TABLES {
            Some(TableError::RepositoryTableLimit(self.tables))
        } else if self.entries > MAXIMUM_TABLE_ENTRIES {
            Some(TableError::RepositoryEntryLimit(self.entries))
        } else {
            None
        }
    }

    /// Sets the retained table-count limit.
    pub fn with_tables(self, tables: usize) -> (limits: Self)
        ensures
            limits == (TableRepositoryLimits { tables, ..self }),
    {
        TableRepositoryLimits { tables, ..self }
    }

    /// Sets the aggregate retained value-count limit.
    pub fn with_entries(self, entries: usize) -> (limits: Self)
        ensures
            limits == (TableRepositoryLimits { entries, ..self }),
    {
        TableRepositoryLimits { entries, ..self }
    }

    /// Validates strict repository limits.
    pub fn validate(self) -> (result: Result<(), TableError>)
        ensures
            result == match self.violation() {
                Some(error) => Err(error),
                None => Ok(()),
            },
    {
        if self.tables == 0 || self.entries == 0 {
            return Err(TableError::ZeroRepositoryLimit);
        }
        if self.tables > MAXIMUM_TABLES {
            return Err(TableError::RepositoryTableLimit(self.tables));
        }
        if self.entries > MAXIMUM_TABLE_ENTRIES {
            return Err(TableError::RepositoryEntryLimit(self.entries));
        }
        Ok(())
    }
}

/// One common-table entry.
#[derive(Debug, Clone, PartialEq, Eq)]
pub struct TableEntry {
    /// Numeric code carried on the wire.
    pub code: u32,
    /// Human-readable name.
    pub label: String,
}

impl TableEntry {
    /// What is wrong with the entry under a key, if anything.
    pub open spec fn violation(self, key: u32) -> Option<TableError> {
        if key != self.code {
            Some(TableError::MismatchedCode { key, value: self.code })
        } else if blank(self.label@) {
            Some(TableError::EmptyLabel(key))
        } else if text_bytes(self.label@).len() > MAXIMUM_COMMON_TABLE_TEXT_BYTES {
            Some(TableError::TextTooLong("entry label", text_bytes(self.label@).len() as usize))
        } else {
            None
        }
    }

    fn check(&self, key: u32) -> (result: Result<(), TableError>)
        ensures
            result == match self.violation(key) {
                Some(error) => Err(error),
                None => Ok(()),
            },
    {
        if key != self.code {
            return Err(TableError::MismatchedCode { key, value: self.code });
        }
        if is_blank(&self.label) {
            return Err(TableError::EmptyLabel(key));
        }
        let length: usize = byte_length(&self.label);
        if length > MAXIMUM_COMMON_TABLE_TEXT_BYTES {
            return Err(TableError::TextTooLong("entry label", length));
        }
        Ok(())
    }
}

/// One named table from a specific source revision.
#[derive(Debug, Clone, PartialEq, Eq)]
pub struct CommonTable {
    /// Published table number.
    pub number: u16,
    /// Source revision.
    pub revision: String,
    /// Entries indexed by numeric code.
    pub entries: BTreeMap<u32, TableEntry>,
}

/// Whether an error is that of the smallest key with an unusable entry.
pub open spec fn first_entry_violation(
    entries: Map<u32, TableEntry>,
    key: u32,
    error: TableError,
) -> bool {
    &&& entries.contains_key(key)
    &&& entries[key].violation(key) == Some(error)
    &&& forall|earlier: u32|
        earlier < key && #[trigger] entries.contains_key(earlier) ==> entries[earlier].violation(
            earlier,
        ) is None
}

impl CommonTable {
    /// What is wrong with the table as a whole, if anything.
    pub open spec fn header_violation(self) -> Option<TableError> {
        if blank(self.revision@) {
            Some(TableError::MissingRevision(self.number))
        } else if text_bytes(self.revision@).len() > MAXIMUM_COMMON_TABLE_TEXT_BYTES {
            Some(TableError::TextTooLong("revision", text_bytes(self.revision@).len() as usize))
        } else if self.entries@.len() > MAXIMUM_COMMON_TABLE_ENTRIES {
            Some(TableError::TooManyEntries(self.entries@.len() as usize))
        } else {
            None
        }
    }

    /// The table and every entry of it can be used.
    pub open spec fn usable(self) -> bool {
        &&& self.header_violation() is None
        &&& forall|key: u32| #[trigger]
            self.entries@.contains_key(key) ==> self.entries@[key].violation(key) is None
    }

    /// Whether an error is the first that the table deserves.
    pub open spec fn refused_with(self, error: TableError) -> bool {
        match self.header_violation() {
            Some(found) => error == found,
            None => exists|key: u32| first_entry_violation(self.entries@, key, error),
        }
    }

    /// Validates key consistency and rejects empty names.
    pub fn validate(&self) -> (result: Result<(), TableError>)
        ensures
            match result {
                Ok(()) => self.usable(),
                Err(error) => !self.usable() && self.refused_with(error),
            },
    {
        if is_blank(&self.revision) {
            return Err(TableError::MissingRevision(self.number));
        }
        let length: usize = byte_length(&self.revision);
        if length > MAXIMUM_COMMON_TABLE_TEXT_BYTES {
            return Err(TableError::TextTooLong("revision", length));
        }
        let count: usize = size(&self.entries);
        if count > MAXIMUM_COMMON_TABLE_ENTRIES {
            return Err(TableError::TooManyEntries(count));
        }
        let keys = keys_of(&self.entries);
        let mut index: usize = 0;
        while index < keys.len()
            invariant
                index <= keys@.len(),
                self.header_violation() is None,
                crate::ordered::ascending_keys(keys@, self.entries@),
                forall|i: int|
                    0 <= i < index ==> self.entries@[#[trigger] keys@[i]].violation(
                        keys@[i],
                    ) is None,
            decreases keys@.len() - index,
        {
            let key: u32 = keys[index];
            assert(self.entries@.contains_key(keys@[index as int]));
            if let Some(entry) = find(&self.entries, key) {
                if let Err(error) = entry.check(key) {
                    assert(first_entry_violation(self.entries@, key, error)) by {
                        assert forall|earlier: u32|
                            earlier < key && #[trigger] self.entries@.contains_key(
                                earlier,
                            ) implies self.entries@[earlier].violation(earlier) is None by {
                            let i = choose|i: int| 0 <= i < keys@.len() && keys@[i] == earlier;
                            assert(keys@[i] == earlier);
                        }
                    }
                    return Err(error);
                }
            }
            index += 1;
        }
        assert forall|key: u32| #[trigger] self.entries@.contains_key(
            key,
        ) implies self.entries@[key].violation(key) is None by {
            let i = choose|i: int| 0 <= i < keys@.len() && keys@[i] == key;
            assert(keys@[i] == key);
        }
        Ok(())
    }

    /// Returns a known name or preserves the original unknown code.
    pub fn resolve(&self, code: u32) -> (resolved: ResolvedCode<'_>)
        ensures
            resolved == if self.entries@.contains_key(code) {
                ResolvedCode::Known(&self.entries@[code])
            } else {
                ResolvedCode::Unknown(code)
            },
    {
        match find(&self.entries, code) {
            Some(entry) => ResolvedCode::Known(entry),
            None => ResolvedCode::Unknown(code),
        }
    }
}

/// Result of resolving a common-table value.
#[derive(Debug, Clone, Copy, PartialEq, Eq)]
pub enum ResolvedCode<'a> {
    /// Known entry.
    Known(&'a TableEntry),
    /// Unknown code preserved without conversion.
    Unknown(u32),
}

/// Number of values in the tables numbered below a bound.
pub open spec fn entries_below(tables: Map<u16, CommonTable>, bound: nat) -> nat
    decreases bound,
{
    if bound == 0 {
        0
    } else {
        let number = (bound - 1) as u16;
        entries_below(tables, (bound - 1) as nat) + if tables.contains_key(number) {
            tables[number].entries@.len()
        } else {
            0
        }
    }
}

/// Number of values in all tables.
pub open spec fn all_entries(tables: Map<u16, CommonTable>) -> nat {
    entries_below(tables, 65536)
}

proof fn lemma_entries_after_insert(
    tables: Map<u16, CommonTable>,
    number: u16,
    table: CommonTable,
    bound: nat,
)
    requires
        bound <= 65536,
    ensures
        entries_below(tables.insert(number, table), bound) == entries_below(tables, bound) + (
        if number < bound {
            table.entries@.len() - if tables.contains_key(number) {
                tables[number].entries@.len() as int
            } else {
                0int
            }
        } else {
            0int
        }),
        number < bound && tables.contains_key(number) ==> tables[number].entries@.len()
            <= entries_below(tables, bound),
    decreases bound,
{
    if bound > 0 {
        lemma_entries_after_insert(tables, number, table, (bound - 1) as nat);
    }
}

/// Table repository with an explicit revision-replacement policy.
#[derive(Debug, Clone)]
pub struct TableRepository {
    tables: BTreeMap<u16, CommonTable>,
    limits: TableRepositoryLimits,
    total_entries: usize,
}

impl View for TableRepository {
    type V = Map<u16, CommonTable>;

    closed spec fn view(&self) -> Map<u16, CommonTable> {
        self.tables@
    }
}

impl Default for TableRepository {
    fn default() -> (repository: Self)
        ensures
            repository.well_formed(),
            repository@ == Map::<u16, CommonTable>::empty(),
            repository.bounds() == (TableRepositoryLimits {
                tables: DEFAULT_MAXIMUM_TABLES,
                entries: DEFAULT_MAXIMUM_TABLE_ENTRIES,
            }),
    {
        TableRepository::new()
    }
}

impl TableRepository {
    /// The effective limits.
    pub closed spec fn bounds(&self) -> TableRepositoryLimits {
        self.limits
    }

    /// The recorded number of values.
    pub closed spec fn recorded_entries(&self) -> nat {
        self.total_entries as nat
    }

    /// The limits are usable, the repository keeps to them, and the recorded
    /// number of values is the number of values of all tables.
    pub open spec fn well_formed(&self) -> bool {
        &&& self.bounds().violation() is None
        &&& self@.len() <= self.bounds().tables
        &&& self.recorded_entries() == all_entries(self@)
        &&& all_entries(self@) <= self.bounds().entries
    }

    /// Creates an empty repository with conservative aggregate limits.
    pub fn new() -> (repository: Self)
        ensures
            repository.well_formed(),
            repository@ == Map::<u16, CommonTable>::empty(),
            repository.bounds() == (TableRepositoryLimits {
                tables: DEFAULT_MAXIMUM_TABLES,
                entries: DEFAULT_MAXIMUM_TABLE_ENTRIES,
            }),
    {
        proof {
            lemma_no_entries(65536);
        }
        TableRepository {
            tables: BTreeMap::new(),
            limits: TableRepositoryLimits {
                tables: DEFAULT_MAXIMUM_TABLES,
                entries: DEFAULT_MAXIMUM_TABLE_ENTRIES,
            },
            total_entries: 0,
        }
    }

    /// Creates an empty repository after validating aggregate limits.
    pub fn with_limits(limits: TableRepositoryLimits) -> (result: Result<Self, TableError>)
        ensures
            match limits.violation() {
                Some(error) => result == Err::<Self, TableError>(error),
                None => result matches Ok(repository) && repository.well_formed() && repository@
                    == Map::<u16, CommonTable>::empty() && repository.bounds() == limits,
            },
    {
        limits.validate()?;
        proof {
            lemma_no_entries(65536);
        }
        Ok(TableRepository { tables: BTreeMap::new(), limits, total_entries: 0 })
    }

    /// Adds a validated table and returns the previous revision.
    pub fn replace(&mut self, table: CommonTable) -> (result: Result<
        Option<CommonTable>,
        TableError,
    >)
        requires
            old(self).well_formed(),
        ensures
            final(self).well_formed(),
            final(self).bounds() == old(self).bounds(),
            ({
                let known = old(self)@.contains_key(table.number);
                let previous = if known {
                    old(self)@[table.number].entries@.len()
                } else {
                    0
                };
                if !table.usable() {
                    &&& result matches Err(error)
                    &&& table.refused_with(error)
                    &&& final(self)@ == old(self)@
                } else if !known && old(self)@.len() >= old(self).bounds().tables {
                    &&& result == Err::<Option<CommonTable>, TableError>(
                        TableError::RepositoryTableLimit(old(self).bounds().tables),
                    )
                    &&& final(self)@ == old(self)@
                } else if all_entries(old(self)@) - previous + table.entries@.len() > old(
                    self,
                ).bounds().entries {
                    &&& result == Err::<Option<CommonTable>, TableError>(
                        TableError::RepositoryEntryLimit(old(self).bounds().entries),
                    )
                    &&& final(self)@ == old(self)@
                } else {
                    &&& result == Ok::<Option<CommonTable>, TableError>(
                        if known {
                            Some(old(self)@[table.number])
                        } else {
                            None
                        },
                    )
                    &&& final(self)@ == old(self)@.insert(table.number, table)
                }
            }),
    {
        table.validate()?;
        let number: u16 = table.number;
        proof {
            lemma_entries_after_insert(self@, number, table, 65536);
        }
        let previous_entries: usize = match find(&self.tables, number) {
            Some(previous) => size(&previous.entries),
            None => {
                if size(&self.tables) >= self.limits.tables {
                    return Err(TableError::RepositoryTableLimit(self.limits.tables));
                }
                0
            },
        };
        let total_entries: usize = self.total_entries - previous_entries + size(&table.entries);
        if total_entries > self.limits.entries {
            return Err(TableError::RepositoryEntryLimit(self.limits.entries));
        }
        let previous = put(&mut self.tables, number, table);
        self.total_entries = total_entries;
        Ok(previous)
    }

    /// Returns a table by its published number.
    pub fn get(&self, number: u16) -> (table: Option<&CommonTable>)
        ensures
            table == if self@.contains_key(number) {
                Some(&self@[number])
            } else {
                None
            },
    {
        find(&self.tables, number)
    }

    /// Returns the number of loaded tables.
    pub fn len(&self) -> (count: usize)
        ensures
            count == self@.len(),
    {
        size(&self.tables)
    }

    /// Reports whether the repository is empty.
    pub fn is_empty(&self) -> (empty: bool)
        ensures
            empty == (self@.len() == 0),
    {
        self.len() == 0
    }

    /// Returns the number of retained values across all tables.
    pub fn total_entries(&self) -> (count: usize)
        requires
            self.well_formed(),
        ensures
            count == all_entries(self@),
    {
        self.total_entries
    }

    /// Returns the effective aggregate repository limits.
    pub fn limits(&self) -> (limits: TableRepositoryLimits)
        ensures
            limits == self.bounds(),
    {
        self.limits
    }
}

proof fn lemma_no_entries(bound: nat)
    ensures
        entries_below(Map::<u16, CommonTable>::empty(), bound) == 0,
    decreases bound,
{
    if bound > 0 {
        lemma_no_entries((bound - 1) as nat);
    }
}

/// Common-table validation error.
#[derive(Debug, Clone, Copy, PartialEq, Eq)]
pub enum TableError {
    /// Aggregate repository limits must permit at least one table and entry.
    ZeroRepositoryLimit,
    /// The repository reached or exceeded its configured table-count limit.
    RepositoryTableLimit(usize),
    /// The repository reached or exceeded its configured aggregate entry limit.
    RepositoryEntryLimit(usize),
    /// The source revision is missing.
    MissingRevision(u16),
    /// A map key does not match the entry code.
    MismatchedCode {
        /// Map key.
        key: u32,
        /// Code in the entry value.
        value: u32,
    },
    /// An entry has an empty name.
    EmptyLabel(u32),
    /// A revision or label is implausibly large.
    TextTooLong(&'static str, usize),
    /// A single table contains an implausible number of values.
    TooManyEntries(usize),
}

/// A table is accepted exactly when its revision and all of its labels say
/// something within the length limit, it has no more entries than allowed, and
/// each entry stands under its own code.
pub proof fn lemma_usable_table(table: CommonTable)
    ensures
        table.usable() <==> !blank(table.revision@) && text_bytes(table.revision@).len()
            <= MAXIMUM_COMMON_TABLE_TEXT_BYTES && table.entries@.len()
            <= MAXIMUM_COMMON_TABLE_ENTRIES && forall|key: u32| #[trigger]
            table.entries@.contains_key(key) ==> table.entries@[key].code == key && !blank(
                table.entries@[key].label@,
            ) && text_bytes(table.entries@[key].label@).len() <= MAXIMUM_COMMON_TABLE_TEXT_BYTES,
{
    if table.usable() {
        assert forall|key: u32| #[trigger]
            table.entries@.contains_key(key) implies table.entries@[key].code == key && !blank(
            table.entries@[key].label@,
        ) && text_bytes(table.entries@[key].label@).len() <= MAXIMUM_COMMON_TABLE_TEXT_BYTES by {
            assert(table.entries@[key].violation(key) is None);
        }
    }
}

/// The number of all entries adds up over the tables: a table that is put in
/// counts with its entries, in place of those of the table that it replaces.
pub proof fn lemma_entries_add_up(tables: Map<u16, CommonTable>, table: CommonTable)
    ensures
        tables.contains_key(table.number) ==> all_entries(tables.insert(table.number, table))
            == all_entries(tables) - tables[table.number].entries@.len() + table.entries@.len(),
        !tables.contains_key(table.number) ==> all_entries(tables.insert(table.number, table))
            == all_entries(tables) + table.entries@.len(),
        all_entries(Map::empty()) == 0,
{
    lemma_entries_after_insert(tables, table.number, table, 65536);
    lemma_no_entries(65536);
}

/// A code is known exactly when the table has an entry for it, and then it
/// leads to that entry.
pub proof fn lemma_code_is_resolved(table: CommonTable, code: u32, resolved: ResolvedCode<'_>)
    requires
        call_ensures(CommonTable::resolve, (&table, code), resolved),
    ensures
        resolved is Known <==> table.entries@.contains_key(code),
        resolved matches ResolvedCode::Known(entry) ==> *entry == table.entries@[code],
        resolved matches ResolvedCode::Unknown(unknown) ==> unknown == code,
        table.usable() ==> (resolved matches ResolvedCode::Known(entry) ==> entry.code == code),
{
}

/// A table that is taken up is found under its number and replaces an earlier
/// one, which is handed back; the other tables stay. A table that is refused
/// changes nothing.
pub proof fn lemma_table_is_replaced(
    repository: &mut TableRepository,
    table: CommonTable,
    result: Result<Option<CommonTable>, TableError>,
    other: u16,
)
    requires
        call_ensures(TableRepository::replace, (repository, table), result),
        other != table.number,
    ensures
        result is Err ==> final(repository)@ == old(repository)@,
        !table.usable() ==> result is Err,
        result is Ok ==> final(repository)@.contains_key(table.number)
            && final(repository)@[table.number] == table,
        result is Ok ==> (final(repository)@.contains_key(other) <==> old(repository)@.contains_key(
            other,
        )) && (old(repository)@.contains_key(other) ==> final(repository)@[other]
            == old(repository)@[other]),
        result matches Ok(previous) ==> (previous is Some <==> old(repository)@.contains_key(
            table.number,
        )) && (previous matches Some(replaced) ==> replaced == old(repository)@[table.number]),
{
}

} // verus!
