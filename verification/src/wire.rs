//! The wire form of a snapshot: a self-describing record of named fields.
//! Reading a record does not depend on the order its fields come in.

use crate::snapshot::MetricsSnapshot;
use crate::snapshot::SnapshotView;
use vstd::prelude::*;

verus! {

/// The value of one field of a record.
#[derive(Clone, Debug, PartialEq, Eq)]
pub enum WireValue {
    /// A string.
    Text(String),
    /// An unsigned integer.
    Unsigned(u64),
    /// A single-precision real number, as its bit pattern.
    Real(u32),
    /// A value of any other kind; no field of a snapshot holds one.
    Other,
}

/// One named field of a record.
#[derive(Clone, Debug, PartialEq, Eq)]
pub struct WireField {
    pub name: String,
    pub value: WireValue,
}

/// The nine fields of a snapshot.
#[derive(Clone, Copy, Debug, PartialEq, Eq)]
pub enum FieldKey {
    Os,
    Kernel,
    HostName,
    LocalIp,
    Uptime,
    UsedMemory,
    FreeMemory,
    TotalMemory,
    CpuUsage,
}

/// Why a record could not be read as a snapshot.
#[derive(Clone, Copy, Debug, PartialEq, Eq)]
pub enum DecodeError {
    /// The message could not be taken apart into fields at all.
    Unreadable,
    /// The record has no field of this name.
    Missing(FieldKey),
    /// The field of this name holds a value of another kind.
    WrongKind(FieldKey),
}

/// A field value as a plain value.
pub ghost enum ValueView {
    Text(Seq<char>),
    Unsigned(u64),
    Real(u32),
    Other,
}

/// A field as a plain value.
pub ghost struct FieldView {
    pub name: Seq<char>,
    pub value: ValueView,
}

impl View for WireValue {
    type V = ValueView;

    open spec fn view(&self) -> ValueView {
        match self {
            WireValue::Text(text) => ValueView::Text(text@),
            WireValue::Unsigned(number) => ValueView::Unsigned(*number),
            WireValue::Real(bits) => ValueView::Real(*bits),
            WireValue::Other => ValueView::Other,
        }
    }
}

impl View for WireField {
    type V = FieldView;

    open spec fn view(&self) -> FieldView {
        FieldView { name: self.name@, value: self.value@ }
    }
}

/// A record as a plain value: the views of its fields, in order.
pub open spec fn record_view(fields: Seq<WireField>) -> Seq<FieldView> {
    fields.map_values(|field: WireField| field@)
}

/// The name a field goes by on the wire.
pub open spec fn name_of(key: FieldKey) -> Seq<char> {
    match key {
        FieldKey::Os => "os"@,
        FieldKey::Kernel => "kernel"@,
        FieldKey::HostName => "host_name"@,
        FieldKey::LocalIp => "local_ip"@,
        FieldKey::Uptime => "uptime"@,
        FieldKey::UsedMemory => "used_memory"@,
        FieldKey::FreeMemory => "free_memory"@,
        FieldKey::TotalMemory => "total_memory"@,
        FieldKey::CpuUsage => "cpu_usage"@,
    }
}

/// The value of the first field of `record` that is called `name`.
pub open spec fn lookup(record: Seq<FieldView>, name: Seq<char>) -> Option<ValueView>
    decreases record.len(),
{
    if record.len() == 0 {
        None
    } else if record[0].name == name {
        Some(record[0].value)
    } else {
        lookup(record.drop_first(), name)
    }
}

/// The text held by field `key` of `record`.
pub open spec fn text_of(record: Seq<FieldView>, key: FieldKey) -> Result<Seq<char>, DecodeError> {
    match lookup(record, name_of(key)) {
        Some(ValueView::Text(text)) => Ok(text),
        Some(_) => Err(DecodeError::WrongKind(key)),
        None => Err(DecodeError::Missing(key)),
    }
}

/// The unsigned integer held by field `key` of `record`.
pub open spec fn unsigned_of(record: Seq<FieldView>, key: FieldKey) -> Result<u64, DecodeError> {
    match lookup(record, name_of(key)) {
        Some(ValueView::Unsigned(number)) => Ok(number),
        Some(_) => Err(DecodeError::WrongKind(key)),
        None => Err(DecodeError::Missing(key)),
    }
}

/// The bit pattern of the real number held by field `key` of `record`.
pub open spec fn real_of(record: Seq<FieldView>, key: FieldKey) -> Result<u32, DecodeError> {
    match lookup(record, name_of(key)) {
        Some(ValueView::Real(bits)) => Ok(bits),
        Some(_) => Err(DecodeError::WrongKind(key)),
        None => Err(DecodeError::Missing(key)),
    }
}

/// The record a snapshot is sent as: its nine fields under their names.
pub open spec fn encoded(snapshot: SnapshotView) -> Seq<FieldView> {
    seq![
        FieldView { name: name_of(FieldKey::Os), value: ValueView::Text(snapshot.os) },
        FieldView { name: name_of(FieldKey::Uptime), value: ValueView::Unsigned(snapshot.uptime) },
        FieldView { name: name_of(FieldKey::LocalIp), value: ValueView::Text(snapshot.local_ip) },
        FieldView { name: name_of(FieldKey::HostName), value: ValueView::Text(snapshot.host_name) },
        FieldView {
            name: name_of(FieldKey::UsedMemory),
            value: ValueView::Unsigned(snapshot.used_memory),
        },
        FieldView {
            name: name_of(FieldKey::FreeMemory),
            value: ValueView::Unsigned(snapshot.free_memory),
        },
        FieldView { name: name_of(FieldKey::Kernel), value: ValueView::Text(snapshot.kernel) },
        FieldView {
            name: name_of(FieldKey::TotalMemory),
            value: ValueView::Unsigned(snapshot.total_memory),
        },
        FieldView {
            name: name_of(FieldKey::CpuUsage),
            value: ValueView::Real(snapshot.cpu_usage_bits),
        },
    ]
}

/// The first thing wrong with `record` as a snapshot, going through the
/// fields in the order of `FieldKey`; `None` when nothing is.
pub open spec fn first_fault(record: Seq<FieldView>) -> Option<DecodeError> {
    if let Err(fault) = text_of(record, FieldKey::Os) {
        Some(fault)
    } else if let Err(fault) = text_of(record, FieldKey::Kernel) {
        Some(fault)
    } else if let Err(fault) = text_of(record, FieldKey::HostName) {
        Some(fault)
    } else if let Err(fault) = text_of(record, FieldKey::LocalIp) {
        Some(fault)
    } else if let Err(fault) = unsigned_of(record, FieldKey::Uptime) {
        Some(fault)
    } else if let Err(fault) = unsigned_of(record, FieldKey::UsedMemory) {
        Some(fault)
    } else if let Err(fault) = unsigned_of(record, FieldKey::FreeMemory) {
        Some(fault)
    } else if let Err(fault) = unsigned_of(record, FieldKey::TotalMemory) {
        Some(fault)
    } else if let Err(fault) = real_of(record, FieldKey::CpuUsage) {
        Some(fault)
    } else {
        None
    }
}

/// What reading `record` as a snapshot gives: the snapshot made of its nine
/// fields where each is there and of the right kind, the first fault otherwise.
pub open spec fn decoded(record: Seq<FieldView>) -> Result<SnapshotView, DecodeError> {
    match first_fault(record) {
        Some(fault) => Err(fault),
        None => Ok(
            SnapshotView {
                os: text_of(record, FieldKey::Os)->Ok_0,
                kernel: text_of(record, FieldKey::Kernel)->Ok_0,
                host_name: text_of(record, FieldKey::HostName)->Ok_0,
                local_ip: text_of(record, FieldKey::LocalIp)->Ok_0,
                uptime: unsigned_of(record, FieldKey::Uptime)->Ok_0,
                used_memory: unsigned_of(record, FieldKey::UsedMemory)->Ok_0,
                free_memory: unsigned_of(record, FieldKey::FreeMemory)->Ok_0,
                total_memory: unsigned_of(record, FieldKey::TotalMemory)->Ok_0,
                cpu_usage_bits: real_of(record, FieldKey::CpuUsage)->Ok_0,
            },
        ),
    }
}

/// No two fields go by the same name.
pub proof fn lemma_names_differ()
    ensures
        forall|a: FieldKey, b: FieldKey| a != b ==> #[trigger] name_of(a) != #[trigger] name_of(b),
{
    reveal_strlit("os");
    reveal_strlit("kernel");
    reveal_strlit("host_name");
    reveal_strlit("local_ip");
    reveal_strlit("uptime");
    reveal_strlit("used_memory");
    reveal_strlit("free_memory");
    reveal_strlit("total_memory");
    reveal_strlit("cpu_usage");
    assert forall|a: FieldKey, b: FieldKey| a != b implies #[trigger] name_of(a) != #[trigger] name_of(
        b,
    ) by {
        assert(name_of(a).len() != name_of(b).len() || name_of(a)[0] != name_of(b)[0]);
    }
}

/// The round trip: reading the record a snapshot is sent as gives that
/// snapshot back, whatever the snapshot holds.
pub proof fn lemma_round_trip(snapshot: SnapshotView)
    ensures
        decoded(encoded(snapshot)) == Ok::<SnapshotView, DecodeError>(snapshot),
{
    let record = encoded(snapshot);
    assert forall|key: FieldKey|
        lookup(record, name_of(key)) == Some(
            match key {
                FieldKey::Os => ValueView::Text(snapshot.os),
                FieldKey::Kernel => ValueView::Text(snapshot.kernel),
                FieldKey::HostName => ValueView::Text(snapshot.host_name),
                FieldKey::LocalIp => ValueView::Text(snapshot.local_ip),
                FieldKey::Uptime => ValueView::Unsigned(snapshot.uptime),
                FieldKey::UsedMemory => ValueView::Unsigned(snapshot.used_memory),
                FieldKey::FreeMemory => ValueView::Unsigned(snapshot.free_memory),
                FieldKey::TotalMemory => ValueView::Unsigned(snapshot.total_memory),
                FieldKey::CpuUsage => ValueView::Real(snapshot.cpu_usage_bits),
            },
        ) by {
        reveal_with_fuel(lookup, 10);
        lemma_names_differ();
    }
    assert(first_fault(record) is None);
}

/// No name occurs twice in `record`.
pub open spec fn has_unique_names(record: Seq<FieldView>) -> bool {
    forall|i: int, j: int| 0 <= i < j < record.len() ==> record[i].name != record[j].name
}

/// What `lookup` finds is a field of the record, and it finds nothing only
/// where no field has the name.
pub proof fn lemma_lookup_finds_a_field(record: Seq<FieldView>, name: Seq<char>)
    ensures
        match lookup(record, name) {
            Some(value) => record.contains(FieldView { name, value }),
            None => forall|i: int| 0 <= i < record.len() ==> record[i].name != name,
        },
    decreases record.len(),
{
    if record.len() > 0 && record[0].name != name {
        let rest = record.drop_first();
        lemma_lookup_finds_a_field(rest, name);
        match lookup(rest, name) {
            Some(value) => {
                let field = FieldView { name, value };
                let i = choose|i: int| 0 <= i < rest.len() && rest[i] == field;
                assert(record[i + 1] == field);
            },
            None => {
                assert forall|i: int| 0 <= i < record.len() implies record[i].name != name by {
                    if i > 0 {
                        assert(rest[i - 1] == record[i]);
                    }
                }
            },
        }
    } else if record.len() > 0 {
        assert(record[0] == FieldView { name, value: record[0].value });
    }
}

/// In a record without repeated names, `lookup` finds each field by its name.
pub proof fn lemma_lookup_finds_each_field(record: Seq<FieldView>, index: int)
    requires
        has_unique_names(record),
        0 <= index < record.len(),
    ensures
        lookup(record, record[index].name) == Some(record[index].value),
    decreases record.len(),
{
    if index > 0 {
        let rest = record.drop_first();
        assert(has_unique_names(rest)) by {
            assert forall|i: int, j: int| 0 <= i < j < rest.len() implies rest[i].name
                != rest[j].name by {
                assert(rest[i] == record[i + 1] && rest[j] == record[j + 1]);
            }
        }
        assert(rest[index - 1] == record[index]);
        lemma_lookup_finds_each_field(rest, index - 1);
    }
}

/// Order does not matter: two records without repeated names that hold the
/// same fields are read alike.
pub proof fn lemma_decode_ignores_order(a: Seq<FieldView>, b: Seq<FieldView>)
    requires
        has_unique_names(a),
        has_unique_names(b),
        forall|field: FieldView| a.contains(field) <==> b.contains(field),
    ensures
        decoded(a) == decoded(b),
{
    assert forall|name: Seq<char>| lookup(a, name) == lookup(b, name) by {
        lemma_lookup_finds_a_field(a, name);
        lemma_lookup_finds_a_field(b, name);
        match lookup(a, name) {
            Some(value) => {
                let field = FieldView { name, value };
                let i = choose|i: int| 0 <= i < b.len() && b[i] == field;
                lemma_lookup_finds_each_field(b, i);
            },
            None => {
                if let Some(value) = lookup(b, name) {
                    let field = FieldView { name, value };
                    let i = choose|i: int| 0 <= i < a.len() && a[i] == field;
                    assert(a[i].name == name);
                }
            },
        }
    }
}

impl FieldKey {
    /// The name this field goes by on the wire.
    pub fn name(self) -> (name: &'static str)
        ensures
            name@ == name_of(self),
    {
        match self {
            FieldKey::Os => "os",
            FieldKey::Kernel => "kernel",
            FieldKey::HostName => "host_name",
            FieldKey::LocalIp => "local_ip",
            FieldKey::Uptime => "uptime",
            FieldKey::UsedMemory => "used_memory",
            FieldKey::FreeMemory => "free_memory",
            FieldKey::TotalMemory => "total_memory",
            FieldKey::CpuUsage => "cpu_usage",
        }
    }
}

/// Finds the value of the first field of `fields` that is called `name`.
pub fn find<'a>(fields: &'a Vec<WireField>, name: &str) -> (found: Option<&'a WireValue>)
    ensures
        match found {
            Some(value) => lookup(record_view(fields@), name@) == Some(value@),
            None => lookup(record_view(fields@), name@) is None,
        },
{
    let wanted = name.to_owned();
    let ghost record = record_view(fields@);
    let mut index: usize = 0;
    assert(record.skip(0) =~= record);
    while index < fields.len()
        invariant
            index <= fields.len(),
            wanted@ == name@,
            record == record_view(fields@),
            lookup(record, name@) == lookup(record.skip(index as int), name@),
        decreases fields.len() - index,
    {
        proof {
            let rest = record.skip(index as int);
            assert(rest[0] == fields@[index as int]@);
            assert(rest.drop_first() =~= record.skip(index + 1));
        }
        if fields[index].name == wanted {
            return Some(&fields[index].value);
        }
        index = index + 1;
    }
    None
}

fn text_field(fields: &Vec<WireField>, key: FieldKey) -> (text: Result<String, DecodeError>)
    ensures
        match text {
            Ok(found) => text_of(record_view(fields@), key) == Ok::<Seq<char>, DecodeError>(found@),
            Err(fault) => text_of(record_view(fields@), key) == Err::<Seq<char>, DecodeError>(fault),
        },
{
    match find(fields, key.name()) {
        Some(WireValue::Text(found)) => Ok(found.clone()),
        Some(_) => Err(DecodeError::WrongKind(key)),
        None => Err(DecodeError::Missing(key)),
    }
}

fn unsigned_field(fields: &Vec<WireField>, key: FieldKey) -> (number: Result<u64, DecodeError>)
    ensures
        number == unsigned_of(record_view(fields@), key),
{
    match find(fields, key.name()) {
        Some(WireValue::Unsigned(found)) => Ok(*found),
        Some(_) => Err(DecodeError::WrongKind(key)),
        None => Err(DecodeError::Missing(key)),
    }
}

fn real_field(fields: &Vec<WireField>, key: FieldKey) -> (bits: Result<u32, DecodeError>)
    ensures
        bits == real_of(record_view(fields@), key),
{
    match find(fields, key.name()) {
        Some(WireValue::Real(found)) => Ok(*found),
        Some(_) => Err(DecodeError::WrongKind(key)),
        None => Err(DecodeError::Missing(key)),
    }
}

fn text_entry(key: FieldKey, text: &String) -> (field: WireField)
    ensures
        field@ == (FieldView { name: name_of(key), value: ValueView::Text(text@) }),
{
    WireField { name: key.name().to_owned(), value: WireValue::Text(text.clone()) }
}

fn unsigned_entry(key: FieldKey, number: u64) -> (field: WireField)
    ensures
        field@ == (FieldView { name: name_of(key), value: ValueView::Unsigned(number) }),
{
    WireField { name: key.name().to_owned(), value: WireValue::Unsigned(number) }
}

fn real_entry(key: FieldKey, bits: u32) -> (field: WireField)
    ensures
        field@ == (FieldView { name: name_of(key), value: ValueView::Real(bits) }),
{
    WireField { name: key.name().to_owned(), value: WireValue::Real(bits) }
}

/// Lays a snapshot out as the record it is sent as. Equal snapshots give
/// equal records.
pub fn encode(snapshot: &MetricsSnapshot) -> (fields: Vec<WireField>)
    ensures
        record_view(fields@) == encoded(snapshot@),
{
    let mut fields: Vec<WireField> = Vec::new();
    fields.push(text_entry(FieldKey::Os, &snapshot.os));
    fields.push(unsigned_entry(FieldKey::Uptime, snapshot.uptime));
    fields.push(text_entry(FieldKey::LocalIp, &snapshot.local_ip));
    fields.push(text_entry(FieldKey::HostName, &snapshot.host_name));
    fields.push(unsigned_entry(FieldKey::UsedMemory, snapshot.used_memory));
    fields.push(unsigned_entry(FieldKey::FreeMemory, snapshot.free_memory));
    fields.push(text_entry(FieldKey::Kernel, &snapshot.kernel));
    fields.push(unsigned_entry(FieldKey::TotalMemory, snapshot.total_memory));
    fields.push(real_entry(FieldKey::CpuUsage, snapshot.cpu_usage_bits));
    assert(record_view(fields@) =~= encoded(snapshot@));
    fields
}

/// Reads a record as a snapshot. The nine fields are looked up by name, so
/// their order does not matter and fields of other names are passed over.
/// Fails with the first field, in the order of `FieldKey`, that is missing
/// or of the wrong kind.
pub fn decode(fields: &Vec<WireField>) -> (snapshot: Result<MetricsSnapshot, DecodeError>)
    ensures
        match snapshot {
            Ok(read) => decoded(record_view(fields@)) == Ok::<SnapshotView, DecodeError>(read@),
            Err(fault) => decoded(record_view(fields@)) == Err::<SnapshotView, DecodeError>(fault),
        },
{
    let os = match text_field(fields, FieldKey::Os) {
        Ok(text) => text,
        Err(fault) => return Err(fault),
    };
    let kernel = match text_field(fields, FieldKey::Kernel) {
        Ok(text) => text,
        Err(fault) => return Err(fault),
    };
    let host_name = match text_field(fields, FieldKey::HostName) {
        Ok(text) => text,
        Err(fault) => return Err(fault),
    };
    let local_ip = match text_field(fields, FieldKey::LocalIp) {
        Ok(text) => text,
        Err(fault) => return Err(fault),
    };
    let uptime: u64 = match unsigned_field(fields, FieldKey::Uptime) {
        Ok(number) => number,
        Err(fault) => return Err(fault),
    };
    let used_memory: u64 = match unsigned_field(fields, FieldKey::UsedMemory) {
        Ok(number) => number,
        Err(fault) => return Err(fault),
    };
    let free_memory: u64 = match unsigned_field(fields, FieldKey::FreeMemory) {
        Ok(number) => number,
        Err(fault) => return Err(fault),
    };
    let total_memory: u64 = match unsigned_field(fields, FieldKey::TotalMemory) {
        Ok(number) => number,
        Err(fault) => return Err(fault),
    };
    let cpu_usage_bits: u32 = match real_field(fields, FieldKey::CpuUsage) {
        Ok(bits) => bits,
        Err(fault) => return Err(fault),
    };
    Ok(
        MetricsSnapshot {
            os,
            kernel,
            host_name,
            local_ip,
            uptime,
            used_memory,
            free_memory,
            total_memory,
            cpu_usage_bits,
        },
    )
}

} // verus!
