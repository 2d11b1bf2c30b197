use kiro::snapshot::MetricsSnapshot;
use kiro::wire::decode;
use kiro::wire::encode;
use kiro::wire::find;
use kiro::wire::DecodeError;
use kiro::wire::FieldKey;
use kiro::wire::WireField;
use kiro::wire::WireValue;

fn snapshot() -> MetricsSnapshot {
    MetricsSnapshot {
        os: "NixOS 24.05".to_string(),
        kernel: "6.8.0-48-generic".to_string(),
        host_name: "timeline".to_string(),
        local_ip: "unknown".to_string(),
        uptime: 277_800,
        used_memory: 6_442_450_944,
        free_memory: 10_737_418_240,
        total_memory: 17_179_869_184,
        cpu_usage_bits: 37.25f32.to_bits(),
    }
}

fn field(name: &str, value: WireValue) -> WireField {
    WireField { name: name.to_string(), value }
}

fn to_bytes(fields: &[WireField]) -> Vec<u8> {
    let mut builder = flexbuffers::Builder::default();
    {
        let mut map = builder.start_map();
        for field in fields {
            match &field.value {
                WireValue::Text(text) => map.push(&field.name, text.as_str()),
                WireValue::Unsigned(number) => map.push(&field.name, *number),
                WireValue::Real(bits) => map.push(&field.name, f32::from_bits(*bits)),
                WireValue::Other => map.push(&field.name, ()),
            }
        }
    }
    builder.view().to_vec()
}

fn from_bytes(bytes: &[u8]) -> Vec<WireField> {
    let map = flexbuffers::Reader::get_root(bytes).unwrap().get_map().unwrap();
    let mut fields = Vec::new();
    for (name, value) in map.iter_keys().zip(map.iter_values()) {
        let value = match value.flexbuffer_type() {
            flexbuffers::FlexBufferType::String => WireValue::Text(value.get_str().unwrap().to_string()),
            flexbuffers::FlexBufferType::UInt => WireValue::Unsigned(value.get_u64().unwrap()),
            flexbuffers::FlexBufferType::Float => {
                WireValue::Real((value.get_f64().unwrap() as f32).to_bits())
            }
            _ => WireValue::Other,
        };
        fields.push(field(name, value));
    }
    fields
}

#[test]
fn field_names_are_those_of_the_wire() {
    let names: Vec<&str> = [
        FieldKey::Os,
        FieldKey::Kernel,
        FieldKey::HostName,
        FieldKey::LocalIp,
        FieldKey::Uptime,
        FieldKey::UsedMemory,
        FieldKey::FreeMemory,
        FieldKey::TotalMemory,
        FieldKey::CpuUsage,
    ]
    .into_iter()
    .map(|key| key.name())
    .collect();
    assert_eq!(
        names,
        vec![
            "os",
            "kernel",
            "host_name",
            "local_ip",
            "uptime",
            "used_memory",
            "free_memory",
            "total_memory",
            "cpu_usage"
        ]
    );
}

#[test]
fn encode_lays_out_all_nine_fields() {
    let fields = encode(&snapshot());
    assert_eq!(
        fields,
        vec![
            field("os", WireValue::Text("NixOS 24.05".to_string())),
            field("uptime", WireValue::Unsigned(277_800)),
            field("local_ip", WireValue::Text("unknown".to_string())),
            field("host_name", WireValue::Text("timeline".to_string())),
            field("used_memory", WireValue::Unsigned(6_442_450_944)),
            field("free_memory", WireValue::Unsigned(10_737_418_240)),
            field("kernel", WireValue::Text("6.8.0-48-generic".to_string())),
            field("total_memory", WireValue::Unsigned(17_179_869_184)),
            field("cpu_usage", WireValue::Real(37.25f32.to_bits())),
        ]
    );
}

#[test]
fn equal_snapshots_encode_alike() {
    assert_eq!(encode(&snapshot()), encode(&snapshot().clone()));
}

#[test]
fn decode_gives_the_encoded_snapshot_back() {
    assert_eq!(decode(&encode(&snapshot())), Ok(snapshot()));
    let odd = MetricsSnapshot {
        os: String::new(),
        kernel: "\u{0}nul and \u{1F4CA}".to_string(),
        host_name: "host".to_string(),
        local_ip: "::1".to_string(),
        uptime: 0,
        used_memory: u64::MAX,
        free_memory: 0,
        total_memory: 1,
        cpu_usage_bits: u32::MAX,
    };
    assert_eq!(decode(&encode(&odd)), Ok(odd));
}

#[test]
fn decode_does_not_depend_on_field_order() {
    let mut fields = encode(&snapshot());
    fields.reverse();
    assert_eq!(decode(&fields), Ok(snapshot()));
    fields.sort_by(|a, b| a.name.cmp(&b.name));
    assert_eq!(decode(&fields), Ok(snapshot()));
}

#[test]
fn decode_passes_over_fields_it_does_not_know() {
    let mut fields = encode(&snapshot());
    fields.insert(0, field("swap", WireValue::Unsigned(1)));
    fields.push(field("note", WireValue::Text("x".to_string())));
    assert_eq!(decode(&fields), Ok(snapshot()));
}

#[test]
fn snapshot_survives_the_bytes_of_the_wire() {
    let bytes = to_bytes(&encode(&snapshot()));
    assert_eq!(decode(&from_bytes(&bytes)), Ok(snapshot()));
    assert_eq!(bytes, to_bytes(&encode(&snapshot())));
}

#[test]
fn missing_field_is_named() {
    let keys = [
        FieldKey::Os,
        FieldKey::Kernel,
        FieldKey::HostName,
        FieldKey::LocalIp,
        FieldKey::Uptime,
        FieldKey::UsedMemory,
        FieldKey::FreeMemory,
        FieldKey::TotalMemory,
        FieldKey::CpuUsage,
    ];
    for key in keys {
        let fields: Vec<WireField> =
            encode(&snapshot()).into_iter().filter(|f| f.name != key.name()).collect();
        assert_eq!(decode(&fields), Err(DecodeError::Missing(key)));
    }
    assert_eq!(decode(&Vec::new()), Err(DecodeError::Missing(FieldKey::Os)));
}

#[test]
fn field_of_the_wrong_kind_is_named() {
    let mut fields = encode(&snapshot());
    fields[1] = field("uptime", WireValue::Text("long".to_string()));
    assert_eq!(decode(&fields), Err(DecodeError::WrongKind(FieldKey::Uptime)));
    let mut fields = encode(&snapshot());
    fields[0] = field("os", WireValue::Unsigned(3));
    assert_eq!(decode(&fields), Err(DecodeError::WrongKind(FieldKey::Os)));
    let mut fields = encode(&snapshot());
    fields[8] = field("cpu_usage", WireValue::Unsigned(37));
    assert_eq!(decode(&fields), Err(DecodeError::WrongKind(FieldKey::CpuUsage)));
}

#[test]
fn first_fault_in_key_order_is_reported() {
    let fields: Vec<WireField> = encode(&snapshot())
        .into_iter()
        .filter(|f| f.name != "cpu_usage" && f.name != "kernel")
        .collect();
    assert_eq!(decode(&fields), Err(DecodeError::Missing(FieldKey::Kernel)));
}

#[test]
fn first_field_of_a_name_counts() {
    let mut fields = encode(&snapshot());
    fields.push(field("uptime", WireValue::Unsigned(1)));
    assert_eq!(decode(&fields).unwrap().uptime, 277_800);
    assert_eq!(find(&fields, "uptime"), Some(&WireValue::Unsigned(277_800)));
    assert_eq!(find(&fields, "Uptime"), None);
}

#[test]
fn field_of_another_kind_is_of_the_wrong_kind() {
    let mut fields = encode(&snapshot());
    fields[6] = field("kernel", WireValue::Other);
    assert_eq!(decode(&fields), Err(DecodeError::WrongKind(FieldKey::Kernel)));
    let mut fields = encode(&snapshot());
    fields[4] = field("used_memory", WireValue::Other);
    assert_eq!(decode(&from_bytes(&to_bytes(&fields))), Err(DecodeError::WrongKind(FieldKey::UsedMemory)));
    let mut fields = encode(&snapshot());
    fields.push(field("extra", WireValue::Other));
    assert_eq!(decode(&from_bytes(&to_bytes(&fields))), Ok(snapshot()));
}
