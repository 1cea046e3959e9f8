//! Serial ports as discovery reports them, and how the tool lists them.
use vstd::prelude::*;

use crate::hex::lower_hex_char;
use crate::json::{
    members_of, number_at, number_value, push_member, text_at, text_value, value_at, JsonMember,
    JsonValue,
};
use crate::outside::push_char;
use crate::report::{event_head, SCHEMA_VERSION};
use crate::text::{decimal, push_decimal};

verus! {

#[derive(Debug, Clone, PartialEq, Eq)]
pub struct UsbInfo {
    pub vid: u16,
    pub pid: u16,
    pub serial_number: Option<String>,
    pub manufacturer: Option<String>,
    pub product: Option<String>,
}

#[derive(Debug, Clone, PartialEq, Eq)]
pub enum PortType {
    Usb(UsbInfo),
    Pci,
    Bluetooth,
    Unknown,
}

#[derive(Debug, Clone, PartialEq, Eq)]
pub struct PortInfo {
    pub port_name: String,
    pub port_type: PortType,
}

pub open spec fn port_type_name(port_type: PortType) -> Seq<char> {
    match port_type {
        PortType::Usb(_) => "usb"@,
        PortType::Pci => "pci"@,
        PortType::Bluetooth => "bluetooth"@,
        PortType::Unknown => "unknown"@,
    }
}

/// An optional text member: the text, or `null`.
pub open spec fn optional_text_at(m: Seq<JsonMember>, k: int, key: Seq<char>, text: Option<String>) -> bool {
    match text {
        Some(t) => text_at(m, k, key, t@),
        None => value_at(m, k, key, JsonValue::Null),
    }
}

/// A port as the tool reports it: name and type, and for USB ports the IDs and
/// descriptions.
pub open spec fn port_reported(value: JsonValue, port: PortInfo) -> bool {
    let m = members_of(value);
    &&& value is Object
    &&& text_at(m, 0, "port"@, port.port_name@)
    &&& text_at(m, 1, "type"@, port_type_name(port.port_type))
    &&& match port.port_type {
        PortType::Usb(usb) => {
            &&& m.len() == 7
            &&& number_at(m, 2, "vid"@, usb.vid as int)
            &&& number_at(m, 3, "pid"@, usb.pid as int)
            &&& optional_text_at(m, 4, "serial_number"@, usb.serial_number)
            &&& optional_text_at(m, 5, "manufacturer"@, usb.manufacturer)
            &&& optional_text_at(m, 6, "product"@, usb.product)
        },
        _ => m.len() == 2,
    }
}

fn optional_text(text: &Option<String>) -> (value: JsonValue)
    ensures
        match text {
            Some(t) => value matches JsonValue::Text(v) && v@ == t@,
            None => value == JsonValue::Null,
        },
{
    match text {
        Some(t) => text_value(t.as_str()),
        None => JsonValue::Null,
    }
}

/// The name the tool gives a port's type.
pub fn kind_name(port_type: &PortType) -> (name: &'static str)
    ensures
        name@ == port_type_name(*port_type),
{
    match port_type {
        PortType::Usb(_) => "usb",
        PortType::Pci => "pci",
        PortType::Bluetooth => "bluetooth",
        PortType::Unknown => "unknown",
    }
}

/// A port as a JSON object.
pub fn port_json(port: &PortInfo) -> (value: JsonValue)
    ensures
        port_reported(value, *port),
{
    let mut m: Vec<JsonMember> = Vec::new();
    push_member(&mut m, "port", text_value(port.port_name.as_str()));
    push_member(&mut m, "type", text_value(kind_name(&port.port_type)));
    match &port.port_type {
        PortType::Usb(usb) => {
            push_member(&mut m, "vid", number_value(usb.vid as u64));
            push_member(&mut m, "pid", number_value(usb.pid as u64));
            push_member(&mut m, "serial_number", optional_text(&usb.serial_number));
            push_member(&mut m, "manufacturer", optional_text(&usb.manufacturer));
            push_member(&mut m, "product", optional_text(&usb.product));
        },
        _ => {},
    }
    JsonValue::Object(m)
}

/// Four lowercase hex digits.
pub open spec fn hex4(n: u16) -> Seq<char> {
    seq![
        lower_hex_char((n / 4096) as int),
        lower_hex_char(((n / 256) % 16) as int),
        lower_hex_char(((n / 16) % 16) as int),
        lower_hex_char((n % 16) as int),
    ]
}

fn lower_digit(nibble: u16) -> (c: char)
    requires
        nibble < 16,
    ensures
        c == lower_hex_char(nibble as int),
{
    if nibble < 10 {
        ((nibble as u8) + 0x30) as char
    } else {
        ((nibble as u8) - 10 + 0x61) as char
    }
}

fn push_hex4(text: &mut String, n: u16)
    ensures
        final(text)@ == old(text)@ + hex4(n),
{
    push_char(text, lower_digit(n / 4096));
    push_char(text, lower_digit((n / 256) % 16));
    push_char(text, lower_digit((n / 16) % 16));
    push_char(text, lower_digit(n % 16));
}

/// `  label=value`, when there is a value.
pub open spec fn labelled(label: Seq<char>, value: Option<String>) -> Seq<char> {
    match value {
        Some(v) => "  "@ + label + "="@ + v@,
        None => Seq::empty(),
    }
}

/// A port's line in the human listing.
pub open spec fn port_line(port: PortInfo) -> Seq<char> {
    let head = port.port_name@ + "  "@ + port_type_name(port.port_type);
    match port.port_type {
        PortType::Usb(usb) => head + "  VID="@ + hex4(usb.vid) + " PID="@ + hex4(usb.pid)
            + labelled("serial"@, usb.serial_number) + labelled("manufacturer"@, usb.manufacturer)
            + labelled("product"@, usb.product),
        _ => head,
    }
}

/// The value of a lowercase hex digit.
pub open spec fn lower_hex_value(c: char) -> int {
    if '0' <= c <= '9' {
        c as int - '0' as int
    } else {
        c as int - 'a' as int + 10
    }
}

/// `c` is one of `0`-`9`, `a`-`f`.
pub open spec fn is_lower_hex_digit(c: char) -> bool {
    ('0' <= c <= '9') || ('a' <= c <= 'f')
}

/// Four lowercase hex digits that spell `n`, most significant first.
pub open spec fn spells_hex4(digits: Seq<char>, n: int) -> bool {
    &&& digits.len() == 4
    &&& forall|i: int| 0 <= i < 4 ==> #[trigger] is_lower_hex_digit(digits[i])
    &&& 4096 * lower_hex_value(digits[0]) + 256 * lower_hex_value(digits[1]) + 16 * lower_hex_value(
        digits[2],
    ) + lower_hex_value(digits[3]) == n
}

proof fn lemma_lower_hex_digit(d: int)
    requires
        0 <= d < 16,
    ensures
        is_lower_hex_digit(lower_hex_char(d)),
        lower_hex_value(lower_hex_char(d)) == d,
{
    if d < 10 {
        let b = (d + 0x30) as u8;
        assert((b as char) as int == b as int);
    } else {
        let b = (d - 10 + 0x61) as u8;
        assert((b as char) as int == b as int);
    }
}

proof fn lemma_hex4_spells(n: u16)
    ensures
        spells_hex4(hex4(n), n as int),
{
    let d = hex4(n);
    lemma_lower_hex_digit((n / 4096) as int);
    lemma_lower_hex_digit(((n / 256) % 16) as int);
    lemma_lower_hex_digit(((n / 16) % 16) as int);
    lemma_lower_hex_digit((n % 16) as int);
    assert forall|i: int| 0 <= i < 4 implies #[trigger] is_lower_hex_digit(d[i]) by {}
    let x = n as int;
    assert(4096 * (x / 4096) + 256 * ((x / 256) % 16) + 16 * ((x / 16) % 16) + x % 16 == x)
        by (nonlinear_arith)
        requires
            0 <= x < 65536,
    ;
}

/// The listing line of a USB port shows, after its name and type, `VID=` and the four
/// lowercase hex digits of the port's vendor ID, then ` PID=` and those of its product
/// ID.
pub proof fn lemma_usb_line_shows_ids(port: PortInfo)
    requires
        port.port_type is Usb,
    ensures
        ({
            let usb = port.port_type->Usb_0;
            let line = port_line(port);
            let at = port.port_name@.len() as int + 7;
            &&& line.take(port.port_name@.len() as int) == port.port_name@
            &&& line.subrange(port.port_name@.len() as int, at) == "  usb  "@
            &&& line.subrange(at, at + 4) == "VID="@
            &&& spells_hex4(line.subrange(at + 4, at + 8), usb.vid as int)
            &&& line.subrange(at + 8, at + 13) == " PID="@
            &&& spells_hex4(line.subrange(at + 13, at + 17), usb.pid as int)
        }),
{
    let usb = port.port_type->Usb_0;
    let name = port.port_name@;
    let n = name.len() as int;
    let at = n + 7;
    let line = port_line(port);
    reveal_strlit("  ");
    reveal_strlit("usb");
    reveal_strlit("  usb  ");
    reveal_strlit("  VID=");
    reveal_strlit("VID=");
    reveal_strlit(" PID=");
    let tail = labelled("serial"@, usb.serial_number) + labelled("manufacturer"@, usb.manufacturer)
        + labelled("product"@, usb.product);
    assert(line =~= name + "  "@ + "usb"@ + "  VID="@ + hex4(usb.vid) + " PID="@ + hex4(usb.pid) + tail);
    assert(line.take(n) =~= name);
    assert(line.subrange(n, at) =~= "  usb  "@);
    assert(line.subrange(at, at + 4) =~= "VID="@);
    assert(line.subrange(at + 4, at + 8) =~= hex4(usb.vid));
    assert(line.subrange(at + 8, at + 13) =~= " PID="@);
    assert(line.subrange(at + 13, at + 17) =~= hex4(usb.pid));
    lemma_hex4_spells(usb.vid);
    lemma_hex4_spells(usb.pid);
}

fn push_labelled(text: &mut String, label: &str, value: &Option<String>)
    ensures
        final(text)@ == old(text)@ + labelled(label@, *value),
{
    match value {
        Some(v) => {
            text.append("  ");
            text.append(label);
            text.append("=");
            text.append(v.as_str());
        },
        None => {
            assert(old(text)@ + Seq::<char>::empty() =~= old(text)@);
        },
    }
}

fn push_port_line(text: &mut String, port: &PortInfo)
    ensures
        final(text)@ == old(text)@ + port_line(*port),
{
    text.append(port.port_name.as_str());
    text.append("  ");
    text.append(kind_name(&port.port_type));
    match &port.port_type {
        PortType::Usb(usb) => {
            text.append("  VID=");
            push_hex4(text, usb.vid);
            text.append(" PID=");
            push_hex4(text, usb.pid);
            push_labelled(text, "serial", &usb.serial_number);
            push_labelled(text, "manufacturer", &usb.manufacturer);
            push_labelled(text, "product", &usb.product);
        },
        _ => {},
    }
}

/// The lines of the first `n` ports, each after a line break.
pub open spec fn port_lines(ports: Seq<PortInfo>) -> Seq<char>
    decreases ports.len(),
{
    if ports.len() == 0 {
        Seq::empty()
    } else {
        port_lines(ports.drop_last()) + "\n"@ + port_line(ports.last())
    }
}

/// The human listing: a header and one line per port, or a note that there are none.
pub open spec fn port_listing(ports: Seq<PortInfo>) -> Seq<char> {
    if ports.len() == 0 {
        "No serial ports found"@
    } else {
        "PORT  TYPE"@ + port_lines(ports)
    }
}

/// The list-ports event: how many ports there are and each port's object, in order.
pub open spec fn ports_reported(value: JsonValue, ports: Seq<PortInfo>, timestamp: Seq<char>) -> bool {
    let m = members_of(value);
    &&& value is Object
    &&& m.len() == 6
    &&& event_head(m, "list-ports"@, timestamp)
    &&& value_at(m, 3, "ok"@, JsonValue::Bool(true))
    &&& number_at(m, 4, "count"@, ports.len() as int)
    &&& m[5].key@ == "ports"@
    &&& m[5].value matches JsonValue::Array(items)
    &&& items@.len() == ports.len()
    &&& forall|i: int| 0 <= i < ports.len() ==> #[trigger] port_reported(items@[i], ports[i])
}

/// The outcome of listing ports, as a JSON event and as text.
pub fn list_ports_output(ports: &Vec<PortInfo>, timestamp: &str) -> (output: (JsonValue, String))
    ensures
        ports_reported(output.0, ports@, timestamp@),
        output.1@ == port_listing(ports@),
{
    let mut items: Vec<JsonValue> = Vec::new();
    let mut lines = String::new();
    let mut i: usize = 0;
    while i < ports.len()
        invariant
            i <= ports@.len(),
            items@.len() == i,
            forall|j: int| 0 <= j < i ==> #[trigger] port_reported(items@[j], ports@[j]),
            lines@ == port_lines(ports@.take(i as int)),
        decreases ports@.len() - i,
    {
        items.push(port_json(&ports[i]));
        lines.append("\n");
        push_port_line(&mut lines, &ports[i]);
        proof {
            assert(ports@.take(i + 1).drop_last() =~= ports@.take(i as int));
        }
        i = i + 1;
    }
    assert(ports@.take(i as int) =~= ports@);
    let mut m: Vec<JsonMember> = Vec::new();
    push_member(&mut m, "event", text_value("list-ports"));
    push_member(&mut m, "schema_version", number_value(SCHEMA_VERSION));
    push_member(&mut m, "timestamp_utc", text_value(timestamp));
    push_member(&mut m, "ok", JsonValue::Bool(true));
    push_member(&mut m, "count", number_value(ports.len() as u64));
    push_member(&mut m, "ports", JsonValue::Array(items));
    let text = if ports.len() == 0 {
        String::from_str("No serial ports found")
    } else {
        let mut text = String::from_str("PORT  TYPE");
        text.append(lines.as_str());
        text
    };
    (JsonValue::Object(m), text)
}

} // verus!
