//! Home Assistant discovery and state messages for one meter.

use vstd::prelude::*;
use vstd::string::StringExecFns;
use crate::number::is_digit;
use crate::parser::{readings_view, Reading, ReadingModel, Telegram};
use crate::text::{chars_of, push_char};

verus! {

/// What `str::to_lowercase` returns for a string.
pub uninterp spec fn lowercase(s: Seq<char>) -> Seq<char>;

/// Calls `str::to_lowercase`; the result is named `lowercase`. The Unicode
/// case mapping it applies is left unsaid, and so is what it does to text
/// that is lowercase already.
#[verifier::external_body]
fn to_lowercase(s: &str) -> (r: String)
    ensures
        r@ == lowercase(s@),
{
    s.to_lowercase()
}

/// The lowercase hexadecimal digit of a value below 16.
pub open spec fn lower_hex_digit(v: int) -> char {
    seq!['0', '1', '2', '3', '4', '5', '6', '7', '8', '9', 'a', 'b', 'c', 'd', 'e', 'f'][v]
}

/// How `serde_json` writes one character inside a JSON string: the quote, the
/// backslash and the control characters below U+0020 are escaped (with the
/// two-character escape where JSON has one, else `\u00` and two lowercase hex
/// digits); every other character stands as it is.
pub open spec fn json_escaped_char(c: char) -> Seq<char> {
    if c == '"' {
        seq!['\\', '"']
    } else if c == '\\' {
        seq!['\\', '\\']
    } else if c == '\u{8}' {
        seq!['\\', 'b']
    } else if c == '\t' {
        seq!['\\', 't']
    } else if c == '\n' {
        seq!['\\', 'n']
    } else if c == '\u{c}' {
        seq!['\\', 'f']
    } else if c == '\r' {
        seq!['\\', 'r']
    } else if (c as u32) < 0x20 {
        seq![
            '\\',
            'u',
            '0',
            '0',
            lower_hex_digit((c as u32) as int / 16),
            lower_hex_digit((c as u32) as int % 16),
        ]
    } else {
        seq![c]
    }
}

/// The characters of `s`, each written as `json_escaped_char` says.
pub open spec fn json_escaped(s: Seq<char>) -> Seq<char>
    decreases s.len(),
{
    if s.len() == 0 {
        Seq::empty()
    } else {
        json_escaped(s.drop_last()) + json_escaped_char(s.last())
    }
}

/// The JSON string literal that `serde_json` writes for a string: the escaped
/// text in double quotes.
pub open spec fn json_string(s: Seq<char>) -> Seq<char> {
    seq!['"'] + json_escaped(s) + seq!['"']
}

/// Writes `s` as a JSON string with `serde_json` (a `Value::String`
/// displayed in compact form). The contract claims what `serde_json`'s
/// serializer writes for it: the text in double quotes, each character
/// escaped as its escape table says (`json_escaped_char`).
#[verifier::external_body]
fn json_quote(s: &str) -> (r: String)
    ensures
        r@ == json_string(s@),
{
    serde_json::Value::from(s).to_string()
}

/// An ASCII letter or digit.
pub open spec fn is_ascii_alphanumeric(c: char) -> bool {
    is_digit(c) || ('a' <= c <= 'z') || ('A' <= c <= 'Z')
}

/// What one character of a lowercased name becomes in a topic segment:
/// German umlauts and sharp s are transliterated, other ASCII letters and
/// digits kept, and everything else replaced by `_`.
pub open spec fn sanitized_char(c: char) -> Seq<char> {
    if c == '\u{e4}' {
        seq!['a', 'e']
    } else if c == '\u{f6}' {
        seq!['o', 'e']
    } else if c == '\u{fc}' {
        seq!['u', 'e']
    } else if c == '\u{df}' {
        seq!['s', 's']
    } else if is_ascii_alphanumeric(c) {
        seq![c]
    } else {
        seq!['_']
    }
}

/// A lowercased name made safe for a topic segment, character by character.
pub open spec fn sanitized(s: Seq<char>) -> Seq<char>
    decreases s.len(),
{
    if s.len() == 0 {
        Seq::empty()
    } else {
        sanitized(s.drop_last()) + sanitized_char(s.last())
    }
}

/// A name as a topic segment: lowercased, then sanitized.
pub open spec fn topic_segment(s: Seq<char>) -> Seq<char> {
    sanitized(lowercase(s))
}

/// Transliterates and sanitizes an already lowercased name.
pub fn sanitize_lowercased(lower: &str) -> (r: String)
    ensures
        r@ == sanitized(lower@),
{
    let chars = chars_of(lower);
    let mut r = String::new();
    let mut i: usize = 0;
    while i < chars.len()
        invariant
            i <= chars@.len(),
            chars@ == lower@,
            r@ == sanitized(chars@.take(i as int)),
        decreases chars.len() - i,
    {
        let c = chars[i];
        assert(chars@.take(i + 1).drop_last() =~= chars@.take(i as int));
        let ghost before = r@;
        if c == '\u{e4}' {
            push_char(&mut r, 'a');
            push_char(&mut r, 'e');
        } else if c == '\u{f6}' {
            push_char(&mut r, 'o');
            push_char(&mut r, 'e');
        } else if c == '\u{fc}' {
            push_char(&mut r, 'u');
            push_char(&mut r, 'e');
        } else if c == '\u{df}' {
            push_char(&mut r, 's');
            push_char(&mut r, 's');
        } else if ('0' <= c && c <= '9') || ('a' <= c && c <= 'z') || ('A' <= c && c <= 'Z') {
            push_char(&mut r, c);
        } else {
            push_char(&mut r, '_');
        }
        assert(r@ =~= before + sanitized_char(c));
        i = i + 1;
    }
    assert(chars@.take(chars@.len() as int) =~= chars@);
    r
}

/// Turns a name into a topic segment: lowercase, umlauts transliterated, and
/// every character that is not an ASCII letter or digit replaced by `_`.
pub fn sanitize_topic_segment(s: &str) -> (r: String)
    ensures
        r@ == topic_segment(s@),
{
    let lower = to_lowercase(s);
    sanitize_lowercased(lower.as_str())
}

/// A topic segment holds only ASCII letters, digits and underscores, so it
/// never contains the topic separator `/` or the wildcards `+` and `#`.
pub proof fn lemma_sanitized_is_plain(s: Seq<char>)
    ensures
        forall|i: int|
            0 <= i < sanitized(s).len() ==> is_ascii_alphanumeric(#[trigger] sanitized(s)[i])
                || sanitized(s)[i] == '_',
    decreases s.len(),
{
    if s.len() > 0 {
        lemma_sanitized_is_plain(s.drop_last());
        let p = sanitized(s.drop_last());
        let q = sanitized_char(s.last());
        assert(sanitized(s) == p + q);
        assert forall|i: int| 0 <= i < sanitized(s).len() implies is_ascii_alphanumeric(
            #[trigger] sanitized(s)[i],
        ) || sanitized(s)[i] == '_' by {
            if i < p.len() {
                assert(sanitized(s)[i] == p[i]);
            } else {
                assert(sanitized(s)[i] == q[i - p.len()]);
            }
        }
    }
}

/// A text of ASCII letters, digits and underscores is sanitized unchanged.
proof fn lemma_plain_is_sanitized(x: Seq<char>)
    requires
        forall|i: int| 0 <= i < x.len() ==> is_ascii_alphanumeric(#[trigger] x[i]) || x[i] == '_',
    ensures
        sanitized(x) == x,
    decreases x.len(),
{
    if x.len() > 0 {
        let y = x.drop_last();
        assert forall|i: int| 0 <= i < y.len() implies is_ascii_alphanumeric(#[trigger] y[i])
            || y[i] == '_' by {
            assert(y[i] == x[i]);
        }
        lemma_plain_is_sanitized(y);
        assert(is_ascii_alphanumeric(x[x.len() - 1]) || x[x.len() - 1] == '_');
        assert(x =~= y + seq![x.last()]);
    }
}

/// Sanitizing is idempotent: a sanitized name, sanitized again, is unchanged.
pub proof fn lemma_sanitized_idempotent(s: Seq<char>)
    ensures
        sanitized(sanitized(s)) == sanitized(s),
{
    lemma_sanitized_is_plain(s);
    lemma_plain_is_sanitized(sanitized(s));
}

/// A meter as it appears in MQTT: its configured name, the base topic of its
/// state messages and its device id.
pub struct Sensor {
    pub name: String,
    sanitized_name: String,
    pub base_topic: String,
    pub device_id: String,
    sanitized_device_id: String,
}

impl Sensor {
    /// The configured name.
    pub closed spec fn name_view(&self) -> Seq<char> {
        self.name@
    }

    /// The base topic of the state messages.
    pub closed spec fn base_topic_view(&self) -> Seq<char> {
        self.base_topic@
    }

    /// The device id.
    pub closed spec fn device_id_view(&self) -> Seq<char> {
        self.device_id@
    }

    /// The name as a topic segment.
    pub closed spec fn name_segment(&self) -> Seq<char> {
        self.sanitized_name@
    }

    /// The device id as a topic segment.
    pub closed spec fn device_segment(&self) -> Seq<char> {
        self.sanitized_device_id@
    }

    /// The topic segments are those of the configured name and of the
    /// device id, as every constructor of the library makes them.
    pub open spec fn wf(&self) -> bool {
        &&& self.name_segment() == topic_segment(self.name_view())
        &&& self.device_segment() == topic_segment(self.device_id_view())
    }

    /// The key that identifies the meter's device in Home Assistant.
    pub open spec fn device_key_spec(&self) -> Seq<char> {
        self.name_segment() + "_"@ + self.device_segment()
    }

    /// The state topic of the quantity `subtopic`.
    pub open spec fn value_topic_spec(&self, subtopic: Seq<char>) -> Seq<char> {
        self.base_topic_view() + "/"@ + self.name_segment() + "/"@ + subtopic
    }

    /// A sensor whose topic segments are derived from `name` and `device_id`.
    pub fn new(name: &str, base_topic: &str, device_id: &str) -> (s: Sensor)
        ensures
            s.name_view() == name@,
            s.base_topic_view() == base_topic@,
            s.device_id_view() == device_id@,
            s.name_segment() == topic_segment(name@),
            s.device_segment() == topic_segment(device_id@),
            s.wf(),
    {
        Sensor {
            name: String::from_str(name),
            sanitized_name: sanitize_topic_segment(name),
            base_topic: String::from_str(base_topic),
            device_id: String::from_str(device_id),
            sanitized_device_id: sanitize_topic_segment(device_id),
        }
    }

    /// The key that identifies the meter's device in Home Assistant.
    pub fn device_key(&self) -> (k: String)
        ensures
            k@ == self.device_key_spec(),
    {
        let mut k = self.sanitized_name.clone();
        k.append("_");
        k.append(self.sanitized_device_id.as_str());
        k
    }

    /// The state topic of the quantity `subtopic`.
    pub fn value_topic(&self, subtopic: &str) -> (t: String)
        ensures
            t@ == self.value_topic_spec(subtopic@),
    {
        let mut t = self.base_topic.clone();
        t.append("/");
        t.append(self.sanitized_name.as_str());
        t.append("/");
        t.append(subtopic);
        t
    }
}


/// One MQTT message to publish.
#[derive(Debug, PartialEq, Eq)]
pub struct Publish {
    pub topic: String,
    pub payload: String,
    pub retain: bool,
}

/// The mathematical value of a `Publish`.
pub struct PublishModel {
    pub topic: Seq<char>,
    pub payload: Seq<char>,
    pub retain: bool,
}

impl View for Publish {
    type V = PublishModel;

    open spec fn view(&self) -> PublishModel {
        PublishModel { topic: self.topic@, payload: self.payload@, retain: self.retain }
    }
}

/// The views of a sequence of messages.
pub open spec fn publishes_view(ps: Seq<Publish>) -> Seq<PublishModel> {
    ps.map_values(|p: Publish| p@)
}

/// A quantity that is published: its state subtopic, and how Home Assistant
/// shows it.
pub struct ReadingMeta {
    pub subtopic: &'static str,
    pub name: &'static str,
    pub unit: &'static str,
    pub device_class: &'static str,
    pub state_class: &'static str,
}

/// The mathematical value of a `ReadingMeta`.
pub struct ReadingMetaModel {
    pub subtopic: Seq<char>,
    pub name: Seq<char>,
    pub unit: Seq<char>,
    pub device_class: Seq<char>,
    pub state_class: Seq<char>,
}

/// The quantities that are published, in order: energy import, energy
/// export and total power.
pub open spec fn published_quantities() -> Seq<ReadingMetaModel> {
    seq![
        ReadingMetaModel {
            subtopic: "energy_import"@,
            name: "Energy Import"@,
            unit: "kWh"@,
            device_class: "energy"@,
            state_class: "total_increasing"@,
        },
        ReadingMetaModel {
            subtopic: "energy_export"@,
            name: "Energy Export"@,
            unit: "kWh"@,
            device_class: "energy"@,
            state_class: "total_increasing"@,
        },
        ReadingMetaModel {
            subtopic: "power_total"@,
            name: "Power Total"@,
            unit: "W"@,
            device_class: "power"@,
            state_class: "measurement"@,
        },
    ]
}

/// The `i`-th published quantity.
fn published_quantity(i: usize) -> (m: ReadingMeta)
    requires
        i < 3,
    ensures
        m.subtopic@ == published_quantities()[i as int].subtopic,
        m.name@ == published_quantities()[i as int].name,
        m.unit@ == published_quantities()[i as int].unit,
        m.device_class@ == published_quantities()[i as int].device_class,
        m.state_class@ == published_quantities()[i as int].state_class,
{
    if i == 0 {
        ReadingMeta {
            subtopic: "energy_import",
            name: "Energy Import",
            unit: "kWh",
            device_class: "energy",
            state_class: "total_increasing",
        }
    } else if i == 1 {
        ReadingMeta {
            subtopic: "energy_export",
            name: "Energy Export",
            unit: "kWh",
            device_class: "energy",
            state_class: "total_increasing",
        }
    } else {
        ReadingMeta {
            subtopic: "power_total",
            name: "Power Total",
            unit: "W",
            device_class: "power",
            state_class: "measurement",
        }
    }
}

/// The unique id of a quantity of the sensor.
pub open spec fn unique_id_spec(sensor: Sensor, m: ReadingMetaModel) -> Seq<char> {
    sensor.device_key_spec() + "_"@ + m.subtopic
}

/// The topic of the discovery config of a quantity.
pub open spec fn config_topic_spec(sensor: Sensor, node_id: Seq<char>, m: ReadingMetaModel) -> Seq<
    char,
> {
    "homeassistant/sensor/"@ + node_id + "/"@ + unique_id_spec(sensor, m) + "/config"@
}

/// The discovery config of a quantity: a JSON object with the keys in
/// sorted order, as `serde_json` writes a map.
pub open spec fn config_payload_spec(sensor: Sensor, m: ReadingMetaModel) -> Seq<char> {
    "{\"device\":{\"identifiers\":["@ + json_string(sensor.device_key_spec())
        + "],\"name\":"@ + json_string(sensor.name_view()) + "},\"device_class\":"@
        + json_string(m.device_class) + ",\"name\":"@ + json_string(m.name)
        + ",\"state_class\":"@ + json_string(m.state_class) + ",\"state_topic\":"@
        + json_string(sensor.value_topic_spec(m.subtopic)) + ",\"unique_id\":"@
        + json_string(unique_id_spec(sensor, m)) + ",\"unit_of_measurement\":"@
        + json_string(m.unit) + "}"@
}

/// Appends the JSON string literal of `s`.
fn append_json(buf: &mut String, s: &str)
    ensures
        final(buf)@ == old(buf)@ + json_string(s@),
{
    let q = json_quote(s);
    buf.append(q.as_str());
}

/// The discovery config topic and payload for one quantity.
fn discovery_entry(sensor: &Sensor, node_id: &str, meta: &ReadingMeta) -> (e: (String, String))
    ensures
        ({
            let m = ReadingMetaModel {
                subtopic: meta.subtopic@,
                name: meta.name@,
                unit: meta.unit@,
                device_class: meta.device_class@,
                state_class: meta.state_class@,
            };
            e.0@ == config_topic_spec(*sensor, node_id@, m) && e.1@ == config_payload_spec(
                *sensor,
                m,
            )
        }),
{
    let device_key = sensor.device_key();
    let mut unique_id = device_key.clone();
    unique_id.append("_");
    unique_id.append(meta.subtopic);
    let mut topic = String::from_str("homeassistant/sensor/");
    topic.append(node_id);
    topic.append("/");
    topic.append(unique_id.as_str());
    topic.append("/config");
    let state_topic = sensor.value_topic(meta.subtopic);
    let mut payload = String::from_str("{\"device\":{\"identifiers\":[");
    append_json(&mut payload, device_key.as_str());
    payload.append("],\"name\":");
    append_json(&mut payload, sensor.name.as_str());
    payload.append("},\"device_class\":");
    append_json(&mut payload, meta.device_class);
    payload.append(",\"name\":");
    append_json(&mut payload, meta.name);
    payload.append(",\"state_class\":");
    append_json(&mut payload, meta.state_class);
    payload.append(",\"state_topic\":");
    append_json(&mut payload, state_topic.as_str());
    payload.append(",\"unique_id\":");
    append_json(&mut payload, unique_id.as_str());
    payload.append(",\"unit_of_measurement\":");
    append_json(&mut payload, meta.unit);
    payload.append("}");
    (topic, payload)
}

/// The config topic and payload of each published quantity, in order.
pub fn discovery_entries(sensor: &Sensor, node_id: &str) -> (es: Vec<(String, String)>)
    ensures
        es@.len() == 3,
        forall|i: int|
            0 <= i < 3 ==> (#[trigger] es@[i]).0@ == config_topic_spec(
                *sensor,
                node_id@,
                published_quantities()[i],
            ) && es@[i].1@ == config_payload_spec(*sensor, published_quantities()[i]),
{
    let mut es: Vec<(String, String)> = Vec::new();
    let mut i: usize = 0;
    while i < 3
        invariant
            i <= 3,
            es@.len() == i,
            forall|j: int|
                0 <= j < i ==> (#[trigger] es@[j]).0@ == config_topic_spec(
                    *sensor,
                    node_id@,
                    published_quantities()[j],
                ) && es@[j].1@ == config_payload_spec(*sensor, published_quantities()[j]),
        decreases 3 - i,
    {
        let meta = published_quantity(i);
        let e = discovery_entry(sensor, node_id, &meta);
        es.push(e);
        i = i + 1;
    }
    es
}

/// The retained discovery message of a quantity.
pub open spec fn discovery_publish_spec(sensor: Sensor, node_id: Seq<char>, m: ReadingMetaModel) -> PublishModel {
    PublishModel {
        topic: config_topic_spec(sensor, node_id, m),
        payload: config_payload_spec(sensor, m),
        retain: true,
    }
}

/// The retained discovery messages of the sensor: one per published
/// quantity, in order.
pub fn discovery_publishes(sensor: &Sensor, node_id: &str) -> (ps: Vec<Publish>)
    ensures
        ps@.len() == 3,
        forall|i: int|
            0 <= i < 3 ==> (#[trigger] ps@[i])@ == discovery_publish_spec(
                *sensor,
                node_id@,
                published_quantities()[i],
            ),
{
    let mut entries = discovery_entries(sensor, node_id);
    let ghost es = entries@;
    let mut ps: Vec<Publish> = Vec::new();
    let mut i: usize = 0;
    while entries.len() > 0
        invariant
            i + entries@.len() == 3,
            es.len() == 3,
            entries@ == es.subrange(i as int, 3),
            ps@.len() == i,
            forall|j: int|
                0 <= j < 3 ==> (#[trigger] es[j]).0@ == config_topic_spec(
                    *sensor,
                    node_id@,
                    published_quantities()[j],
                ) && es[j].1@ == config_payload_spec(*sensor, published_quantities()[j]),
            forall|j: int|
                0 <= j < i ==> (#[trigger] ps@[j])@ == discovery_publish_spec(
                    *sensor,
                    node_id@,
                    published_quantities()[j],
                ),
        decreases entries.len(),
    {
        let (topic, payload) = entries.remove(0);
        assert(es[i as int].0 == topic);
        ps.push(Publish { topic, payload, retain: true });
        i = i + 1;
        assert(entries@ =~= es.subrange(i as int, 3));
    }
    ps
}

/// The state subtopic and payload of a reading that is published.
pub open spec fn state_of(r: ReadingModel) -> Option<(Seq<char>, Seq<char>)> {
    match r {
        ReadingModel::EnergyImport(v) => Some(("energy_import"@, v)),
        ReadingModel::EnergyExport(v) => Some(("energy_export"@, v)),
        ReadingModel::PowerTotal(v) => Some(("power_total"@, v)),
        _ => None,
    }
}

/// The state subtopic and payload of `reading`, or `None` when the reading
/// is not published.
pub fn reading_to_state(reading: &Reading) -> (r: Option<(&'static str, String)>)
    ensures
        match r {
            Some((sub, v)) => state_of(reading@) == Some((sub@, v@)),
            None => state_of(reading@) is None,
        },
{
    match reading {
        Reading::EnergyImport(v) => Some(("energy_import", v.clone())),
        Reading::EnergyExport(v) => Some(("energy_export", v.clone())),
        Reading::PowerTotal(v) => Some(("power_total", v.clone())),
        _ => None,
    }
}

/// The state messages for the published readings of `rs`, in order.
pub open spec fn reading_publishes_spec(sensor: Sensor, rs: Seq<ReadingModel>) -> Seq<PublishModel>
    decreases rs.len(),
{
    if rs.len() == 0 {
        Seq::empty()
    } else {
        let before = reading_publishes_spec(sensor, rs.drop_last());
        match state_of(rs.last()) {
            Some((sub, v)) => before.push(
                PublishModel { topic: sensor.value_topic_spec(sub), payload: v, retain: false },
            ),
            None => before,
        }
    }
}

/// The state messages of readings are those of each reading in turn: the
/// messages of `a + b` are the messages of `a` followed by those of `b`, so a
/// published reading yields its message whatever readings stand before it.
pub proof fn lemma_reading_publishes_concat(
    sensor: Sensor,
    a: Seq<ReadingModel>,
    b: Seq<ReadingModel>,
)
    ensures
        reading_publishes_spec(sensor, a + b) == reading_publishes_spec(sensor, a)
            + reading_publishes_spec(sensor, b),
    decreases b.len(),
{
    let x = reading_publishes_spec(sensor, a);
    if b.len() == 0 {
        assert(a + b =~= a);
        assert(x + reading_publishes_spec(sensor, b) =~= x);
    } else {
        lemma_reading_publishes_concat(sensor, a, b.drop_last());
        assert((a + b).drop_last() =~= a + b.drop_last());
        assert((a + b).last() == b.last());
        let y = reading_publishes_spec(sensor, b.drop_last());
        match state_of(b.last()) {
            Some((sub, v)) => {
                let m = PublishModel {
                    topic: sensor.value_topic_spec(sub),
                    payload: v,
                    retain: false,
                };
                assert((x + y).push(m) =~= x + y.push(m));
            },
            None => {},
        }
    }
}

/// What one reading yields: an energy import, energy export or total power
/// reading one message that is not retained, on the sensor's state topic of
/// that quantity, holding the reading's value; every other reading nothing.
pub proof fn lemma_reading_publishes_one(sensor: Sensor, r: ReadingModel)
    ensures
        reading_publishes_spec(sensor, seq![r]) == (match r {
            ReadingModel::EnergyImport(v) => seq![
                (PublishModel {
                    topic: sensor.value_topic_spec("energy_import"@),
                    payload: v,
                    retain: false,
                }),
            ],
            ReadingModel::EnergyExport(v) => seq![
                (PublishModel {
                    topic: sensor.value_topic_spec("energy_export"@),
                    payload: v,
                    retain: false,
                }),
            ],
            ReadingModel::PowerTotal(v) => seq![
                (PublishModel {
                    topic: sensor.value_topic_spec("power_total"@),
                    payload: v,
                    retain: false,
                }),
            ],
            _ => Seq::<PublishModel>::empty(),
        }),
{
    assert(seq![r].drop_last() =~= Seq::<ReadingModel>::empty());
    assert(seq![r].last() == r);
    assert(reading_publishes_spec(sensor, seq![r].drop_last()) =~= Seq::<PublishModel>::empty());
}

/// The quantities announced to Home Assistant, in order: energy import and
/// energy export in kWh (device class `energy`, state class
/// `total_increasing`), and total power in W (device class `power`, state
/// class `measurement`); each is announced under the subtopic on which its
/// readings are published.
pub proof fn lemma_published_quantities()
    ensures
        published_quantities().len() == 3,
        published_quantities()[0] == (ReadingMetaModel {
            subtopic: "energy_import"@,
            name: "Energy Import"@,
            unit: "kWh"@,
            device_class: "energy"@,
            state_class: "total_increasing"@,
        }),
        published_quantities()[1] == (ReadingMetaModel {
            subtopic: "energy_export"@,
            name: "Energy Export"@,
            unit: "kWh"@,
            device_class: "energy"@,
            state_class: "total_increasing"@,
        }),
        published_quantities()[2] == (ReadingMetaModel {
            subtopic: "power_total"@,
            name: "Power Total"@,
            unit: "W"@,
            device_class: "power"@,
            state_class: "measurement"@,
        }),
        forall|v: Seq<char>|
            #[trigger] state_of(ReadingModel::EnergyImport(v)) == Some(
                (published_quantities()[0].subtopic, v),
            ),
        forall|v: Seq<char>|
            #[trigger] state_of(ReadingModel::EnergyExport(v)) == Some(
                (published_quantities()[1].subtopic, v),
            ),
        forall|v: Seq<char>|
            #[trigger] state_of(ReadingModel::PowerTotal(v)) == Some(
                (published_quantities()[2].subtopic, v),
            ),
{
}

/// The non-retained state messages for the readings of the telegram that
/// are published, in the order of the readings.
pub fn reading_publishes(sensor: &Sensor, telegram: &Telegram) -> (ps: Vec<Publish>)
    ensures
        publishes_view(ps@) == reading_publishes_spec(*sensor, telegram@.readings),
{
    let ghost rs = readings_view(telegram.readings@);
    let mut ps: Vec<Publish> = Vec::new();
    let mut i: usize = 0;
    while i < telegram.readings.len()
        invariant
            i <= telegram.readings@.len(),
            rs == readings_view(telegram.readings@),
            publishes_view(ps@) == reading_publishes_spec(*sensor, rs.take(i as int)),
        decreases telegram.readings.len() - i,
    {
        assert(rs.take(i + 1).drop_last() =~= rs.take(i as int));
        assert(rs.take(i + 1).last() == telegram.readings@[i as int]@);
        match reading_to_state(&telegram.readings[i]) {
            Some((sub, payload)) => {
                let ghost before = ps@;
                let topic = sensor.value_topic(sub);
                ps.push(Publish { topic, payload, retain: false });
                assert(publishes_view(ps@) =~= publishes_view(before).push(ps@.last()@));
            },
            None => {},
        }
        i = i + 1;
    }
    assert(rs.take(rs.len() as int) =~= rs);
    ps
}


/// State messages are never retained, there is at most one per reading, and
/// each goes to the state topic of one of the published quantities.
pub proof fn lemma_state_messages(sensor: Sensor, rs: Seq<ReadingModel>)
    ensures
        reading_publishes_spec(sensor, rs).len() <= rs.len(),
        forall|i: int|
            0 <= i < reading_publishes_spec(sensor, rs).len() ==> !(#[trigger] reading_publishes_spec(
                sensor,
                rs,
            )[i]).retain && exists|k: int|
                0 <= k < 3 && reading_publishes_spec(sensor, rs)[i].topic
                    == sensor.value_topic_spec(published_quantities()[k].subtopic),
    decreases rs.len(),
{
    if rs.len() > 0 {
        lemma_state_messages(sensor, rs.drop_last());
        let before = reading_publishes_spec(sensor, rs.drop_last());
        let all = reading_publishes_spec(sensor, rs);
        assert forall|i: int| 0 <= i < all.len() implies !(#[trigger] all[i]).retain && exists|k: int|
            0 <= k < 3 && all[i].topic == sensor.value_topic_spec(
                published_quantities()[k].subtopic,
            ) by {
            if i < before.len() {
                assert(all[i] == before[i]);
            } else {
                match rs.last() {
                    ReadingModel::EnergyImport(_) => {
                        assert(all[i].topic == sensor.value_topic_spec(published_quantities()[0].subtopic));
                    },
                    ReadingModel::EnergyExport(_) => {
                        assert(all[i].topic == sensor.value_topic_spec(published_quantities()[1].subtopic));
                    },
                    ReadingModel::PowerTotal(_) => {
                        assert(all[i].topic == sensor.value_topic_spec(published_quantities()[2].subtopic));
                    },
                    _ => {},
                }
            }
        }
    }
}


/// Each published quantity gets a unique id, and so a config topic, of its
/// own.
pub proof fn lemma_unique_ids_distinct(sensor: Sensor, node_id: Seq<char>, i: int, j: int)
    requires
        0 <= i < 3,
        0 <= j < 3,
        i != j,
    ensures
        unique_id_spec(sensor, published_quantities()[i]) != unique_id_spec(
            sensor,
            published_quantities()[j],
        ),
        config_topic_spec(sensor, node_id, published_quantities()[i]) != config_topic_spec(
            sensor,
            node_id,
            published_quantities()[j],
        ),
{
    reveal_strlit("energy_import");
    reveal_strlit("energy_export");
    reveal_strlit("power_total");
    let prefix = sensor.device_key_spec() + "_"@;
    let a = published_quantities()[i].subtopic;
    let b = published_quantities()[j].subtopic;
    assert(a != b) by {
        if a == b {
            assert(a[0] == b[0] && a[7] == b[7]);
        }
    }
    if unique_id_spec(sensor, published_quantities()[i]) == unique_id_spec(
        sensor,
        published_quantities()[j],
    ) {
        assert((prefix + a).skip(prefix.len() as int) =~= a);
        assert((prefix + b).skip(prefix.len() as int) =~= b);
    }
    let head = "homeassistant/sensor/"@ + node_id + "/"@;
    let tail = "/config"@;
    let ua = unique_id_spec(sensor, published_quantities()[i]);
    let ub = unique_id_spec(sensor, published_quantities()[j]);
    if config_topic_spec(sensor, node_id, published_quantities()[i]) == config_topic_spec(
        sensor,
        node_id,
        published_quantities()[j],
    ) {
        assert(head + ua + tail == head + ub + tail);
        assert((head + ua + tail).subrange(head.len() as int, (head.len() + ua.len()) as int) =~= ua);
        assert((head + ub + tail).subrange(head.len() as int, (head.len() + ub.len()) as int) =~= ub);
        assert(ua.len() == ub.len());
    }
}

} // verus!
