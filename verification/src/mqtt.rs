//! What is published to the MQTT broker: state topics and their values, and
//! the Home Assistant discovery configurations. The broker client itself
//! lives with the service; this module decides the messages.

use std::collections::HashMap;
use vstd::prelude::*;
use crate::calendar::{spec_utc_iso8601, unix_epoch_to_utc_iso8601};
use crate::protocol::{DataPayload, LoggerPayload, PvData, unix_time_now};
use crate::text::{
    chars_of, lemma_trim_idempotent, hex_digit, hex_digit_char, push_decimal, str_equal, push_hundredths, trim, trimmed_chars, push_signed_hundredths, push_str_chars, push_tenths,
    digit_char, spec_decimal, spec_hundredths, spec_signed_hundredths, spec_tenths, string_from_chars,
};

verus! {

/// First level of every state topic.
pub const TOPIC_PREFIX: &'static str = "deye-dummycloud";

/// One MQTT message: topic, payload and retain flag.
#[derive(Debug, Clone)]
pub struct Publication {
    pub topic: String,
    pub payload: String,
    pub retain: bool,
}

/// A message as sequences of characters.
pub struct PublicationView {
    pub topic: Seq<char>,
    pub payload: Seq<char>,
    pub retain: bool,
}

impl View for Publication {
    type V = PublicationView;

    open spec fn view(&self) -> PublicationView {
        PublicationView { topic: self.topic@, payload: self.payload@, retain: self.retain }
    }
}

/// The messages of a list, as views.
pub open spec fn publications_view(v: Seq<Publication>) -> Seq<PublicationView> {
    v.map_values(|p: Publication| p@)
}

/// A message with the given topic, payload and retain flag.
pub open spec fn message(topic: Seq<char>, payload: Seq<char>, retain: bool) -> PublicationView {
    PublicationView { topic, payload, retain }
}

/// `deye-dummycloud/<serial>`: the state topics of one logger start here.
pub open spec fn spec_base_topic(serial: nat) -> Seq<char> {
    TOPIC_PREFIX@ + seq!['/'] + spec_decimal(serial)
}

/// The messages for PV input `i` (counted from 1); the total energy is
/// published only when it is positive.
pub open spec fn pv_messages(base: Seq<char>, i: nat, pv: PvData) -> Seq<PublicationView> {
    let t = base + "/pv/"@ + spec_decimal(i);
    seq![
        message(t + "/v"@, spec_tenths(pv.v as nat), false),
        message(t + "/i"@, spec_tenths(pv.i as nat), false),
        message(t + "/w"@, spec_hundredths(pv.w as nat), false),
        message(t + "/kWh_today"@, spec_tenths(pv.kwh_today as nat), true),
    ] + if pv.kwh_total > 0 {
        seq![message(t + "/kWh_total"@, spec_tenths(pv.kwh_total as nat), true)]
    } else {
        Seq::empty()
    }
}

/// The messages for the first `n` PV inputs.
pub open spec fn pv_section(base: Seq<char>, pvs: Seq<PvData>, n: nat) -> Seq<PublicationView>
    decreases n,
{
    if n == 0 {
        Seq::empty()
    } else {
        pv_section(base, pvs, (n - 1) as nat) + pv_messages(base, n, pvs[n - 1])
    }
}

/// The grid and inverter messages; the total grid energy only when positive.
pub open spec fn grid_section(base: Seq<char>, d: DataPayload) -> Seq<PublicationView> {
    seq![
        message(base + "/grid/active_power_w"@, spec_decimal(d.grid.active_power_w as nat), false),
        message(base + "/grid/kWh_today"@, spec_hundredths(d.grid.kwh_today as nat), true),
    ] + (if d.grid.kwh_total > 0 {
        seq![message(base + "/grid/kWh_total"@, spec_tenths(d.grid.kwh_total as nat), true)]
    } else {
        Seq::empty()
    }) + seq![
        message(base + "/grid/v"@, spec_tenths(d.grid.v as nat), false),
        message(base + "/grid/hz"@, spec_hundredths(d.grid.hz as nat), false),
        message(
            base + "/inverter/radiator_temperature"@,
            spec_signed_hundredths(d.inverter.radiator_temp_celsius as int),
            false,
        ),
    ]
}

/// PV inputs that are published: as many as the inverter reports trackers,
/// but no more than were read.
pub open spec fn published_pv_count(d: DataPayload) -> nat {
    if (d.inverter_meta.mppt_count as nat) < d.pv@.len() {
        d.inverter_meta.mppt_count as nat
    } else {
        d.pv@.len()
    }
}

/// The state messages for one data payload of a logger.
pub open spec fn spec_data_publications(serial: nat, d: DataPayload) -> Seq<PublicationView> {
    let base = spec_base_topic(serial);
    pv_section(base, d.pv@, published_pv_count(d)) + grid_section(base, d)
}

fn base_topic(serial: u32) -> (res: Vec<char>)
    ensures
        res@ == spec_base_topic(serial as nat),
{
    let mut t: Vec<char> = Vec::new();
    push_str_chars(&mut t, TOPIC_PREFIX);
    t.push('/');
    push_decimal(&mut t, serial as u64);
    assert(t@ =~= spec_base_topic(serial as nat));
    t
}

fn topic_with(base: &Vec<char>, suffix: &str) -> (res: String)
    ensures
        res@ == base@ + suffix@,
{
    let mut t = base.clone();
    push_str_chars(&mut t, suffix);
    string_from_chars(&t)
}

fn publication(topic: String, payload: &Vec<char>, retain: bool) -> (res: Publication)
    ensures
        res@ == message(topic@, payload@, retain),
{
    Publication { topic, payload: string_from_chars(payload), retain }
}

fn push_pv_messages(out: &mut Vec<Publication>, base: &Vec<char>, i: u8, pv: PvData)
    ensures
        publications_view(final(out)@) == publications_view(old(out)@) + pv_messages(base@, i as nat, pv),
{
    let mut t = base.clone();
    push_str_chars(&mut t, "/pv/");
    push_decimal(&mut t, i as u64);
    let ghost start = publications_view(out@);

    let mut v: Vec<char> = Vec::new();
    push_tenths(&mut v, pv.v as u64);
    out.push(publication(topic_with(&t, "/v"), &v, false));

    let mut c: Vec<char> = Vec::new();
    push_tenths(&mut c, pv.i as u64);
    out.push(publication(topic_with(&t, "/i"), &c, false));

    let mut w: Vec<char> = Vec::new();
    push_hundredths(&mut w, pv.w as u64);
    out.push(publication(topic_with(&t, "/w"), &w, false));

    let mut today: Vec<char> = Vec::new();
    push_tenths(&mut today, pv.kwh_today as u64);
    out.push(publication(topic_with(&t, "/kWh_today"), &today, true));

    if pv.kwh_total > 0 {
        let mut total: Vec<char> = Vec::new();
        push_tenths(&mut total, pv.kwh_total as u64);
        out.push(publication(topic_with(&t, "/kWh_total"), &total, true));
    }
    assert(publications_view(out@) =~= start + pv_messages(base@, i as nat, pv));
}

fn push_grid_messages(out: &mut Vec<Publication>, base: &Vec<char>, data: &DataPayload)
    ensures
        publications_view(final(out)@) == publications_view(old(out)@) + grid_section(base@, *data),
{
    let ghost start = publications_view(out@);
    let mut p: Vec<char> = Vec::new();
    push_decimal(&mut p, data.grid.active_power_w as u64);
    out.push(publication(topic_with(base, "/grid/active_power_w"), &p, false));

    let mut today: Vec<char> = Vec::new();
    push_hundredths(&mut today, data.grid.kwh_today as u64);
    out.push(publication(topic_with(base, "/grid/kWh_today"), &today, true));

    if data.grid.kwh_total > 0 {
        let mut total: Vec<char> = Vec::new();
        push_tenths(&mut total, data.grid.kwh_total as u64);
        out.push(publication(topic_with(base, "/grid/kWh_total"), &total, true));
    }

    let mut v: Vec<char> = Vec::new();
    push_tenths(&mut v, data.grid.v as u64);
    out.push(publication(topic_with(base, "/grid/v"), &v, false));

    let mut hz: Vec<char> = Vec::new();
    push_hundredths(&mut hz, data.grid.hz as u64);
    out.push(publication(topic_with(base, "/grid/hz"), &hz, false));

    let mut temp: Vec<char> = Vec::new();
    push_signed_hundredths(&mut temp, data.inverter.radiator_temp_celsius as i64);
    out.push(publication(topic_with(base, "/inverter/radiator_temperature"), &temp, false));
    assert(publications_view(out@) =~= start + grid_section(base@, *data));
}

/// The state messages for a data payload of logger `logger_serial`, in
/// publishing order; `None` for a payload without trackers (historic or
/// unsupported), which is not published. The inverter efficiency, a ratio
/// of floating-point sums, is not among them.
pub fn data_publications(logger_serial: u32, data: &DataPayload) -> (res: Option<Vec<Publication>>)
    ensures
        data.inverter_meta.mppt_count == 0 <==> res is None,
        res matches Some(v) ==> publications_view(v@) == spec_data_publications(logger_serial as nat, *data),
{
    if data.inverter_meta.mppt_count == 0 {
        return None;
    }
    let base = base_topic(logger_serial);
    let count: u8 = if (data.inverter_meta.mppt_count as usize) < data.pv.len() {
        data.inverter_meta.mppt_count
    } else {
        data.pv.len() as u8
    };
    let mut out: Vec<Publication> = Vec::new();
    let mut i: usize = 1;
    assert(publications_view(out@) =~= pv_section(base@, data.pv@, 0));
    while i <= count as usize
        invariant
            1 <= i <= count as int + 1,
            count == published_pv_count(*data),
            count <= data.pv@.len(),
            publications_view(out@) == pv_section(base@, data.pv@, (i - 1) as nat),
        decreases count as int + 1 - i,
    {
        push_pv_messages(&mut out, &base, i as u8, data.pv[i - 1]);
        i = i + 1;
    }
    assert(publications_view(out@) == pv_section(base@, data.pv@, count as nat));
    push_grid_messages(&mut out, &base, data);
    Some(out)
}

/// The inverter efficiency message: `payload` (the efficiency as the caller
/// formatted it) on `<base>/inverter/efficiency`, not retained.
pub open spec fn spec_efficiency_message(serial: nat, payload: Seq<char>) -> PublicationView {
    message(spec_base_topic(serial) + "/inverter/efficiency"@, payload, false)
}

/// The message that carries the inverter efficiency of logger
/// `logger_serial`; the value itself is computed in floating point by the
/// caller.
pub fn efficiency_publication(logger_serial: u32, payload: String) -> (res: Publication)
    ensures
        res@ == spec_efficiency_message(logger_serial as nat, payload@),
{
    let base = base_topic(logger_serial);
    Publication { topic: topic_with(&base, "/inverter/efficiency"), payload, retain: false }
}

/// Every state message of a data payload in publishing order: those of
/// `data_publications`, closed by the efficiency message with
/// `efficiency` as its payload; `None` for a payload without trackers.
pub fn state_publications(logger_serial: u32, data: &DataPayload, efficiency: String) -> (res: Option<Vec<Publication>>)
    ensures
        data.inverter_meta.mppt_count == 0 <==> res is None,
        res matches Some(v) ==> publications_view(v@) == spec_data_publications(logger_serial as nat, *data)
            + seq![spec_efficiency_message(logger_serial as nat, efficiency@)],
{
    match data_publications(logger_serial, data) {
        None => None,
        Some(mut v) => {
            let ghost start = publications_view(v@);
            v.push(efficiency_publication(logger_serial, efficiency));
            assert(publications_view(v@) =~= start + seq![spec_efficiency_message(logger_serial as nat, efficiency@)]);
            Some(v)
        },
    }
}


// ---------------------------------------------------------------------------
// Logger metadata and Home Assistant discovery payloads
// ---------------------------------------------------------------------------

/// A string option as an option of character sequences.
pub open spec fn opt_view(o: Option<String>) -> Option<Seq<char>> {
    match o {
        Some(s) => Some(s@),
        None => None,
    }
}

/// A string slice option as an option of character sequences.
pub open spec fn opt_str_view(o: Option<&str>) -> Option<Seq<char>> {
    match o {
        Some(s) => Some(s@),
        None => None,
    }
}

/// The trimmed text, unless nothing is left of it.
pub open spec fn spec_non_empty(s: Seq<char>) -> Option<Seq<char>> {
    if trim(s).len() == 0 { None } else { Some(trim(s)) }
}

fn owned(s: &str) -> (res: String)
    ensures
        res@ == s@,
{
    string_from_chars(&chars_of(s))
}

fn owned_opt(o: Option<&str>) -> (res: Option<String>)
    ensures
        opt_view(res) == opt_str_view(o),
{
    match o {
        Some(s) => Some(owned(s)),
        None => None,
    }
}

fn clone_opt(o: &Option<String>) -> (res: Option<String>)
    ensures
        opt_view(res) == opt_view(*o),
{
    match o {
        Some(s) => Some(s.clone()),
        None => None,
    }
}

/// The text with surrounding whitespace removed, or `None` when nothing is
/// left of it.
pub fn non_empty(value: &str) -> (res: Option<String>)
    ensures
        opt_view(res) == spec_non_empty(value@),
{
    let t = trimmed_chars(value);
    if t.len() == 0 {
        None
    } else {
        Some(string_from_chars(&t))
    }
}

/// A text that `non_empty` returns is its own result again: trimming an
/// already trimmed, non-empty text keeps it as it is.
pub proof fn lemma_non_empty_idempotent(s: Seq<char>)
    ensures
        spec_non_empty(s) matches Some(t) ==> spec_non_empty(t) == Some(t),
{
    lemma_trim_idempotent(s);
}

/// What is known about a logger from its handshake.
#[derive(Debug, Clone, Default)]
pub struct LoggerMetadata {
    pub ip_address: Option<String>,
    pub mac_address: Option<String>,
    pub firmware_version: Option<String>,
    pub hardware_version: Option<String>,
    pub wifi_ssid: Option<String>,
}

/// `md` is what a handshake from `remote` with logger payload `logger` tells
/// (see `LoggerMetadata::from_handshake`).
pub open spec fn is_handshake_metadata(md: LoggerMetadata, remote: Seq<char>, logger: LoggerPayload) -> bool {
    &&& opt_view(md.ip_address) == match spec_non_empty(logger.ip@) {
        Some(ip) => Some(ip),
        None => spec_non_empty(remote),
    }
    &&& opt_view(md.mac_address) == opt_view(logger.mac)
    &&& opt_view(md.firmware_version) == spec_non_empty(logger.fw_ver@)
    &&& opt_view(md.hardware_version) == spec_non_empty(logger.ver@)
    &&& opt_view(md.wifi_ssid) == spec_non_empty(logger.ssid@)
}

impl LoggerMetadata {
    /// Metadata from a handshake: blank texts count as absent, and the IP
    /// address falls back to the address the connection came from.
    pub fn from_handshake(remote_address: &str, logger: &LoggerPayload) -> (res: Self)
        ensures
            opt_view(res.ip_address) == match spec_non_empty(logger.ip@) {
                Some(ip) => Some(ip),
                None => spec_non_empty(remote_address@),
            },
            opt_view(res.mac_address) == opt_view(logger.mac),
            opt_view(res.firmware_version) == spec_non_empty(logger.fw_ver@),
            opt_view(res.hardware_version) == spec_non_empty(logger.ver@),
            opt_view(res.wifi_ssid) == spec_non_empty(logger.ssid@),
    {
        let ip_address = match non_empty(logger.ip.as_str()) {
            Some(ip) => Some(ip),
            None => non_empty(remote_address),
        };
        LoggerMetadata {
            ip_address,
            mac_address: clone_opt(&logger.mac),
            firmware_version: non_empty(logger.fw_ver.as_str()),
            hardware_version: non_empty(logger.ver.as_str()),
            wifi_ssid: non_empty(logger.ssid.as_str()),
        }
    }
}

/// The device block of a discovery configuration.
#[derive(Debug)]
pub struct DeviceInfo {
    pub manufacturer: String,
    pub model: String,
    pub name: String,
    pub configuration_url: String,
    pub identifiers: Vec<String>,
    pub serial_number: String,
    pub sw_version: Option<String>,
    pub hw_version: Option<String>,
    /// `(kind, value)` pairs; the MAC address when it is known.
    pub connections: Vec<(String, String)>,
}

/// A device block as sequences of characters.
pub struct DeviceInfoView {
    pub manufacturer: Seq<char>,
    pub model: Seq<char>,
    pub name: Seq<char>,
    pub configuration_url: Seq<char>,
    pub identifiers: Seq<Seq<char>>,
    pub serial_number: Seq<char>,
    pub sw_version: Option<Seq<char>>,
    pub hw_version: Option<Seq<char>>,
    pub connections: Seq<(Seq<char>, Seq<char>)>,
}

impl View for DeviceInfo {
    type V = DeviceInfoView;

    open spec fn view(&self) -> DeviceInfoView {
        DeviceInfoView {
            manufacturer: self.manufacturer@,
            model: self.model@,
            name: self.name@,
            configuration_url: self.configuration_url@,
            identifiers: self.identifiers@.map_values(|s: String| s@),
            serial_number: self.serial_number@,
            sw_version: opt_view(self.sw_version),
            hw_version: opt_view(self.hw_version),
            connections: self.connections@.map_values(|c: (String, String)| (c.0@, c.1@)),
        }
    }
}

/// The device block for a logger, from its serial, the address it connects
/// from and what its handshake told.
pub open spec fn spec_device(serial: Seq<char>, remote: Seq<char>, metadata: Option<LoggerMetadata>) -> DeviceInfoView {
    DeviceInfoView {
        manufacturer: "Deye"@,
        model: "Microinverter"@,
        name: "Deye Microinverter "@ + serial,
        configuration_url: "http://"@ + remote + "/index_cn.html"@,
        identifiers: seq!["deye_dummycloud_"@ + serial],
        serial_number: serial,
        sw_version: match metadata {
            Some(m) => opt_view(m.firmware_version),
            None => None,
        },
        hw_version: match metadata {
            Some(m) => opt_view(m.hardware_version),
            None => None,
        },
        connections: match metadata {
            Some(m) => match m.mac_address {
                Some(mac) => seq![("mac"@, mac@)],
                None => Seq::empty(),
            },
            None => Seq::empty(),
        },
    }
}

fn concat_owned(a: &str, b: &str, c: &str) -> (res: String)
    ensures
        res@ == a@ + b@ + c@,
{
    let mut v = chars_of(a);
    push_str_chars(&mut v, b);
    push_str_chars(&mut v, c);
    string_from_chars(&v)
}

/// The device block of the discovery configurations of a logger.
pub fn device_payload(logger_serial: &str, remote_address: &str, metadata: Option<&LoggerMetadata>) -> (res: DeviceInfo)
    ensures
        res@ == spec_device(logger_serial@, remote_address@, match metadata {
            Some(m) => Some(*m),
            None => None,
        }),
{
    let mut identifiers: Vec<String> = Vec::new();
    identifiers.push(concat_owned("deye_dummycloud_", logger_serial, ""));
    let mut sw_version = None;
    let mut hw_version = None;
    let mut connections: Vec<(String, String)> = Vec::new();
    match metadata {
        Some(m) => {
            sw_version = clone_opt(&m.firmware_version);
            hw_version = clone_opt(&m.hardware_version);
            match &m.mac_address {
                Some(mac) => connections.push((owned("mac"), mac.clone())),
                None => {},
            }
        },
        None => {},
    }
    let res = DeviceInfo {
        manufacturer: owned("Deye"),
        model: owned("Microinverter"),
        name: concat_owned("Deye Microinverter ", logger_serial, ""),
        configuration_url: concat_owned("http://", remote_address, "/index_cn.html"),
        identifiers,
        serial_number: owned(logger_serial),
        sw_version,
        hw_version,
        connections,
    };
    proof {
        reveal_strlit("");
    }
    assert(res@.identifiers =~= seq!["deye_dummycloud_"@ + logger_serial@]);
    assert(res@.name =~= "Deye Microinverter "@ + logger_serial@);
    let ghost md = match metadata {
        Some(m) => Some(*m),
        None => None,
    };
    assert(res@.connections =~= spec_device(logger_serial@, remote_address@, md).connections);
    res
}


fn clone_device(d: &DeviceInfo) -> (res: DeviceInfo)
    ensures
        res@ == d@,
{
    let mut identifiers: Vec<String> = Vec::new();
    let mut i: usize = 0;
    while i < d.identifiers.len()
        invariant
            i <= d.identifiers@.len(),
            identifiers@.len() == i,
            forall|k: int| 0 <= k < i ==> identifiers@[k]@ == d.identifiers@[k]@,
        decreases d.identifiers@.len() - i,
    {
        identifiers.push(d.identifiers[i].clone());
        i = i + 1;
    }
    let mut connections: Vec<(String, String)> = Vec::new();
    let mut j: usize = 0;
    while j < d.connections.len()
        invariant
            j <= d.connections@.len(),
            connections@.len() == j,
            forall|k: int| 0 <= k < j ==> connections@[k].0@ == d.connections@[k].0@ && connections@[k].1@ == d.connections@[k].1@,
        decreases d.connections@.len() - j,
    {
        let c = &d.connections[j];
        connections.push((c.0.clone(), c.1.clone()));
        j = j + 1;
    }
    assert(identifiers@.map_values(|s: String| s@) =~= d.identifiers@.map_values(|s: String| s@));
    assert(connections@.map_values(|c: (String, String)| (c.0@, c.1@)) =~= d.connections@.map_values(|c: (String, String)| (c.0@, c.1@)));
    DeviceInfo {
        manufacturer: d.manufacturer.clone(),
        model: d.model.clone(),
        name: d.name.clone(),
        configuration_url: d.configuration_url.clone(),
        identifiers,
        serial_number: d.serial_number.clone(),
        sw_version: clone_opt(&d.sw_version),
        hw_version: clone_opt(&d.hw_version),
        connections,
    }
}

/// A Home Assistant MQTT discovery configuration for one entity.
#[derive(Debug)]
pub struct SensorConfig {
    pub state_topic: String,
    pub name: String,
    pub object_id: String,
    pub unique_id: String,
    pub device: DeviceInfo,
    pub unit_of_measurement: Option<String>,
    pub device_class: Option<String>,
    pub state_class: Option<String>,
    pub expire_after: Option<u16>,
    pub enabled_by_default: Option<bool>,
    pub entity_category: Option<String>,
    pub icon: Option<String>,
    pub value_template: Option<String>,
}

/// A discovery configuration as sequences of characters.
pub struct SensorConfigView {
    pub state_topic: Seq<char>,
    pub name: Seq<char>,
    pub object_id: Seq<char>,
    pub unique_id: Seq<char>,
    pub device: DeviceInfoView,
    pub unit_of_measurement: Option<Seq<char>>,
    pub device_class: Option<Seq<char>>,
    pub state_class: Option<Seq<char>>,
    pub expire_after: Option<u16>,
    pub enabled_by_default: Option<bool>,
    pub entity_category: Option<Seq<char>>,
    pub icon: Option<Seq<char>>,
    pub value_template: Option<Seq<char>>,
}

impl View for SensorConfig {
    type V = SensorConfigView;

    open spec fn view(&self) -> SensorConfigView {
        SensorConfigView {
            state_topic: self.state_topic@,
            name: self.name@,
            object_id: self.object_id@,
            unique_id: self.unique_id@,
            device: self.device@,
            unit_of_measurement: opt_view(self.unit_of_measurement),
            device_class: opt_view(self.device_class),
            state_class: opt_view(self.state_class),
            expire_after: self.expire_after,
            enabled_by_default: self.enabled_by_default,
            entity_category: opt_view(self.entity_category),
            icon: opt_view(self.icon),
            value_template: opt_view(self.value_template),
        }
    }
}

/// A sensor configuration: its state topic is `<base>/<suffix>`, object and
/// unique id coincide, and the efficiency sensor reads its value as JSON.
pub open spec fn spec_sensor(
    base: Seq<char>,
    suffix: Seq<char>,
    name: Seq<char>,
    unit: Option<Seq<char>>,
    device_class: Option<Seq<char>>,
    state_class: Option<Seq<char>>,
    id: Seq<char>,
    expire_after: Option<u16>,
    enabled_by_default: Option<bool>,
    entity_category: Option<Seq<char>>,
    icon: Option<Seq<char>>,
    device: DeviceInfoView,
) -> SensorConfigView {
    SensorConfigView {
        state_topic: base + seq!['/'] + suffix,
        name,
        object_id: id,
        unique_id: id,
        device,
        unit_of_measurement: unit,
        device_class,
        state_class,
        expire_after,
        enabled_by_default,
        entity_category,
        icon,
        value_template: if suffix == "inverter/efficiency"@ { Some("{{ value_json }}"@) } else { None },
    }
}

/// A text sensor configuration: like a sensor, with no unit, classes,
/// expiry or default enablement.
pub open spec fn spec_text_sensor(
    base: Seq<char>,
    suffix: Seq<char>,
    name: Seq<char>,
    id: Seq<char>,
    entity_category: Option<Seq<char>>,
    icon: Option<Seq<char>>,
    device: DeviceInfoView,
) -> SensorConfigView {
    SensorConfigView {
        state_topic: base + seq!['/'] + suffix,
        name,
        object_id: id,
        unique_id: id,
        device,
        unit_of_measurement: None,
        device_class: None,
        state_class: None,
        expire_after: None,
        enabled_by_default: None,
        entity_category,
        icon,
        value_template: None,
    }
}

fn state_topic(base_topic: &str, topic_suffix: &str) -> (res: String)
    ensures
        res@ == base_topic@ + seq!['/'] + topic_suffix@,
{
    let mut v = chars_of(base_topic);
    v.push('/');
    push_str_chars(&mut v, topic_suffix);
    string_from_chars(&v)
}

/// The discovery configuration of a numeric sensor.
#[allow(clippy::too_many_arguments)]
pub fn sensor_payload(
    base_topic: &str,
    topic_suffix: &str,
    name: &str,
    unit_of_measurement: Option<&str>,
    device_class: Option<&str>,
    state_class: Option<&str>,
    object_and_unique_id: &str,
    expire_after: Option<u16>,
    enabled_by_default: Option<bool>,
    entity_category: Option<&str>,
    icon: Option<&str>,
    device: &DeviceInfo,
) -> (res: SensorConfig)
    ensures
        res@ == spec_sensor(
            base_topic@,
            topic_suffix@,
            name@,
            opt_str_view(unit_of_measurement),
            opt_str_view(device_class),
            opt_str_view(state_class),
            object_and_unique_id@,
            expire_after,
            enabled_by_default,
            opt_str_view(entity_category),
            opt_str_view(icon),
            device@,
        ),
{
    let is_efficiency = str_equal(topic_suffix, "inverter/efficiency");
    let value_template = if is_efficiency { Some(owned("{{ value_json }}")) } else { None };
    SensorConfig {
        state_topic: state_topic(base_topic, topic_suffix),
        name: owned(name),
        object_id: owned(object_and_unique_id),
        unique_id: owned(object_and_unique_id),
        device: clone_device(device),
        unit_of_measurement: owned_opt(unit_of_measurement),
        device_class: owned_opt(device_class),
        state_class: owned_opt(state_class),
        expire_after,
        enabled_by_default,
        entity_category: owned_opt(entity_category),
        icon: owned_opt(icon),
        value_template,
    }
}

/// The discovery configuration of a text sensor.
pub fn text_sensor_payload(
    base_topic: &str,
    topic_suffix: &str,
    name: &str,
    object_and_unique_id: &str,
    entity_category: Option<&str>,
    icon: Option<&str>,
    device: &DeviceInfo,
) -> (res: SensorConfig)
    ensures
        res@ == spec_text_sensor(
            base_topic@,
            topic_suffix@,
            name@,
            object_and_unique_id@,
            opt_str_view(entity_category),
            opt_str_view(icon),
            device@,
        ),
{
    SensorConfig {
        state_topic: state_topic(base_topic, topic_suffix),
        name: owned(name),
        object_id: owned(object_and_unique_id),
        unique_id: owned(object_and_unique_id),
        device: clone_device(device),
        unit_of_measurement: None,
        device_class: None,
        state_class: None,
        expire_after: None,
        enabled_by_default: None,
        entity_category: owned_opt(entity_category),
        icon: owned_opt(icon),
        value_template: None,
    }
}


/// A discovery configuration with the topic it is published on and whether
/// the broker keeps it.
#[derive(Debug)]
pub struct DiscoveryMessage {
    pub topic: String,
    pub config: SensorConfig,
    pub retain: bool,
}

/// A discovery message as sequences of characters.
pub struct DiscoveryView {
    pub topic: Seq<char>,
    pub config: SensorConfigView,
    pub retain: bool,
}

impl View for DiscoveryMessage {
    type V = DiscoveryView;

    open spec fn view(&self) -> DiscoveryView {
        DiscoveryView { topic: self.topic@, config: self.config@, retain: self.retain }
    }
}

/// The discovery messages of a list, as views.
pub open spec fn discoveries_view(v: Seq<DiscoveryMessage>) -> Seq<DiscoveryView> {
    v.map_values(|d: DiscoveryMessage| d@)
}

/// `homeassistant/<component>/deye_dummycloud_<serial>/<serial>_<key>/config`.
pub open spec fn discovery_topic(component: Seq<char>, serial: Seq<char>, key: Seq<char>) -> Seq<char> {
    "homeassistant/"@ + component + "/deye_dummycloud_"@ + serial + seq!['/'] + serial + seq!['_'] + key
        + "/config"@
}

/// `deye_dummycloud_<serial>_<key>`: object and unique id of an entity.
pub open spec fn entity_id(serial: Seq<char>, key: Seq<char>) -> Seq<char> {
    "deye_dummycloud_"@ + serial + seq!['_'] + key
}

/// A discovery message for entity `key` of a logger; the broker retains it.
pub open spec fn discovery(component: Seq<char>, serial: Seq<char>, key: Seq<char>, config: SensorConfigView) -> DiscoveryView {
    DiscoveryView { topic: discovery_topic(component, serial, key), config, retain: true }
}

/// The five sensors of PV input `i`; the first two inputs are enabled by
/// default, the others not.
pub open spec fn pv_entries(serial: Seq<char>, base: Seq<char>, device: DeviceInfoView, i: nat) -> Seq<DiscoveryView> {
    let n = spec_decimal(i);
    let enabled = Some(i < 3);
    seq![
        discovery("sensor"@, serial, "pv"@ + n + "_v"@, spec_sensor(base, "pv/"@ + n + "/v"@, "PV "@ + n + " Voltage"@, Some("V"@), Some("voltage"@), Some("measurement"@), entity_id(serial, "pv_"@ + n + "_v"@), Some(360u16), enabled, None, None, device)),
        discovery("sensor"@, serial, "pv"@ + n + "_i"@, spec_sensor(base, "pv/"@ + n + "/i"@, "PV "@ + n + " Current"@, Some("A"@), Some("current"@), Some("measurement"@), entity_id(serial, "pv_"@ + n + "_i"@), Some(360u16), enabled, None, None, device)),
        discovery("sensor"@, serial, "pv"@ + n + "_w"@, spec_sensor(base, "pv/"@ + n + "/w"@, "PV "@ + n + " Power"@, Some("W"@), Some("power"@), Some("measurement"@), entity_id(serial, "pv_"@ + n + "_w"@), Some(360u16), enabled, None, None, device)),
        discovery("sensor"@, serial, "pv"@ + n + "_kWh_today"@, spec_sensor(base, "pv/"@ + n + "/kWh_today"@, "PV "@ + n + " Energy Today"@, Some("kWh"@), Some("energy"@), Some("total_increasing"@), entity_id(serial, "pv_"@ + n + "_kWh_today"@), None, enabled, None, None, device)),
        discovery("sensor"@, serial, "pv"@ + n + "_kWh_total"@, spec_sensor(base, "pv/"@ + n + "/kWh_total"@, "PV "@ + n + " Energy Total"@, Some("kWh"@), Some("energy"@), Some("total_increasing"@), entity_id(serial, "pv_"@ + n + "_kWh_total"@), None, enabled, None, None, device)),
    ]
}

/// The sensors of the first `n` PV inputs.
pub open spec fn pv_entries_upto(serial: Seq<char>, base: Seq<char>, device: DeviceInfoView, n: nat) -> Seq<DiscoveryView>
    decreases n,
{
    if n == 0 {
        Seq::empty()
    } else {
        pv_entries_upto(serial, base, device, (n - 1) as nat) + pv_entries(serial, base, device, n)
    }
}

/// Grid and inverter sensors.
pub open spec fn inverter_entries(serial: Seq<char>, base: Seq<char>, device: DeviceInfoView) -> Seq<DiscoveryView> {
    seq![
        discovery("sensor"@, serial, "grid_active_power_w"@, spec_sensor(base, "grid/active_power_w"@, "Grid Power (Active)"@, Some("W"@), Some("power"@), Some("measurement"@), entity_id(serial, "grid_active_power_w"@), Some(360u16), None, None, None, device)),
        discovery("sensor"@, serial, "grid_kWh_today"@, spec_sensor(base, "grid/kWh_today"@, "Grid Energy Today"@, Some("kWh"@), Some("energy"@), Some("total_increasing"@), entity_id(serial, "grid_energy_today"@), None, None, None, None, device)),
        discovery("sensor"@, serial, "grid_kWh_total"@, spec_sensor(base, "grid/kWh_total"@, "Grid Energy Total"@, Some("kWh"@), Some("energy"@), Some("total_increasing"@), entity_id(serial, "grid_energy_total"@), None, None, None, None, device)),
        discovery("sensor"@, serial, "grid_v"@, spec_sensor(base, "grid/v"@, "Grid Voltage"@, Some("V"@), Some("voltage"@), Some("measurement"@), entity_id(serial, "grid_v"@), Some(360u16), None, None, None, device)),
        discovery("sensor"@, serial, "grid_hz"@, spec_sensor(base, "grid/hz"@, "Grid Frequency"@, Some("Hz"@), Some("frequency"@), Some("measurement"@), entity_id(serial, "grid_hz"@), Some(360u16), None, None, None, device)),
        discovery("sensor"@, serial, "inverter_radiator_temperature"@, spec_sensor(base, "inverter/radiator_temperature"@, "Radiator Temperature"@, Some("\u{00b0}C"@), Some("temperature"@), Some("measurement"@), entity_id(serial, "inverter_radiator_temperature"@), Some(360u16), None, None, None, device)),
        discovery("sensor"@, serial, "inverter_efficiency"@, spec_sensor(base, "inverter/efficiency"@, "Inverter Efficiency"@, Some("%"@), None, Some("measurement"@), entity_id(serial, "inverter_efficiency"@), Some(360u16), None, Some("diagnostic"@), Some("mdi:cog-transfer"@), device)),
    ]
}

/// Logger diagnostic entities.
pub open spec fn logger_entries(serial: Seq<char>, base: Seq<char>, device: DeviceInfoView) -> Seq<DiscoveryView> {
    seq![
        discovery("text_sensor"@, serial, "logger_serial_number"@, spec_text_sensor(base, "logger/serial_number"@, "Logger Serial Number"@, entity_id(serial, "logger_serial_number"@), Some("diagnostic"@), Some("mdi:barcode"@), device)),
        discovery("text_sensor"@, serial, "logger_ip_address"@, spec_text_sensor(base, "logger/ip_address"@, "Logger IP Address"@, entity_id(serial, "logger_ip_address"@), Some("diagnostic"@), Some("mdi:ip-network"@), device)),
        discovery("text_sensor"@, serial, "logger_mac_address"@, spec_text_sensor(base, "logger/mac_address"@, "Logger MAC Address"@, entity_id(serial, "logger_mac_address"@), Some("diagnostic"@), Some("mdi:network-outline"@), device)),
        discovery("text_sensor"@, serial, "logger_firmware_version"@, spec_text_sensor(base, "logger/firmware_version"@, "Logger Firmware Version"@, entity_id(serial, "logger_firmware_version"@), Some("diagnostic"@), Some("mdi:chip"@), device)),
        discovery("text_sensor"@, serial, "logger_hardware_version"@, spec_text_sensor(base, "logger/hardware_version"@, "Logger Hardware Version"@, entity_id(serial, "logger_hardware_version"@), Some("diagnostic"@), Some("mdi:developer-board"@), device)),
        discovery("sensor"@, serial, "logger_uptime_seconds"@, spec_sensor(base, "logger/uptime_seconds"@, "Logger Uptime"@, Some("s"@), Some("duration"@), Some("measurement"@), entity_id(serial, "logger_uptime_seconds"@), None, None, Some("diagnostic"@), Some("mdi:timer-outline"@), device)),
        discovery("sensor"@, serial, "logger_report_time"@, spec_sensor(base, "logger/report_time"@, "Logger Report Time"@, None, Some("timestamp"@), None, entity_id(serial, "logger_report_time"@), None, None, Some("diagnostic"@), Some("mdi:clock-outline"@), device)),
        discovery("sensor"@, serial, "logger_last_reboot"@, spec_sensor(base, "logger/last_reboot"@, "Logger Last Reboot"@, None, Some("timestamp"@), None, entity_id(serial, "logger_last_reboot"@), None, None, Some("diagnostic"@), Some("mdi:restart"@), device)),
        discovery("sensor"@, serial, "logger_wifi_signal"@, spec_sensor(base, "logger/wifi_signal"@, "Logger WiFi Signal"@, Some("%"@), None, Some("measurement"@), entity_id(serial, "logger_wifi_signal"@), None, None, Some("diagnostic"@), Some("mdi:wifi"@), device)),
        discovery("text_sensor"@, serial, "logger_wifi_ssid"@, spec_text_sensor(base, "logger/wifi_ssid"@, "Logger WiFi SSID"@, entity_id(serial, "logger_wifi_ssid"@), Some("diagnostic"@), Some("mdi:wifi-settings"@), device)),
    ]
}

/// Every discovery configuration of a logger, in publishing order: the PV
/// sensors of each tracker, then grid and inverter sensors, then the logger
/// diagnostics. All share the device block of the logger.
pub open spec fn spec_autoconf(serial: Seq<char>, remote: Seq<char>, mppt_count: nat, metadata: Option<LoggerMetadata>) -> Seq<DiscoveryView> {
    let device = spec_device(serial, remote, metadata);
    let base = TOPIC_PREFIX@ + seq!['/'] + serial;
    pv_entries_upto(serial, base, device, mppt_count) + inverter_entries(serial, base, device)
        + logger_entries(serial, base, device)
}

fn entity_id_exec(logger_serial: &str, key: &str) -> (res: String)
    ensures
        res@ == entity_id(logger_serial@, key@),
{
    let mut v = chars_of("deye_dummycloud_");
    push_str_chars(&mut v, logger_serial);
    v.push('_');
    push_str_chars(&mut v, key);
    string_from_chars(&v)
}

fn discovery_message(component: &str, logger_serial: &str, key: &str, config: SensorConfig) -> (res: DiscoveryMessage)
    ensures
        res@ == discovery(component@, logger_serial@, key@, config@),
{
    let mut v = chars_of("homeassistant/");
    push_str_chars(&mut v, component);
    push_str_chars(&mut v, "/deye_dummycloud_");
    push_str_chars(&mut v, logger_serial);
    v.push('/');
    push_str_chars(&mut v, logger_serial);
    v.push('_');
    push_str_chars(&mut v, key);
    push_str_chars(&mut v, "/config");
    assert(v@ =~= discovery_topic(component@, logger_serial@, key@));
    DiscoveryMessage { topic: string_from_chars(&v), config, retain: true }
}

fn numbered(prefix: &str, i: u8, suffix: &str) -> (res: String)
    ensures
        res@ == prefix@ + spec_decimal(i as nat) + suffix@,
{
    let mut v = chars_of(prefix);
    push_decimal(&mut v, i as u64);
    push_str_chars(&mut v, suffix);
    string_from_chars(&v)
}

fn push_pv_entries(out: &mut Vec<DiscoveryMessage>, logger_serial: &str, base_topic: &str, device: &DeviceInfo, i: u8)
    ensures
        discoveries_view(final(out)@) == discoveries_view(old(out)@) + pv_entries(logger_serial@, base_topic@, device@, i as nat),
{
    let ghost start = discoveries_view(out@);
    let enabled = Some(i < 3);
    {
        let suffix = numbered("pv/", i, "/v");
        let name = numbered("PV ", i, " Voltage");
        let id_key = numbered("pv_", i, "_v");
        let id = entity_id_exec(logger_serial, id_key.as_str());
        let config = sensor_payload(base_topic, suffix.as_str(), name.as_str(), Some("V"), Some("voltage"), Some("measurement"), id.as_str(), Some(360), enabled, None, None, device);
        let key = numbered("pv", i, "_v");
        out.push(discovery_message("sensor", logger_serial, key.as_str(), config));
    }
    {
        let suffix = numbered("pv/", i, "/i");
        let name = numbered("PV ", i, " Current");
        let id_key = numbered("pv_", i, "_i");
        let id = entity_id_exec(logger_serial, id_key.as_str());
        let config = sensor_payload(base_topic, suffix.as_str(), name.as_str(), Some("A"), Some("current"), Some("measurement"), id.as_str(), Some(360), enabled, None, None, device);
        let key = numbered("pv", i, "_i");
        out.push(discovery_message("sensor", logger_serial, key.as_str(), config));
    }
    {
        let suffix = numbered("pv/", i, "/w");
        let name = numbered("PV ", i, " Power");
        let id_key = numbered("pv_", i, "_w");
        let id = entity_id_exec(logger_serial, id_key.as_str());
        let config = sensor_payload(base_topic, suffix.as_str(), name.as_str(), Some("W"), Some("power"), Some("measurement"), id.as_str(), Some(360), enabled, None, None, device);
        let key = numbered("pv", i, "_w");
        out.push(discovery_message("sensor", logger_serial, key.as_str(), config));
    }
    {
        let suffix = numbered("pv/", i, "/kWh_today");
        let name = numbered("PV ", i, " Energy Today");
        let id_key = numbered("pv_", i, "_kWh_today");
        let id = entity_id_exec(logger_serial, id_key.as_str());
        let config = sensor_payload(base_topic, suffix.as_str(), name.as_str(), Some("kWh"), Some("energy"), Some("total_increasing"), id.as_str(), None, enabled, None, None, device);
        let key = numbered("pv", i, "_kWh_today");
        out.push(discovery_message("sensor", logger_serial, key.as_str(), config));
    }
    {
        let suffix = numbered("pv/", i, "/kWh_total");
        let name = numbered("PV ", i, " Energy Total");
        let id_key = numbered("pv_", i, "_kWh_total");
        let id = entity_id_exec(logger_serial, id_key.as_str());
        let config = sensor_payload(base_topic, suffix.as_str(), name.as_str(), Some("kWh"), Some("energy"), Some("total_increasing"), id.as_str(), None, enabled, None, None, device);
        let key = numbered("pv", i, "_kWh_total");
        out.push(discovery_message("sensor", logger_serial, key.as_str(), config));
    }
    assert(discoveries_view(out@) =~= start + pv_entries(logger_serial@, base_topic@, device@, i as nat));
}

fn push_inverter_entries(out: &mut Vec<DiscoveryMessage>, logger_serial: &str, base_topic: &str, device: &DeviceInfo)
    ensures
        discoveries_view(final(out)@) == discoveries_view(old(out)@) + inverter_entries(logger_serial@, base_topic@, device@),
{
    let ghost start = discoveries_view(out@);
    {
        let id = entity_id_exec(logger_serial, "grid_active_power_w");
        let config = sensor_payload(base_topic, "grid/active_power_w", "Grid Power (Active)", Some("W"), Some("power"), Some("measurement"), id.as_str(), Some(360), None, None, None, device);
        out.push(discovery_message("sensor", logger_serial, "grid_active_power_w", config));
    }
    {
        let id = entity_id_exec(logger_serial, "grid_energy_today");
        let config = sensor_payload(base_topic, "grid/kWh_today", "Grid Energy Today", Some("kWh"), Some("energy"), Some("total_increasing"), id.as_str(), None, None, None, None, device);
        out.push(discovery_message("sensor", logger_serial, "grid_kWh_today", config));
    }
    {
        let id = entity_id_exec(logger_serial, "grid_energy_total");
        let config = sensor_payload(base_topic, "grid/kWh_total", "Grid Energy Total", Some("kWh"), Some("energy"), Some("total_increasing"), id.as_str(), None, None, None, None, device);
        out.push(discovery_message("sensor", logger_serial, "grid_kWh_total", config));
    }
    {
        let id = entity_id_exec(logger_serial, "grid_v");
        let config = sensor_payload(base_topic, "grid/v", "Grid Voltage", Some("V"), Some("voltage"), Some("measurement"), id.as_str(), Some(360), None, None, None, device);
        out.push(discovery_message("sensor", logger_serial, "grid_v", config));
    }
    {
        let id = entity_id_exec(logger_serial, "grid_hz");
        let config = sensor_payload(base_topic, "grid/hz", "Grid Frequency", Some("Hz"), Some("frequency"), Some("measurement"), id.as_str(), Some(360), None, None, None, device);
        out.push(discovery_message("sensor", logger_serial, "grid_hz", config));
    }
    {
        let id = entity_id_exec(logger_serial, "inverter_radiator_temperature");
        let config = sensor_payload(base_topic, "inverter/radiator_temperature", "Radiator Temperature", Some("\u{00b0}C"), Some("temperature"), Some("measurement"), id.as_str(), Some(360), None, None, None, device);
        out.push(discovery_message("sensor", logger_serial, "inverter_radiator_temperature", config));
    }
    {
        let id = entity_id_exec(logger_serial, "inverter_efficiency");
        let config = sensor_payload(base_topic, "inverter/efficiency", "Inverter Efficiency", Some("%"), None, Some("measurement"), id.as_str(), Some(360), None, Some("diagnostic"), Some("mdi:cog-transfer"), device);
        out.push(discovery_message("sensor", logger_serial, "inverter_efficiency", config));
    }
    assert(discoveries_view(out@) =~= start + inverter_entries(logger_serial@, base_topic@, device@));
}

fn push_logger_entries(out: &mut Vec<DiscoveryMessage>, logger_serial: &str, base_topic: &str, device: &DeviceInfo)
    ensures
        discoveries_view(final(out)@) == discoveries_view(old(out)@) + logger_entries(logger_serial@, base_topic@, device@),
{
    let ghost start = discoveries_view(out@);
    {
        let id = entity_id_exec(logger_serial, "logger_serial_number");
        let config = text_sensor_payload(base_topic, "logger/serial_number", "Logger Serial Number", id.as_str(), Some("diagnostic"), Some("mdi:barcode"), device);
        out.push(discovery_message("text_sensor", logger_serial, "logger_serial_number", config));
    }
    {
        let id = entity_id_exec(logger_serial, "logger_ip_address");
        let config = text_sensor_payload(base_topic, "logger/ip_address", "Logger IP Address", id.as_str(), Some("diagnostic"), Some("mdi:ip-network"), device);
        out.push(discovery_message("text_sensor", logger_serial, "logger_ip_address", config));
    }
    {
        let id = entity_id_exec(logger_serial, "logger_mac_address");
        let config = text_sensor_payload(base_topic, "logger/mac_address", "Logger MAC Address", id.as_str(), Some("diagnostic"), Some("mdi:network-outline"), device);
        out.push(discovery_message("text_sensor", logger_serial, "logger_mac_address", config));
    }
    {
        let id = entity_id_exec(logger_serial, "logger_firmware_version");
        let config = text_sensor_payload(base_topic, "logger/firmware_version", "Logger Firmware Version", id.as_str(), Some("diagnostic"), Some("mdi:chip"), device);
        out.push(discovery_message("text_sensor", logger_serial, "logger_firmware_version", config));
    }
    {
        let id = entity_id_exec(logger_serial, "logger_hardware_version");
        let config = text_sensor_payload(base_topic, "logger/hardware_version", "Logger Hardware Version", id.as_str(), Some("diagnostic"), Some("mdi:developer-board"), device);
        out.push(discovery_message("text_sensor", logger_serial, "logger_hardware_version", config));
    }
    {
        let id = entity_id_exec(logger_serial, "logger_uptime_seconds");
        let config = sensor_payload(base_topic, "logger/uptime_seconds", "Logger Uptime", Some("s"), Some("duration"), Some("measurement"), id.as_str(), None, None, Some("diagnostic"), Some("mdi:timer-outline"), device);
        out.push(discovery_message("sensor", logger_serial, "logger_uptime_seconds", config));
    }
    {
        let id = entity_id_exec(logger_serial, "logger_report_time");
        let config = sensor_payload(base_topic, "logger/report_time", "Logger Report Time", None, Some("timestamp"), None, id.as_str(), None, None, Some("diagnostic"), Some("mdi:clock-outline"), device);
        out.push(discovery_message("sensor", logger_serial, "logger_report_time", config));
    }
    {
        let id = entity_id_exec(logger_serial, "logger_last_reboot");
        let config = sensor_payload(base_topic, "logger/last_reboot", "Logger Last Reboot", None, Some("timestamp"), None, id.as_str(), None, None, Some("diagnostic"), Some("mdi:restart"), device);
        out.push(discovery_message("sensor", logger_serial, "logger_last_reboot", config));
    }
    {
        let id = entity_id_exec(logger_serial, "logger_wifi_signal");
        let config = sensor_payload(base_topic, "logger/wifi_signal", "Logger WiFi Signal", Some("%"), None, Some("measurement"), id.as_str(), None, None, Some("diagnostic"), Some("mdi:wifi"), device);
        out.push(discovery_message("sensor", logger_serial, "logger_wifi_signal", config));
    }
    {
        let id = entity_id_exec(logger_serial, "logger_wifi_ssid");
        let config = text_sensor_payload(base_topic, "logger/wifi_ssid", "Logger WiFi SSID", id.as_str(), Some("diagnostic"), Some("mdi:wifi-settings"), device);
        out.push(discovery_message("text_sensor", logger_serial, "logger_wifi_ssid", config));
    }
    assert(discoveries_view(out@) =~= start + logger_entries(logger_serial@, base_topic@, device@));
}

/// The discovery configurations to publish for a logger with `mppt_count`
/// trackers, connecting from `remote_address`, with what its handshake told
/// when one was seen.
pub fn autoconf_messages(
    remote_address: &str,
    logger_serial: &str,
    mppt_count: u8,
    metadata: Option<&LoggerMetadata>,
) -> (res: Vec<DiscoveryMessage>)
    ensures
        discoveries_view(res@) == spec_autoconf(logger_serial@, remote_address@, mppt_count as nat, match metadata {
            Some(m) => Some(*m),
            None => None,
        }),
{
    let mut base = chars_of(TOPIC_PREFIX);
    base.push('/');
    push_str_chars(&mut base, logger_serial);
    let base_topic = string_from_chars(&base);
    assert(base_topic@ =~= TOPIC_PREFIX@ + seq!['/'] + logger_serial@);
    let device = device_payload(logger_serial, remote_address, metadata);
    let mut out: Vec<DiscoveryMessage> = Vec::new();
    let mut i: u16 = 1;
    assert(discoveries_view(out@) =~= pv_entries_upto(logger_serial@, base_topic@, device@, 0));
    while i <= mppt_count as u16
        invariant
            1 <= i <= mppt_count as int + 1,
            discoveries_view(out@) == pv_entries_upto(logger_serial@, base_topic@, device@, (i - 1) as nat),
        decreases mppt_count as int + 1 - i,
    {
        push_pv_entries(&mut out, logger_serial, base_topic.as_str(), &device, i as u8);
        i = i + 1;
    }
    let ghost pvs = discoveries_view(out@);
    push_inverter_entries(&mut out, logger_serial, base_topic.as_str(), &device);
    push_logger_entries(&mut out, logger_serial, base_topic.as_str(), &device);
    assert(discoveries_view(out@) =~= pvs + inverter_entries(logger_serial@, base_topic@, device@)
        + logger_entries(logger_serial@, base_topic@, device@));
    out
}

// ---------------------------------------------------------------------------
// Logger diagnostics
// ---------------------------------------------------------------------------

/// A retained message when the value is known, nothing otherwise.
pub open spec fn optional_message(topic: Seq<char>, value: Option<Seq<char>>) -> Seq<PublicationView> {
    match value {
        Some(v) => seq![message(topic, v, true)],
        None => Seq::empty(),
    }
}

/// The retained diagnostic messages of a handshake: the serial number, and
/// each metadata text that is known.
pub open spec fn spec_logger_publications(serial: nat, m: LoggerMetadata) -> Seq<PublicationView> {
    let base = spec_base_topic(serial);
    seq![message(base + "/logger/serial_number"@, spec_decimal(serial), true)]
        + optional_message(base + "/logger/ip_address"@, opt_view(m.ip_address))
        + optional_message(base + "/logger/mac_address"@, opt_view(m.mac_address))
        + optional_message(base + "/logger/firmware_version"@, opt_view(m.firmware_version))
        + optional_message(base + "/logger/hardware_version"@, opt_view(m.hardware_version))
        + optional_message(base + "/logger/wifi_ssid"@, opt_view(m.wifi_ssid))
}

fn push_optional(out: &mut Vec<Publication>, base: &Vec<char>, suffix: &str, value: &Option<String>)
    ensures
        publications_view(final(out)@) == publications_view(old(out)@) + optional_message(base@ + suffix@, opt_view(*value)),
{
    let ghost start = publications_view(out@);
    match value {
        Some(v) => {
            out.push(Publication { topic: topic_with(base, suffix), payload: v.clone(), retain: true });
        },
        None => {},
    }
    assert(publications_view(out@) =~= start + optional_message(base@ + suffix@, opt_view(*value)));
}

/// The messages that publish what a handshake told about logger
/// `logger_serial`.
pub fn logger_publications(logger_serial: u32, metadata: &LoggerMetadata) -> (res: Vec<Publication>)
    ensures
        publications_view(res@) == spec_logger_publications(logger_serial as nat, *metadata),
{
    let base = base_topic(logger_serial);
    let mut out: Vec<Publication> = Vec::new();
    let mut serial: Vec<char> = Vec::new();
    push_decimal(&mut serial, logger_serial as u64);
    out.push(publication(topic_with(&base, "/logger/serial_number"), &serial, true));
    let ghost first = publications_view(out@);
    assert(first =~= seq![message(base@ + "/logger/serial_number"@, spec_decimal(logger_serial as nat), true)]);
    push_optional(&mut out, &base, "/logger/ip_address", &metadata.ip_address);
    push_optional(&mut out, &base, "/logger/mac_address", &metadata.mac_address);
    push_optional(&mut out, &base, "/logger/firmware_version", &metadata.firmware_version);
    push_optional(&mut out, &base, "/logger/hardware_version", &metadata.hardware_version);
    push_optional(&mut out, &base, "/logger/wifi_ssid", &metadata.wifi_ssid);
    out
}

/// The retained messages of a report: uptime, report time and, when the
/// uptime does not reach back before the epoch, the time of the last reboot.
pub open spec fn spec_report_publications(serial: nat, uptime_seconds: nat, report_time: nat) -> Seq<PublicationView> {
    let base = spec_base_topic(serial);
    seq![
        message(base + "/logger/uptime_seconds"@, spec_decimal(uptime_seconds), true),
        message(base + "/logger/report_time"@, spec_utc_iso8601(report_time), true),
    ] + if report_time >= uptime_seconds {
        seq![message(base + "/logger/last_reboot"@, spec_utc_iso8601((report_time - uptime_seconds) as nat), true)]
    } else {
        Seq::empty()
    }
}

/// The messages for a report of logger `logger_serial` that was sent at
/// `report_time` (Unix seconds) after `uptime_seconds` of uptime.
pub fn report_publications(logger_serial: u32, uptime_seconds: u32, report_time: u64) -> (res: Vec<Publication>)
    ensures
        publications_view(res@) == spec_report_publications(logger_serial as nat, uptime_seconds as nat, report_time as nat),
{
    let base = base_topic(logger_serial);
    let mut out: Vec<Publication> = Vec::new();
    let mut uptime: Vec<char> = Vec::new();
    push_decimal(&mut uptime, uptime_seconds as u64);
    out.push(publication(topic_with(&base, "/logger/uptime_seconds"), &uptime, true));
    out.push(Publication {
        topic: topic_with(&base, "/logger/report_time"),
        payload: unix_epoch_to_utc_iso8601(report_time),
        retain: true,
    });
    if report_time >= uptime_seconds as u64 {
        let last_reboot = report_time - uptime_seconds as u64;
        out.push(Publication {
            topic: topic_with(&base, "/logger/last_reboot"),
            payload: unix_epoch_to_utc_iso8601(last_reboot),
            retain: true,
        });
    }
    assert(publications_view(out@) =~= spec_report_publications(logger_serial as nat, uptime_seconds as nat, report_time as nat));
    out
}

/// The Wi-Fi signal message: only when the SSID of the handshake is known
/// and not empty, the status text equals it, and the signal quality is in
/// range.
pub open spec fn spec_wifi_publication(
    serial: nat,
    text_value: Seq<char>,
    signal_quality_percent: Option<u8>,
    expected_ssid: Option<Seq<char>>,
) -> Option<PublicationView> {
    match expected_ssid {
        None => None,
        Some(ssid) => if ssid.len() == 0 || text_value != ssid {
            None
        } else {
            match signal_quality_percent {
                None => None,
                Some(q) => Some(message(spec_base_topic(serial) + "/logger/wifi_signal"@, spec_decimal(q as nat), true)),
            }
        },
    }
}

/// The message for a Wi-Fi status of logger `logger_serial`, if it is
/// published.
pub fn wifi_publication(
    logger_serial: u32,
    text_value: &str,
    signal_quality_percent: Option<u8>,
    expected_ssid: Option<&str>,
) -> (res: Option<Publication>)
    ensures
        match res {
            Some(p) => spec_wifi_publication(logger_serial as nat, text_value@, signal_quality_percent, opt_str_view(expected_ssid)) == Some(p@),
            None => spec_wifi_publication(logger_serial as nat, text_value@, signal_quality_percent, opt_str_view(expected_ssid)) is None,
        },
{
    let expected = match expected_ssid {
        Some(e) => e,
        None => return None,
    };
    if expected.is_empty() || !str_equal(text_value, expected) {
        return None;
    }
    let quality = match signal_quality_percent {
        Some(q) => q,
        None => return None,
    };
    let base = base_topic(logger_serial);
    let mut value: Vec<char> = Vec::new();
    push_decimal(&mut value, quality as u64);
    Some(publication(topic_with(&base, "/logger/wifi_signal"), &value, true))
}

/// Discovery configurations are republished at most every four hours; the
/// interval in nanoseconds.
pub const AUTOCONF_INTERVAL_NANOS: u128 = 14_400_000_000_000;

/// When the discovery configurations of each logger were last published,
/// as nanoseconds on a monotonic clock, keyed by logger serial.
pub struct AutoconfSchedule {
    published: HashMap<u32, u128>,
}

impl View for AutoconfSchedule {
    type V = Map<u32, u128>;

    closed spec fn view(&self) -> Map<u32, u128> {
        self.published@
    }
}

/// Time passed from `last` to `now`; zero when the clock reads earlier.
pub open spec fn elapsed_nanos(last: u128, now: u128) -> int {
    if now >= last { now - last } else { 0 }
}

/// Whether a logger's configurations are due at `now`, given when each logger
/// last had them published: never, or more than four hours ago.
pub open spec fn autoconf_is_due(published: Map<u32, u128>, serial: u32, now: u128) -> bool {
    !(published.contains_key(serial) && elapsed_nanos(published[serial], now) <= AUTOCONF_INTERVAL_NANOS)
}

/// Once a logger's configurations are recorded as published at `at`, they are
/// due again exactly when more than four hours have passed since `at`; what is
/// due for any other logger does not change.
pub proof fn lemma_autoconf_record_then_due(published: Map<u32, u128>, serial: u32, at: u128, other: u32, now: u128)
    ensures
        autoconf_is_due(published.insert(serial, at), serial, now) == (elapsed_nanos(at, now) > AUTOCONF_INTERVAL_NANOS),
        other != serial ==> autoconf_is_due(published.insert(serial, at), other, now) == autoconf_is_due(published, other, now),
{
}

impl AutoconfSchedule {
    /// No logger has been configured yet.
    pub fn new() -> (res: Self)
        ensures
            res@ == Map::<u32, u128>::empty(),
    {
        AutoconfSchedule { published: HashMap::new() }
    }

    /// Whether the configurations of `serial` are published at time `now`:
    /// when they never were, or more than four hours ago.
    pub fn is_due(&self, serial: u32, now: u128) -> (res: bool)
        ensures
            res == autoconf_is_due(self@, serial, now),
    {
        broadcast use vstd::std_specs::hash::group_hash_axioms;
        match self.published.get(&serial) {
            None => true,
            Some(last) => {
                let elapsed = if now >= *last { now - *last } else { 0 };
                elapsed > AUTOCONF_INTERVAL_NANOS
            },
        }
    }

    /// Notes that the configurations of `serial` were published at `now`.
    pub fn record(&mut self, serial: u32, now: u128)
        ensures
            final(self)@ == old(self)@.insert(serial, now),
    {
        broadcast use vstd::std_specs::hash::group_hash_axioms;
        self.published.insert(serial, now);
    }

    /// Closes a round of publishing the configurations of `serial` that
    /// started at `now`: recorded only when every message went out, so that
    /// a failed round is repeated in full on the next data payload.
    pub fn autoconf_done(&mut self, serial: u32, now: u128, all_published: bool)
        ensures
            final(self)@ == if all_published { old(self)@.insert(serial, now) } else { old(self)@ },
    {
        if all_published {
            self.record(serial, now);
        }
    }
}

/// The handshake metadata of each logger, keyed by logger serial.
pub struct LoggerMetadataStore {
    entries: HashMap<u32, LoggerMetadata>,
}

impl View for LoggerMetadataStore {
    type V = Map<u32, LoggerMetadata>;

    closed spec fn view(&self) -> Map<u32, LoggerMetadata> {
        self.entries@
    }
}

impl LoggerMetadataStore {
    /// No handshake has been seen yet.
    pub fn new() -> (res: Self)
        ensures
            res@ == Map::<u32, LoggerMetadata>::empty(),
    {
        LoggerMetadataStore { entries: HashMap::new() }
    }

    /// Keeps the metadata of a handshake of logger `serial`, replacing what
    /// an earlier handshake told; other loggers keep theirs.
    pub fn insert(&mut self, serial: u32, metadata: LoggerMetadata)
        ensures
            final(self)@ == old(self)@.insert(serial, metadata),
    {
        broadcast use vstd::std_specs::hash::group_hash_axioms;
        self.entries.insert(serial, metadata);
    }

    /// Takes in a handshake of logger `logger_serial` from `remote_address`:
    /// keeps what it tells under that serial, replacing an earlier entry and
    /// leaving other loggers alone, and returns the logger messages to publish
    /// for it, made from the kept metadata.
    pub fn record_handshake(&mut self, remote_address: &str, logger_serial: u32, logger: &LoggerPayload) -> (res: Vec<Publication>)
        ensures
            final(self)@ == old(self)@.insert(logger_serial, final(self)@[logger_serial]),
            is_handshake_metadata(final(self)@[logger_serial], remote_address@, *logger),
            publications_view(res@) == spec_logger_publications(logger_serial as nat, final(self)@[logger_serial]),
    {
        let metadata = LoggerMetadata::from_handshake(remote_address, logger);
        let publications = logger_publications(logger_serial, &metadata);
        self.insert(logger_serial, metadata);
        publications
    }

    /// The metadata of the last handshake of logger `serial`, if one was seen.
    pub fn get(&self, serial: u32) -> (res: Option<&LoggerMetadata>)
        ensures
            res == (if self@.contains_key(serial) { Some(&self@[serial]) } else { None::<&LoggerMetadata> }),
    {
        broadcast use vstd::std_specs::hash::group_hash_axioms;
        self.entries.get(&serial)
    }
}

/// The metadata a store holds for a serial, if any.
pub open spec fn stored_metadata(store: Map<u32, LoggerMetadata>, serial: u32) -> Option<LoggerMetadata> {
    if store.contains_key(serial) { Some(store[serial]) } else { None }
}

/// The discovery round for a data payload of logger `logger_serial` at clock
/// reading `now`: `None` when its configurations are not due, otherwise every
/// configuration to publish, built with the metadata of its last handshake.
/// Once they are sent, `AutoconfSchedule::autoconf_done` closes the round.
pub fn autoconf_round(
    schedule: &AutoconfSchedule,
    store: &LoggerMetadataStore,
    remote_address: &str,
    logger_serial: u32,
    mppt_count: u8,
    now: u128,
) -> (res: Option<Vec<DiscoveryMessage>>)
    ensures
        res is Some <==> autoconf_is_due(schedule@, logger_serial, now),
        res matches Some(v) ==> discoveries_view(v@) == spec_autoconf(
            spec_decimal(logger_serial as nat),
            remote_address@,
            mppt_count as nat,
            stored_metadata(store@, logger_serial),
        ),
{
    if !schedule.is_due(logger_serial, now) {
        return None;
    }
    let mut digits: Vec<char> = Vec::new();
    push_decimal(&mut digits, logger_serial as u64);
    let serial = string_from_chars(&digits);
    let metadata = store.get(logger_serial);
    Some(autoconf_messages(remote_address, serial.as_str(), mppt_count, metadata))
}

/// The MQTT client id for a clock reading: `deye_dummycloud_` and the low
/// 28 bits of the nanoseconds as seven lower-case hexadecimal digits.
pub open spec fn spec_client_id(nanos: u32) -> Seq<char> {
    let n = (nanos % 0x1000_0000) as int;
    "deye_dummycloud_"@ + seq![
        hex_digit((n / 0x100_0000) % 16),
        hex_digit((n / 0x10_0000) % 16),
        hex_digit((n / 0x1_0000) % 16),
        hex_digit((n / 0x1000) % 16),
        hex_digit((n / 0x100) % 16),
        hex_digit((n / 0x10) % 16),
        hex_digit(n % 16),
    ]
}

/// The client id derived from the nanoseconds of a clock reading.
pub fn client_id_from_nanos(nanos: u32) -> (res: String)
    ensures
        res@ == spec_client_id(nanos),
{
    let n = nanos & 0x0fff_ffff;
    assert(nanos & 0x0fff_ffff == nanos % 0x1000_0000) by (bit_vector);
    let mut v = chars_of("deye_dummycloud_");
    v.push(hex_digit_char((n / 0x100_0000) % 16));
    v.push(hex_digit_char((n / 0x10_0000) % 16));
    v.push(hex_digit_char((n / 0x1_0000) % 16));
    v.push(hex_digit_char((n / 0x1000) % 16));
    v.push(hex_digit_char((n / 0x100) % 16));
    v.push(hex_digit_char((n / 0x10) % 16));
    v.push(hex_digit_char(n % 16));
    assert(v@ =~= spec_client_id(nanos));
    string_from_chars(&v)
}

/// A client id for a new broker connection, from the sub-second part of
/// the current time.
pub fn client_id() -> (res: String)
    ensures
        exists|nanos: u32| res@ == spec_client_id(nanos),
{
    let (_, nanos) = unix_time_now();
    client_id_from_nanos(nanos)
}

// ---------------------------------------------------------------------------
// Laws of the published messages
// ---------------------------------------------------------------------------

/// The grid readings of a data payload reach the broker in their units: the
/// active power in whole watts, the energy today and the frequency from
/// hundredths, the voltage from tenths, all as the shortest decimal. The
/// total energy counts tenths of a kWh, so its message carries the whole
/// kWh, then a point and the tenths digit unless that digit is zero; it is
/// retained and sent when positive.
pub proof fn lemma_grid_messages(serial: nat, d: DataPayload)
    ensures
        ({
            let s = spec_data_publications(serial, d);
            let base = spec_base_topic(serial);
            let total = d.grid.kwh_total as nat;
            &&& s.contains(message(base + "/grid/active_power_w"@, spec_decimal(d.grid.active_power_w as nat), false))
            &&& s.contains(message(base + "/grid/kWh_today"@, spec_hundredths(d.grid.kwh_today as nat), true))
            &&& total > 0 ==> s.contains(message(
                base + "/grid/kWh_total"@,
                spec_decimal(total / 10) + if total % 10 == 0 {
                    Seq::<char>::empty()
                } else {
                    seq!['.', digit_char((total % 10) as int)]
                },
                true,
            ))
            &&& s.contains(message(base + "/grid/v"@, spec_tenths(d.grid.v as nat), false))
            &&& s.contains(message(base + "/grid/hz"@, spec_hundredths(d.grid.hz as nat), false))
        }),
{
    let base = spec_base_topic(serial);
    let pv = pv_section(base, d.pv@, published_pv_count(d));
    let g = grid_section(base, d);
    let s = spec_data_publications(serial, d);
    assert(s == pv + g);
    let k = pv.len() as int;
    assert(s[k] == g[0]);
    assert(s[k + 1] == g[1]);
    if d.grid.kwh_total > 0 {
        assert(s[k + 2] == g[2]);
        assert(s[k + 3] == g[3]);
        assert(s[k + 4] == g[4]);
    } else {
        assert(s[k + 2] == g[2]);
        assert(s[k + 3] == g[3]);
    }
}

/// The reading a PV sensor reports, by its place among the five sensors of
/// an input.
pub open spec fn pv_reading_name(r: int) -> Seq<char> {
    if r == 0 {
        "v"@
    } else if r == 1 {
        "i"@
    } else if r == 2 {
        "w"@
    } else if r == 3 {
        "kWh_today"@
    } else {
        "kWh_total"@
    }
}

/// Entry `k` of a list of PV sensors, input by input, five per input: it
/// reads the state topic of reading `k % 5` of input `k / 5 + 1` and is
/// enabled by default for inputs 1 and 2 only.
pub open spec fn pv_sensor_at(base: Seq<char>, e: DiscoveryView, k: int) -> bool {
    &&& e.config.enabled_by_default == Some(k < 10)
    &&& e.config.state_topic == base + "/pv/"@ + spec_decimal((k / 5 + 1) as nat) + seq!['/'] + pv_reading_name(k % 5)
}

proof fn lemma_pv_entries_shape(serial: Seq<char>, base: Seq<char>, device: DeviceInfoView, i: nat)
    requires
        i >= 1,
    ensures
        pv_entries(serial, base, device, i).len() == 5,
        forall|r: int| 0 <= r < 5 ==> pv_sensor_at(base, #[trigger] pv_entries(serial, base, device, i)[r], 5 * (i - 1) + r),
{
    reveal_strlit("/pv/");
    reveal_strlit("pv/");
    reveal_strlit("/v");
    reveal_strlit("/i");
    reveal_strlit("/w");
    reveal_strlit("/kWh_today");
    reveal_strlit("/kWh_total");
    reveal_strlit("v");
    reveal_strlit("i");
    reveal_strlit("w");
    reveal_strlit("kWh_today");
    reveal_strlit("kWh_total");
    let e = pv_entries(serial, base, device, i);
    let n = spec_decimal(i);
    assert forall|r: int| 0 <= r < 5 implies pv_sensor_at(base, #[trigger] e[r], 5 * (i - 1) + r) by {
        let k = 5 * (i - 1) + r;
        assert(k / 5 + 1 == i && k % 5 == r);
        assert(k < 10 <==> i < 3);
        let sfx: Seq<char> = if r == 0 {
            "/v"@
        } else if r == 1 {
            "/i"@
        } else if r == 2 {
            "/w"@
        } else if r == 3 {
            "/kWh_today"@
        } else {
            "/kWh_total"@
        };
        assert(e[r].config.state_topic == base + seq!['/'] + ("pv/"@ + n + sfx));
        assert(base + seq!['/'] + ("pv/"@ + n + sfx) =~= base + "/pv/"@ + n + seq!['/'] + pv_reading_name(r));
    }
}

/// `pv_entries_upto` lists five sensors per input, input by input; see
/// `pv_sensor_at`.
proof fn lemma_pv_entries_enabled(serial: Seq<char>, base: Seq<char>, device: DeviceInfoView, n: nat)
    ensures
        pv_entries_upto(serial, base, device, n).len() == 5 * n,
        forall|k: int| 0 <= k < 5 * n ==> pv_sensor_at(base, #[trigger] pv_entries_upto(serial, base, device, n)[k], k),
    decreases n,
{
    if n > 0 {
        lemma_pv_entries_enabled(serial, base, device, (n - 1) as nat);
        lemma_pv_entries_shape(serial, base, device, n);
        let prev = pv_entries_upto(serial, base, device, (n - 1) as nat);
        let last = pv_entries(serial, base, device, n);
        assert forall|k: int| 0 <= k < 5 * n implies pv_sensor_at(base, #[trigger] pv_entries_upto(serial, base, device, n)[k], k) by {
            if k < 5 * (n - 1) {
                assert(pv_entries_upto(serial, base, device, n)[k] == prev[k]);
            } else {
                assert(pv_entries_upto(serial, base, device, n)[k] == last[k - 5 * (n - 1)]);
                assert(pv_sensor_at(base, last[k - 5 * (n - 1)], 5 * (n - 1) + (k - 5 * (n - 1))));
            }
        }
    }
}

/// The discovery list of a logger with `mppt_count` trackers has five
/// sensors per tracker and seventeen more. It starts with the sensors of
/// the trackers in order, five each: entry `k` reads voltage, current,
/// power, energy today or total energy (by `k % 5`) of tracker `k / 5 + 1`
/// under `deye-dummycloud/<serial>/pv/`. The sensors of trackers 1 and 2
/// (the first ten entries) are enabled by default, those of trackers 3 and
/// up are not.
pub proof fn lemma_autoconf_pv_enabled(serial: Seq<char>, remote: Seq<char>, mppt_count: nat, metadata: Option<LoggerMetadata>, k: int)
    requires
        0 <= k < 5 * mppt_count,
    ensures
        spec_autoconf(serial, remote, mppt_count, metadata).len() == 5 * mppt_count + 17,
        spec_autoconf(serial, remote, mppt_count, metadata)[k].config.enabled_by_default == Some(k < 10),
        spec_autoconf(serial, remote, mppt_count, metadata)[k].config.state_topic
            == TOPIC_PREFIX@ + seq!['/'] + serial + "/pv/"@ + spec_decimal((k / 5 + 1) as nat) + seq!['/'] + pv_reading_name(k % 5),
{
    let device = spec_device(serial, remote, metadata);
    let base = TOPIC_PREFIX@ + seq!['/'] + serial;
    lemma_pv_entries_enabled(serial, base, device, mppt_count);
    let pv = pv_entries_upto(serial, base, device, mppt_count);
    assert(spec_autoconf(serial, remote, mppt_count, metadata)[k] == pv[k]);
}

/// No two messages of the list share a topic.
pub open spec fn distinct_topics(s: Seq<PublicationView>) -> bool {
    forall|i: int, j: int| 0 <= i < j < s.len() ==> s[i].topic != s[j].topic
}

proof fn lemma_append_distinct(s: Seq<PublicationView>, o: Seq<PublicationView>, used: Set<Seq<char>>, t: Seq<char>)
    requires
        distinct_topics(s),
        forall|i: int| 0 <= i < s.len() ==> used.contains(#[trigger] s[i].topic),
        o.len() <= 1,
        forall|i: int| 0 <= i < o.len() ==> #[trigger] o[i].topic == t,
        !used.contains(t),
    ensures
        distinct_topics(s + o),
        forall|i: int| 0 <= i < (s + o).len() ==> used.insert(t).contains(#[trigger] (s + o)[i].topic),
{
    assert forall|i: int, j: int| 0 <= i < j < (s + o).len() implies (s + o)[i].topic != (s + o)[j].topic by {
        if j < s.len() {
            assert((s + o)[i] == s[i] && (s + o)[j] == s[j]);
        } else {
            assert((s + o)[j] == o[j - s.len()]);
            assert((s + o)[i] == s[i]);
            assert(used.contains(s[i].topic));
        }
    }
    assert forall|i: int| 0 <= i < (s + o).len() implies used.insert(t).contains(#[trigger] (s + o)[i].topic) by {
        if i < s.len() {
            assert((s + o)[i] == s[i]);
        } else {
            assert((s + o)[i] == o[i - s.len()]);
        }
    }
}

proof fn lemma_suffix_topics_differ(base: Seq<char>, a: Seq<char>, b: Seq<char>, k: int)
    requires
        a.len() != b.len() || (0 <= k < a.len() && a.len() == b.len() && a[k] != b[k]),
    ensures
        base + a != base + b,
{
    assert((base + a).len() == base.len() + a.len() && (base + b).len() == base.len() + b.len());
    if a.len() == b.len() {
        assert((base + a)[base.len() + k] == a[k]);
        assert((base + b)[base.len() + k] == b[k]);
    }
}

proof fn lemma_optional_message_topic(topic: Seq<char>, value: Option<Seq<char>>)
    ensures
        optional_message(topic, value).len() <= 1,
        forall|i: int| 0 <= i < optional_message(topic, value).len() ==> #[trigger] optional_message(topic, value)[i].topic == topic,
{
}

/// The messages of a handshake publish every known text on the topic named
/// after its own field, after the serial number, and no two of them share a
/// topic: a text is never published on another field's topic.
pub proof fn lemma_logger_publication_topics(serial: nat, m: LoggerMetadata)
    ensures
        ({
            let s = spec_logger_publications(serial, m);
            let base = spec_base_topic(serial);
            &&& s[0] == message(base + "/logger/serial_number"@, spec_decimal(serial), true)
            &&& opt_view(m.ip_address) matches Some(v) ==> s.contains(message(base + "/logger/ip_address"@, v, true))
            &&& opt_view(m.mac_address) matches Some(v) ==> s.contains(message(base + "/logger/mac_address"@, v, true))
            &&& opt_view(m.firmware_version) matches Some(v) ==> s.contains(message(base + "/logger/firmware_version"@, v, true))
            &&& opt_view(m.hardware_version) matches Some(v) ==> s.contains(message(base + "/logger/hardware_version"@, v, true))
            &&& opt_view(m.wifi_ssid) matches Some(v) ==> s.contains(message(base + "/logger/wifi_ssid"@, v, true))
            &&& distinct_topics(s)
        }),
{
    reveal_strlit("/logger/serial_number");
    reveal_strlit("/logger/ip_address");
    reveal_strlit("/logger/mac_address");
    reveal_strlit("/logger/firmware_version");
    reveal_strlit("/logger/hardware_version");
    reveal_strlit("/logger/wifi_ssid");
    let base = spec_base_topic(serial);
    let t0 = base + "/logger/serial_number"@;
    let t1 = base + "/logger/ip_address"@;
    let t2 = base + "/logger/mac_address"@;
    let t3 = base + "/logger/firmware_version"@;
    let t4 = base + "/logger/hardware_version"@;
    let t5 = base + "/logger/wifi_ssid"@;
    lemma_suffix_topics_differ(base, "/logger/serial_number"@, "/logger/ip_address"@, 0);
    lemma_suffix_topics_differ(base, "/logger/serial_number"@, "/logger/mac_address"@, 0);
    lemma_suffix_topics_differ(base, "/logger/serial_number"@, "/logger/firmware_version"@, 0);
    lemma_suffix_topics_differ(base, "/logger/serial_number"@, "/logger/hardware_version"@, 0);
    lemma_suffix_topics_differ(base, "/logger/serial_number"@, "/logger/wifi_ssid"@, 0);
    lemma_suffix_topics_differ(base, "/logger/ip_address"@, "/logger/mac_address"@, 0);
    lemma_suffix_topics_differ(base, "/logger/ip_address"@, "/logger/firmware_version"@, 0);
    lemma_suffix_topics_differ(base, "/logger/ip_address"@, "/logger/hardware_version"@, 0);
    lemma_suffix_topics_differ(base, "/logger/ip_address"@, "/logger/wifi_ssid"@, 0);
    lemma_suffix_topics_differ(base, "/logger/mac_address"@, "/logger/firmware_version"@, 0);
    lemma_suffix_topics_differ(base, "/logger/mac_address"@, "/logger/hardware_version"@, 0);
    lemma_suffix_topics_differ(base, "/logger/mac_address"@, "/logger/wifi_ssid"@, 0);
    lemma_suffix_topics_differ(base, "/logger/firmware_version"@, "/logger/hardware_version"@, 8);
    lemma_suffix_topics_differ(base, "/logger/firmware_version"@, "/logger/wifi_ssid"@, 0);
    lemma_suffix_topics_differ(base, "/logger/hardware_version"@, "/logger/wifi_ssid"@, 0);

    let s0 = seq![message(t0, spec_decimal(serial), true)];
    let o1 = optional_message(t1, opt_view(m.ip_address));
    let o2 = optional_message(t2, opt_view(m.mac_address));
    let o3 = optional_message(t3, opt_view(m.firmware_version));
    let o4 = optional_message(t4, opt_view(m.hardware_version));
    let o5 = optional_message(t5, opt_view(m.wifi_ssid));
    lemma_optional_message_topic(t1, opt_view(m.ip_address));
    lemma_optional_message_topic(t2, opt_view(m.mac_address));
    lemma_optional_message_topic(t3, opt_view(m.firmware_version));
    lemma_optional_message_topic(t4, opt_view(m.hardware_version));
    lemma_optional_message_topic(t5, opt_view(m.wifi_ssid));
    let u0 = Set::<Seq<char>>::empty().insert(t0);
    lemma_append_distinct(s0, o1, u0, t1);
    let s1 = s0 + o1;
    let u1 = u0.insert(t1);
    lemma_append_distinct(s1, o2, u1, t2);
    let s2 = s1 + o2;
    let u2 = u1.insert(t2);
    lemma_append_distinct(s2, o3, u2, t3);
    let s3 = s2 + o3;
    let u3 = u2.insert(t3);
    lemma_append_distinct(s3, o4, u3, t4);
    let s4 = s3 + o4;
    let u4 = u3.insert(t4);
    lemma_append_distinct(s4, o5, u4, t5);
    let s5 = s4 + o5;
    assert(spec_logger_publications(serial, m) == s5);
    assert(s5[0] == s0[0]);
    if let Some(v) = opt_view(m.ip_address) {
        assert(s5[s0.len() as int] == o1[0]);
    }
    if let Some(v) = opt_view(m.mac_address) {
        assert(s5[s1.len() as int] == o2[0]);
    }
    if let Some(v) = opt_view(m.firmware_version) {
        assert(s5[s2.len() as int] == o3[0]);
    }
    if let Some(v) = opt_view(m.hardware_version) {
        assert(s5[s3.len() as int] == o4[0]);
    }
    if let Some(v) = opt_view(m.wifi_ssid) {
        assert(s5[s4.len() as int] == o5[0]);
    }
}


proof fn lemma_pv_section_keeps(base: Seq<char>, pvs: Seq<PvData>, n: nat, j: nat, x: PublicationView)
    requires
        1 <= j <= n,
        pv_messages(base, j, pvs[j - 1]).contains(x),
    ensures
        pv_section(base, pvs, n).contains(x),
    decreases n,
{
    let prev = pv_section(base, pvs, (n - 1) as nat);
    let last = pv_messages(base, n, pvs[n - 1]);
    assert(pv_section(base, pvs, n) == prev + last);
    if j < n {
        lemma_pv_section_keeps(base, pvs, (n - 1) as nat, j, x);
        let k = choose|k: int| 0 <= k < prev.len() && prev[k] == x;
        assert((prev + last)[k] == x);
    } else {
        let k = choose|k: int| 0 <= k < last.len() && last[k] == x;
        assert((prev + last)[prev.len() + k] == x);
    }
}

/// The readings of PV input `j` (counted from 1, up to the number of
/// trackers the inverter reports and of inputs read) are published under
/// `<base>/pv/<j>/`: voltage and current from tenths, power from hundredths,
/// not retained; energy today and, when positive, total energy from tenths of
/// a kWh, retained. Each message carries the reading of input `j` itself.
pub proof fn lemma_pv_messages(serial: nat, d: DataPayload, j: nat)
    requires
        1 <= j <= d.inverter_meta.mppt_count,
        j <= d.pv@.len(),
    ensures
        ({
            let s = spec_data_publications(serial, d);
            let t = spec_base_topic(serial) + "/pv/"@ + spec_decimal(j);
            let pv = d.pv@[j - 1];
            &&& s.contains(message(t + "/v"@, spec_tenths(pv.v as nat), false))
            &&& s.contains(message(t + "/i"@, spec_tenths(pv.i as nat), false))
            &&& s.contains(message(t + "/w"@, spec_hundredths(pv.w as nat), false))
            &&& s.contains(message(t + "/kWh_today"@, spec_tenths(pv.kwh_today as nat), true))
            &&& pv.kwh_total > 0 ==> s.contains(message(t + "/kWh_total"@, spec_tenths(pv.kwh_total as nat), true))
        }),
{
    let base = spec_base_topic(serial);
    let n = published_pv_count(d);
    let t = base + "/pv/"@ + spec_decimal(j);
    let pv = d.pv@[j - 1];
    let ms = pv_messages(base, j, pv);
    let sec = pv_section(base, d.pv@, n);
    let s = spec_data_publications(serial, d);
    assert(s == sec + grid_section(base, d));
    assert forall|k: int| 0 <= k < ms.len() implies s.contains(#[trigger] ms[k]) by {
        assert(ms.contains(ms[k]));
        lemma_pv_section_keeps(base, d.pv@, n, j, ms[k]);
        let w = choose|w: int| 0 <= w < sec.len() && sec[w] == ms[k];
        assert(s[w] == ms[k]);
    }
    assert(ms[0] == message(t + "/v"@, spec_tenths(pv.v as nat), false));
    assert(ms[1] == message(t + "/i"@, spec_tenths(pv.i as nat), false));
    assert(ms[2] == message(t + "/w"@, spec_hundredths(pv.w as nat), false));
    assert(ms[3] == message(t + "/kWh_today"@, spec_tenths(pv.kwh_today as nat), true));
    if pv.kwh_total > 0 {
        assert(ms[4] == message(t + "/kWh_total"@, spec_tenths(pv.kwh_total as nat), true));
    }
}

} // verus!
