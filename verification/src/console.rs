//! The rules of the web console's API: how saved profiles are completed
//! before they are stored, how agents present their credentials, how
//! imported bundles name what they bring, and how reports are framed as CSV.

use vstd::prelude::*;
use crate::cluster::AGENT_PROTOCOL_VERSION;
use crate::decimal::{dec_text, parse_u16_chars, parse_u16_spec, u64_text};
use crate::model::broker::{BrokerProfile, BrokerProtocol, Mqtt5Config, MqttVersion};
use crate::model::legacy::{normalize_websocket_path, websocket_path_for};
use crate::model::payload::PayloadProfile;
use crate::model::run::Annotation;
use crate::model::time::UtcTimestamp;
use crate::text::{
    append_chars, blank, chars_of, contains_seq, is_blank, opt_view, push_char, replace_all,
    replace_chars, starts_with_chars, str_eq, string_from_chars, string_of, utf8_len, utf8_width,
};

verus! {

/// What an import does with an item whose id already exists.
#[derive(Debug, Clone, Copy, PartialEq, Eq, Structural)]
pub enum BundleConflict {
    Skip,
    Rename,
    Overwrite,
}

/// The conflict policy a query names; `skip` when it names none.
pub open spec fn conflict_named(value: Option<Seq<char>>) -> Option<BundleConflict> {
    let v = match value {
        Some(v) => v,
        None => "skip"@,
    };
    if v == "skip"@ {
        Some(BundleConflict::Skip)
    } else if v == "rename"@ {
        Some(BundleConflict::Rename)
    } else if v == "overwrite"@ {
        Some(BundleConflict::Overwrite)
    } else {
        None
    }
}

impl BundleConflict {
    pub fn parse(value: Option<&str>) -> (r: Option<Self>)
        ensures
            r == conflict_named(
                match value {
                    Some(v) => Some(v@),
                    None => None,
                },
            ),
    {
        let v = match value {
            Some(v) => v,
            None => "skip",
        };
        if str_eq(v, "skip") {
            Some(BundleConflict::Skip)
        } else if str_eq(v, "rename") {
            Some(BundleConflict::Rename)
        } else if str_eq(v, "overwrite") {
            Some(BundleConflict::Overwrite)
        } else {
            None
        }
    }
}

/// Whether the first `k` characters of `s` take exactly `n` bytes.
pub open spec fn is_byte_prefix(s: Seq<char>, k: int, n: nat) -> bool {
    0 <= k <= s.len() && utf8_len(s.take(k)) == n
}

/// The number of bytes kept of an id in an imported item's name.
pub open spec fn suffix_bytes(id: Seq<char>) -> nat {
    if utf8_len(id) < 8 {
        utf8_len(id)
    } else {
        8
    }
}

proof fn lemma_utf8_len_take_step(s: Seq<char>, k: int)
    requires
        0 <= k < s.len(),
    ensures
        utf8_len(s.take(k + 1)) == utf8_len(s.take(k)) + utf8_width(s[k]),
        utf8_width(s[k]) >= 1,
{
    assert(s.take(k + 1).drop_last() =~= s.take(k));
}

proof fn lemma_utf8_len_take_mono(s: Seq<char>, j: int, k: int)
    requires
        0 <= j < k <= s.len(),
    ensures
        utf8_len(s.take(j)) < utf8_len(s.take(k)),
    decreases k - j,
{
    lemma_utf8_len_take_step(s, k - 1);
    if j < k - 1 {
        lemma_utf8_len_take_mono(s, j, k - 1);
    }
}

/// The name an imported item takes when it is renamed on conflict: its name
/// and the first eight bytes of its original id.
pub fn imported_name(name: &str, original_id: &str) -> (r: String)
    requires
        exists|k: int| is_byte_prefix(original_id@, k, suffix_bytes(original_id@)),
    ensures
        exists|k: int|
            is_byte_prefix(original_id@, k, suffix_bytes(original_id@)) && r@ == name@
                + " (imported "@ + original_id@.take(k) + ")"@,
{
    let id = chars_of(original_id);
    let ghost s = id@;
    let ghost target = suffix_bytes(s);
    let ghost k_star = choose|k: int| is_byte_prefix(s, k, target);
    let total = crate::text::byte_len(original_id);
    let limit: u128 = if total < 8 {
        total
    } else {
        8
    };
    let mut bytes: u128 = 0;
    let mut k: usize = 0;
    let n = id.len();
    assert(s.take(0) =~= Seq::<char>::empty());
    while bytes < limit
        invariant
            limit == target,
            limit <= 8,
            n == s.len(),
            is_byte_prefix(s, k_star, target),
            k <= k_star,
            bytes == utf8_len(s.take(k as int)),
            s == id@,
        decreases k_star - k,
    {
        proof {
            if k == k_star {
                assert(false);
            }
            lemma_utf8_len_take_step(s, k as int);
        }
        let c = id[k];
        assert(c == s[k as int]);
        let w: u128 = if (c as u32) <= 0x7f {
            1
        } else if (c as u32) <= 0x7ff {
            2
        } else if (c as u32) <= 0xffff {
            3
        } else {
            4
        };
        bytes = bytes + w;
        k = k + 1;
        proof {
            if (k as int) < k_star {
            } else if k as int > k_star {
                assert(false);
            }
            if (k as int) < k_star {
                lemma_utf8_len_take_mono(s, k as int, k_star);
            }
        }
    }
    proof {
        if (k as int) < k_star {
            lemma_utf8_len_take_mono(s, k as int, k_star);
        }
    }
    let mut out = chars_of(name);
    let mid = chars_of(" (imported ");
    append_chars(&mut out, mid.as_slice());
    let mut i: usize = 0;
    while i < k
        invariant
            k <= id@.len(),
            i <= k,
            out@ == name@ + " (imported "@ + id@.take(i as int),
        decreases k - i,
    {
        out.push(id[i]);
        i = i + 1;
        assert(out@ =~= name@ + " (imported "@ + id@.take(i as int));
    }
    out.push(')');
    proof {
        reveal_strlit(")");
        assert(out@ =~= name@ + " (imported "@ + original_id@.take(k as int) + ")"@);
        assert(is_byte_prefix(original_id@, k as int, suffix_bytes(original_id@)));
    }
    string_from_chars(out.as_slice())
}

/// Whether a CSV cell has to be quoted: it holds a comma, a quote or a line
/// break.
pub open spec fn needs_quoting(v: Seq<char>) -> bool {
    exists|i: int|
        0 <= i < v.len() && (#[trigger] v[i] == ',' || v[i] == '"' || v[i] == '\n' || v[i]
            == '\r')
}

/// A CSV cell: quoted, with quotes doubled, when it needs to be.
pub open spec fn csv_cell(v: Seq<char>) -> Seq<char> {
    if needs_quoting(v) {
        seq!['"'] + replace_all(v, seq!['"'], seq!['"', '"']) + seq!['"']
    } else {
        v
    }
}

fn quoting_needed(value: &[char]) -> (r: bool)
    ensures
        r == needs_quoting(value@),
{
    let mut i: usize = 0;
    while i < value.len()
        invariant
            i <= value@.len(),
            forall|j: int|
                0 <= j < i ==> !(#[trigger] value@[j] == ',' || value@[j] == '"' || value@[j]
                    == '\n' || value@[j] == '\r'),
        decreases value@.len() - i,
    {
        let c = value[i];
        if c == ',' || c == '"' || c == '\n' || c == '\r' {
            assert(value@[i as int] == c);
            return true;
        }
        i = i + 1;
    }
    false
}

fn cell_chars(value: &[char]) -> (r: Vec<char>)
    ensures
        r@ == csv_cell(value@),
{
    if !quoting_needed(value) {
        let mut r: Vec<char> = Vec::new();
        append_chars(&mut r, value);
        assert(r@ =~= value@);
        return r;
    }
    let mut out: Vec<char> = Vec::new();
    out.push('"');
    let q: Vec<char> = vec!['"'];
    let qq: Vec<char> = vec!['"', '"'];
    assert(q@ =~= seq!['"']);
    assert(qq@ =~= seq!['"', '"']);
    let body = replace_chars(value, q.as_slice(), qq.as_slice());
    append_chars(&mut out, body.as_slice());
    out.push('"');
    assert(out@ =~= seq!['"'] + replace_all(value@, seq!['"'], seq!['"', '"']) + seq!['"']);
    out
}

pub fn csv_escape(value: &str) -> (r: String)
    ensures
        r@ == csv_cell(value@),
{
    let v = chars_of(value);
    let c = cell_chars(v.as_slice());
    string_from_chars(c.as_slice())
}

/// The number of empty cells after a summary row's value, run id.
pub const SUMMARY_PADDING: usize = 19;

/// A summary row of a run report: its metric, value and run id as cells,
/// then the empty snapshot columns.
pub open spec fn summary_row(run_id: Seq<char>, metric: Seq<char>, value: Seq<char>) -> Seq<char> {
    "summary,"@ + csv_cell(metric) + seq![','] + csv_cell(value) + seq![','] + csv_cell(run_id)
        + Seq::new(SUMMARY_PADDING as nat, |i: int| ',') + seq!['\n']
}

/// Appends a summary row to a CSV report.
pub fn push_summary_row(csv: &mut String, run_id: &str, metric: &str, value: &str)
    ensures
        final(csv)@ == old(csv)@ + summary_row(run_id@, metric@, value@),
{
    let mut row = chars_of("summary,");
    let m = cell_chars(chars_of(metric).as_slice());
    let v = cell_chars(chars_of(value).as_slice());
    let r = cell_chars(chars_of(run_id).as_slice());
    append_chars(&mut row, m.as_slice());
    row.push(',');
    append_chars(&mut row, v.as_slice());
    row.push(',');
    append_chars(&mut row, r.as_slice());
    let ghost before_pad = row@;
    let mut k: usize = 0;
    while k < SUMMARY_PADDING
        invariant
            k <= SUMMARY_PADDING,
            row@ == before_pad + Seq::new(k as nat, |i: int| ','),
        decreases SUMMARY_PADDING - k,
    {
        row.push(',');
        k = k + 1;
        assert(row@ =~= before_pad + Seq::new(k as nat, |i: int| ','));
    }
    row.push('\n');
    let ghost old_csv = csv@;
    let mut i: usize = 0;
    while i < row.len()
        invariant
            i <= row@.len(),
            csv@ == old_csv + row@.take(i as int),
        decreases row@.len() - i,
    {
        push_char(csv, row[i]);
        i = i + 1;
        assert(csv@ =~= old_csv + row@.take(i as int));
    }
    assert(row@.take(row@.len() as int) =~= row@);
    assert(row@ =~= summary_row(run_id@, metric@, value@));
}

/// The token of a `Bearer` authorization header value, when it has one.
pub open spec fn bearer_of(value: Seq<char>) -> Option<Seq<char>> {
    if "Bearer "@.is_prefix_of(value) && value.len() > 7 {
        Some(value.skip(7))
    } else {
        None
    }
}

/// The token that an agent presents in its `authorization` header.
pub fn bearer_from_authorization(value: &str) -> (r: Option<String>)
    ensures
        opt_view(r) == bearer_of(value@),
{
    proof {
        reveal_strlit("Bearer ");
    }
    let v = chars_of(value);
    let prefix = chars_of("Bearer ");
    if !starts_with_chars(v.as_slice(), prefix.as_slice()) || v.len() <= 7 {
        return None;
    }
    let mut out: Vec<char> = Vec::new();
    let mut i: usize = 7;
    while i < v.len()
        invariant
            7 <= i <= v@.len(),
            out@ == v@.subrange(7, i as int),
        decreases v@.len() - i,
    {
        out.push(v[i]);
        i = i + 1;
        assert(out@ =~= v@.subrange(7, i as int));
    }
    assert(out@ =~= value@.skip(7));
    Some(string_from_chars(out.as_slice()))
}

/// Whether an agent's `x-velamq-protocol-version` header names the protocol
/// revision this control plane speaks.
pub fn protocol_version_supported(value: Option<&str>) -> (r: bool)
    ensures
        r == match value {
            Some(v) => parse_u16_spec(v@) == Some(AGENT_PROTOCOL_VERSION),
            None => false,
        },
{
    match value {
        Some(v) => {
            let cs = chars_of(v);
            match parse_u16_chars(cs.as_slice()) {
                Some(n) => n == AGENT_PROTOCOL_VERSION,
                None => false,
            }
        },
        None => false,
    }
}

/// `uuid::Uuid::new_v4().to_string()`: a random version 4 UUID in its
/// hyphenated lower-case form, 36 characters long. Nothing else is stated:
/// the value is random.
#[verifier::external_body]
pub(crate) fn new_uuid() -> (r: String)
    ensures
        r@.len() == 36,
{
    uuid::Uuid::new_v4().to_string()
}

/// `chrono::Utc::now()`, as whole seconds and the nanoseconds past them.
/// Nothing is stated of the value: it is the clock's.
#[verifier::external_body]
pub(crate) fn utc_now() -> UtcTimestamp {
    let now = chrono::Utc::now();
    UtcTimestamp { secs: now.timestamp(), nanos: now.timestamp_subsec_nanos() }
}

/// The id a saved item ends with: the one the request names, else its own;
/// a fresh one when that is blank.
pub open spec fn chosen_id(own: Seq<char>, requested: Option<Seq<char>>, fresh: Seq<char>) -> Seq<
    char,
> {
    let id = match requested {
        Some(i) => i,
        None => own,
    };
    if is_blank(id) {
        fresh
    } else {
        id
    }
}

/// `new` is `old` completed as a broker profile is before it is stored,
/// given a fresh id and the time now.
pub open spec fn profile_completed(
    old: BrokerProfile,
    new: BrokerProfile,
    requested_id: Option<Seq<char>>,
    fresh: Seq<char>,
    now: UtcTimestamp,
) -> bool {
    &&& new.id@ == chosen_id(old.id@, requested_id, fresh)
    &&& new.host@ == if is_blank(old.host@) {
        "127.0.0.1"@
    } else {
        old.host@
    }
    &&& new.port == if old.port == 0 {
        old.protocol.spec_default_port()
    } else {
        old.port
    }
    &&& opt_view(new.websocket_path) == if old.protocol.spec_is_websocket() {
        Some(websocket_path_for(opt_view(old.websocket_path)))
    } else {
        None
    }
    &&& new.name@ == if is_blank(old.name@) {
        old.protocol.storage_name() + "://"@ + new.host@ + seq![':'] + dec_text(new.port as nat)
    } else {
        old.name@
    }
    &&& new.keepalive_secs == if old.keepalive_secs == 0 {
        30
    } else {
        old.keepalive_secs
    }
    &&& new.connection_timeout_secs == if old.connection_timeout_secs == 0 {
        10
    } else {
        old.connection_timeout_secs
    }
    &&& new.mqtt5 == if old.mqtt_version == MqttVersion::V5_0 && old.mqtt5 is None {
        Some(
            Mqtt5Config {
                session_expiry_interval_secs: None,
                receive_maximum: None,
                maximum_packet_size: None,
                topic_alias_maximum: None,
                request_problem_information: true,
            },
        )
    } else {
        old.mqtt5
    }
    &&& new.tls == if old.protocol == BrokerProtocol::Mqtts || old.protocol == BrokerProtocol::Wss {
        old.tls
    } else {
        None
    }
    &&& new.created_at == if old.created_at.secs == 0 {
        now
    } else {
        old.created_at
    }
    &&& new.updated_at == now
    &&& new.protocol == old.protocol
    &&& new.mqtt_version == old.mqtt_version
    &&& new.auth == old.auth
    &&& new.clean_session == old.clean_session
}

fn take_id(own: &mut String, requested: Option<String>, fresh: String)
    ensures
        final(own)@ == chosen_id(
            old(own)@,
            opt_view(requested),
            fresh@,
        ),
{
    if let Some(id) = requested {
        *own = id;
    }
    if blank(own.as_str()) {
        *own = fresh;
    }
}

/// Completes a broker profile with the given fresh id and time.
pub fn complete_broker_profile(
    profile: &mut BrokerProfile,
    id: Option<String>,
    fresh_id: String,
    now: UtcTimestamp,
)
    ensures
        profile_completed(*old(profile), *final(profile), opt_view(id), fresh_id@, now),
{
    let ghost requested = opt_view(id);
    take_id(&mut profile.id, id, fresh_id);
    if blank(profile.host.as_str()) {
        profile.host = string_of("127.0.0.1");
    }
    if profile.port == 0 {
        profile.port = profile.protocol.default_port();
    }
    if profile.protocol.is_websocket() {
        let path = match &profile.websocket_path {
            Some(p) => normalize_websocket_path(Some(p.as_str())),
            None => normalize_websocket_path(None),
        };
        profile.websocket_path = Some(path);
    } else {
        profile.websocket_path = None;
    }
    if blank(profile.name.as_str()) {
        let mut n = chars_of(profile.protocol.as_str());
        let sep = chars_of("://");
        append_chars(&mut n, sep.as_slice());
        let h = chars_of(profile.host.as_str());
        append_chars(&mut n, h.as_slice());
        n.push(':');
        let port = u64_text(profile.port as u64);
        append_chars(&mut n, port.as_slice());
        assert(n@ =~= profile.protocol.storage_name() + "://"@ + profile.host@ + seq![':']
            + dec_text(profile.port as nat));
        profile.name = string_from_chars(n.as_slice());
    }
    if profile.keepalive_secs == 0 {
        profile.keepalive_secs = 30;
    }
    if profile.connection_timeout_secs == 0 {
        profile.connection_timeout_secs = 10;
    }
    if profile.mqtt_version == MqttVersion::V5_0 && profile.mqtt5.is_none() {
        profile.mqtt5 = Some(Mqtt5Config::default());
    }
    match profile.protocol {
        BrokerProtocol::Mqtts | BrokerProtocol::Wss => {},
        _ => {
            profile.tls = None;
        },
    }
    if profile.created_at.secs == 0 {
        profile.created_at = now;
    }
    profile.updated_at = now;
}

/// Completes a broker profile before it is stored: a fresh id when it has
/// none, defaults for a blank host, a zero port, keepalive and timeout, a
/// name from its address, MQTT 5 properties for a 5.0 profile, no TLS on a
/// plain transport, and the time of the change.
pub fn normalize_broker_profile(profile: &mut BrokerProfile, id: Option<String>)
    ensures
        exists|fresh: Seq<char>, now: UtcTimestamp|
            fresh.len() == 36 && #[trigger] profile_completed(
                *old(profile),
                *final(profile),
                opt_view(id),
                fresh,
                now,
            ),
{
    let fresh = new_uuid();
    let now = utc_now();
    let ghost f = fresh@;
    complete_broker_profile(profile, id, fresh, now);
    assert(profile_completed(*old(profile), *profile, opt_view(id), f, now));
}

/// `new` is `old` completed as a payload profile is before it is stored.
pub open spec fn payload_profile_completed(
    old: PayloadProfile,
    new: PayloadProfile,
    requested_id: Option<Seq<char>>,
    fresh: Seq<char>,
    now: UtcTimestamp,
) -> bool {
    &&& new.id@ == chosen_id(old.id@, requested_id, fresh)
    &&& new.name@ == if is_blank(old.name@) {
        "Payload Profile"@
    } else {
        old.name@
    }
    &&& new.kind == old.kind
    &&& new.created_at == if old.created_at.secs == 0 {
        now
    } else {
        old.created_at
    }
    &&& new.updated_at == now
}

/// Completes a payload profile with the given fresh id and time.
pub fn complete_payload_profile(
    profile: &mut PayloadProfile,
    id: Option<String>,
    fresh_id: String,
    now: UtcTimestamp,
)
    ensures
        payload_profile_completed(*old(profile), *final(profile), opt_view(id), fresh_id@, now),
{
    take_id(&mut profile.id, id, fresh_id);
    if blank(profile.name.as_str()) {
        profile.name = string_of("Payload Profile");
    }
    if profile.created_at.secs == 0 {
        profile.created_at = now;
    }
    profile.updated_at = now;
}

/// Completes a payload profile before it is stored: a fresh id when it has
/// none, a default name, and the time of the change.
pub fn normalize_payload_profile(profile: &mut PayloadProfile, id: Option<String>)
    ensures
        exists|fresh: Seq<char>, now: UtcTimestamp|
            fresh.len() == 36 && #[trigger] payload_profile_completed(
                *old(profile),
                *final(profile),
                opt_view(id),
                fresh,
                now,
            ),
{
    let fresh = new_uuid();
    let now = utc_now();
    let ghost f = fresh@;
    complete_payload_profile(profile, id, fresh, now);
    assert(payload_profile_completed(*old(profile), *profile, opt_view(id), f, now));
}

/// The name of an item imported from `original_id` and renamed on conflict.
pub open spec fn is_imported_name(name: Seq<char>, renamed: Seq<char>, original_id: Seq<char>) -> bool {
    exists|k: int|
        is_byte_prefix(original_id, k, suffix_bytes(original_id)) && renamed == name
            + " (imported "@ + original_id.take(k) + ")"@
}

/// `prefix` followed by `fresh`, as a new id.
fn prefixed_id(prefix: &str, fresh: &str) -> (r: String)
    ensures
        r@ == prefix@ + fresh@,
{
    let mut v = chars_of(prefix);
    let f = chars_of(fresh);
    append_chars(&mut v, f.as_slice());
    string_from_chars(v.as_slice())
}

/// `new` is the broker profile `old` renamed on import: its id is `broker-`
/// and `fresh`, its name marks where it came from, both of its times are
/// `now`, and nothing else changes.
pub open spec fn broker_profile_renamed(
    old: BrokerProfile,
    new: BrokerProfile,
    original_id: Seq<char>,
    fresh: Seq<char>,
    now: UtcTimestamp,
) -> bool {
    &&& new.id@ == "broker-"@ + fresh
    &&& is_imported_name(old.name@, new.name@, original_id)
    &&& new == (BrokerProfile { id: new.id, name: new.name, created_at: now, updated_at: now, ..old })
}

/// Renames an imported broker profile with the id `fresh_id` at the time `now`.
pub fn rename_broker_profile_with(
    profile: &mut BrokerProfile,
    original_id: &str,
    fresh_id: String,
    now: UtcTimestamp,
)
    requires
        exists|k: int| is_byte_prefix(original_id@, k, suffix_bytes(original_id@)),
    ensures
        broker_profile_renamed(*old(profile), *final(profile), original_id@, fresh_id@, now),
{
    profile.id = prefixed_id("broker-", fresh_id.as_str());
    profile.name = imported_name(profile.name.as_str(), original_id);
    profile.created_at = now;
    profile.updated_at = now;
}

/// Renames a broker profile that an import would otherwise overwrite: a new
/// id, the name marked as imported from `original_id`, and the time now.
pub fn rename_broker_profile(profile: &mut BrokerProfile, original_id: &str)
    requires
        exists|k: int| is_byte_prefix(original_id@, k, suffix_bytes(original_id@)),
    ensures
        exists|fresh: Seq<char>, now: UtcTimestamp|
            fresh.len() == 36 && #[trigger] broker_profile_renamed(
                *old(profile),
                *final(profile),
                original_id@,
                fresh,
                now,
            ),
{
    let fresh = new_uuid();
    let now = utc_now();
    let ghost f = fresh@;
    rename_broker_profile_with(profile, original_id, fresh, now);
    assert(broker_profile_renamed(*old(profile), *profile, original_id@, f, now));
}

/// `new` is the payload profile `old` renamed on import: its id is
/// `payload-` and `fresh`, its name marks where it came from, both of its
/// times are `now`, and nothing else changes.
pub open spec fn payload_profile_renamed(
    old: PayloadProfile,
    new: PayloadProfile,
    original_id: Seq<char>,
    fresh: Seq<char>,
    now: UtcTimestamp,
) -> bool {
    &&& new.id@ == "payload-"@ + fresh
    &&& is_imported_name(old.name@, new.name@, original_id)
    &&& new == (PayloadProfile { id: new.id, name: new.name, created_at: now, updated_at: now, ..old })
}

/// Renames an imported payload profile with the id `fresh_id` at the time `now`.
pub fn rename_payload_profile_with(
    profile: &mut PayloadProfile,
    original_id: &str,
    fresh_id: String,
    now: UtcTimestamp,
)
    requires
        exists|k: int| is_byte_prefix(original_id@, k, suffix_bytes(original_id@)),
    ensures
        payload_profile_renamed(*old(profile), *final(profile), original_id@, fresh_id@, now),
{
    profile.id = prefixed_id("payload-", fresh_id.as_str());
    profile.name = imported_name(profile.name.as_str(), original_id);
    profile.created_at = now;
    profile.updated_at = now;
}

/// Renames a payload profile that an import would otherwise overwrite: a new
/// id, the name marked as imported from `original_id`, and the time now.
pub fn rename_payload_profile(profile: &mut PayloadProfile, original_id: &str)
    requires
        exists|k: int| is_byte_prefix(original_id@, k, suffix_bytes(original_id@)),
    ensures
        exists|fresh: Seq<char>, now: UtcTimestamp|
            fresh.len() == 36 && #[trigger] payload_profile_renamed(
                *old(profile),
                *final(profile),
                original_id@,
                fresh,
                now,
            ),
{
    let fresh = new_uuid();
    let now = utc_now();
    let ghost f = fresh@;
    rename_payload_profile_with(profile, original_id, fresh, now);
    assert(payload_profile_renamed(*old(profile), *profile, original_id@, f, now));
}

/// Why an agent request is turned away before its node is looked up.
#[derive(Debug, Clone, PartialEq, Eq)]
pub enum AgentRequestError {
    /// The agent speaks another protocol revision (HTTP 426).
    UnsupportedProtocol(String),
    /// The request carries no bearer token (HTTP 401).
    MissingToken(String),
}

/// The checks of an agent request's headers, in order: the protocol
/// revision, then a bearer token, which comes back.
pub fn check_agent_headers(protocol_version: Option<&str>, authorization: Option<&str>) -> (r:
    Result<String, AgentRequestError>)
    ensures
        ({
            let supported = match protocol_version {
                Some(v) => parse_u16_spec(v@) == Some(AGENT_PROTOCOL_VERSION),
                None => false,
            };
            let token = match authorization {
                Some(a) => bearer_of(a@),
                None => None,
            };
            if !supported {
                r matches Err(AgentRequestError::UnsupportedProtocol(m)) && m@
                    == "unsupported agent protocol; expected 1"@
            } else {
                match token {
                    Some(t) => r matches Ok(v) && v@ == t,
                    None => r matches Err(AgentRequestError::MissingToken(m)) && m@
                        == "missing agent token"@,
                }
            }
        }),
{
    if !protocol_version_supported(protocol_version) {
        return Err(
            AgentRequestError::UnsupportedProtocol(
                string_of("unsupported agent protocol; expected 1"),
            ),
        );
    }
    let token = match authorization {
        Some(a) => bearer_from_authorization(a),
        None => None,
    };
    match token {
        Some(t) => Ok(t),
        None => Err(AgentRequestError::MissingToken(string_of("missing agent token"))),
    }
}

/// The headers that mark a response of the legacy API as deprecated: the
/// flag, the sunset date and the successor.
pub fn deprecation_headers() -> (r: Vec<(&'static str, &'static str)>)
    ensures
        r@.len() == 3,
        r@[0].0@ == "deprecation"@ && r@[0].1@ == "true"@,
        r@[1].0@ == "sunset"@ && r@[1].1@ == "Sat, 01 Aug 2026 00:00:00 GMT"@,
        r@[2].0@ == "link"@ && r@[2].1@ == "</api/v2/runs>; rel=\"successor-version\""@,
{
    vec![
        ("deprecation", "true"),
        ("sunset", "Sat, 01 Aug 2026 00:00:00 GMT"),
        ("link", "</api/v2/runs>; rel=\"successor-version\""),
    ]
}

/// `new` is annotation `old` as it is saved on run `run_id`: a fresh id
/// when its own is blank, the run it was posted to, the title `Annotation`
/// when its own is blank, and nothing else changed.
pub open spec fn annotation_completed(
    old: Annotation,
    new: Annotation,
    run_id: Seq<char>,
    fresh: Seq<char>,
) -> bool {
    &&& new.id@ == if is_blank(old.id@) {
        fresh
    } else {
        old.id@
    }
    &&& new.run_id@ == run_id
    &&& new.title@ == if is_blank(old.title@) {
        "Annotation"@
    } else {
        old.title@
    }
    &&& new == (Annotation { id: new.id, run_id: new.run_id, title: new.title, ..old })
}

/// Completes an annotation posted to run `run_id`, with `fresh_id` for an
/// annotation that has no id.
pub fn complete_annotation_with(annotation: &mut Annotation, run_id: &str, fresh_id: String)
    ensures
        annotation_completed(*old(annotation), *final(annotation), run_id@, fresh_id@),
{
    if blank(annotation.id.as_str()) {
        annotation.id = fresh_id;
    }
    annotation.run_id = string_of(run_id);
    if blank(annotation.title.as_str()) {
        annotation.title = string_of("Annotation");
    }
}

/// Completes an annotation posted to run `run_id`: a fresh id when it has
/// none, the run, and a default title.
pub fn complete_annotation(annotation: &mut Annotation, run_id: &str)
    ensures
        exists|fresh: Seq<char>|
            fresh.len() == 36 && #[trigger] annotation_completed(
                *old(annotation),
                *final(annotation),
                run_id@,
                fresh,
            ),
{
    let fresh = new_uuid();
    let ghost f = fresh@;
    complete_annotation_with(annotation, run_id, fresh);
    assert(annotation_completed(*old(annotation), *annotation, run_id@, f));
}

/// Renames an imported scenario with the id `fresh_id` at the time `now`:
/// its id becomes `scenario-` and `fresh_id`, its name is marked as
/// imported from `original_id`, and both of its times become `now`.
pub fn rename_scenario_with(
    id: &mut String,
    name: &mut String,
    created_at: &mut UtcTimestamp,
    updated_at: &mut UtcTimestamp,
    original_id: &str,
    fresh_id: String,
    now: UtcTimestamp,
)
    requires
        exists|k: int| is_byte_prefix(original_id@, k, suffix_bytes(original_id@)),
    ensures
        final(id)@ == "scenario-"@ + fresh_id@,
        exists|k: int|
            is_byte_prefix(original_id@, k, suffix_bytes(original_id@)) && final(name)@ == old(
                name,
            )@ + " (imported "@ + original_id@.take(k) + ")"@,
        *final(created_at) == now,
        *final(updated_at) == now,
{
    *id = prefixed_id("scenario-", fresh_id.as_str());
    *name = imported_name(name.as_str(), original_id);
    *created_at = now;
    *updated_at = now;
}

/// Renames a scenario that an import would otherwise overwrite: a fresh
/// `scenario-` id, the name marked as imported from `original_id`, and the
/// time now.
pub fn rename_scenario(
    id: &mut String,
    name: &mut String,
    created_at: &mut UtcTimestamp,
    updated_at: &mut UtcTimestamp,
    original_id: &str,
)
    requires
        exists|k: int| is_byte_prefix(original_id@, k, suffix_bytes(original_id@)),
    ensures
        "scenario-"@.is_prefix_of(final(id)@),
        final(id)@.len() == 45,
        exists|k: int|
            is_byte_prefix(original_id@, k, suffix_bytes(original_id@)) && final(name)@ == old(
                name,
            )@ + " (imported "@ + original_id@.take(k) + ")"@,
        *final(created_at) == *final(updated_at),
{
    let fresh = new_uuid();
    let now = utc_now();
    rename_scenario_with(id, name, created_at, updated_at, original_id, fresh, now);
    proof {
        reveal_strlit("scenario-");
        assert(id@.take(9) =~= "scenario-"@);
    }
}

} // verus!
