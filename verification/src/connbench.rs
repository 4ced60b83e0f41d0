//! The connection benchmark's command line: its options, their defaults,
//! and how each argument is read and checked.
//!
//! The connect rate is a floating-point option; its text is handed back to
//! the program to parse, and whether it came out negative is handed in
//! again for the final checks.

use vstd::prelude::*;
use crate::decimal::{int_error_message, int_error_text, parse_unsigned_chars, parse_unsigned_spec, IntErrorKind};
use crate::text::{
    append_chars, ascii_lower_all, ascii_lower_chars, chars_of, contains_chars, contains_seq,
    opt_view, str_eq, string_from_chars, string_of,
};

verus! {

/// The options of a connection benchmark, but for its connect rate.
#[derive(Debug, Clone)]
pub struct ConnbenchConfig {
    pub host: String,
    pub port: u16,
    pub clients: u64,
    pub start_index: u64,
    pub client_prefix: String,
    pub connect_timeout_ms: u64,
    pub hold_secs: u64,
    pub keepalive_secs: u64,
    pub clean_session: bool,
    pub username: Option<String>,
    pub password: Option<String>,
    pub max_in_flight_spawns: usize,
    pub publish_interval_ms: u64,
    pub payload_bytes: usize,
    pub topic: String,
    pub qos: u8,
    pub progress_secs: u64,
    pub report_json: Option<String>,
}

/// The options as text and numbers.
pub struct ConnbenchView {
    pub host: Seq<char>,
    pub port: u16,
    pub clients: u64,
    pub start_index: u64,
    pub client_prefix: Seq<char>,
    pub connect_timeout_ms: u64,
    pub hold_secs: u64,
    pub keepalive_secs: u64,
    pub clean_session: bool,
    pub username: Option<Seq<char>>,
    pub password: Option<Seq<char>>,
    pub max_in_flight_spawns: usize,
    pub publish_interval_ms: u64,
    pub payload_bytes: usize,
    pub topic: Seq<char>,
    pub qos: u8,
    pub progress_secs: u64,
    pub report_json: Option<Seq<char>>,
}

impl View for ConnbenchConfig {
    type V = ConnbenchView;

    open spec fn view(&self) -> ConnbenchView {
        ConnbenchView {
            host: self.host@,
            port: self.port,
            clients: self.clients,
            start_index: self.start_index,
            client_prefix: self.client_prefix@,
            connect_timeout_ms: self.connect_timeout_ms,
            hold_secs: self.hold_secs,
            keepalive_secs: self.keepalive_secs,
            clean_session: self.clean_session,
            username: opt_view(self.username),
            password: opt_view(self.password),
            max_in_flight_spawns: self.max_in_flight_spawns,
            publish_interval_ms: self.publish_interval_ms,
            payload_bytes: self.payload_bytes,
            topic: self.topic@,
            qos: self.qos,
            progress_secs: self.progress_secs,
            report_json: opt_view(self.report_json),
        }
    }
}

/// The options before any argument is read.
pub open spec fn default_connbench() -> ConnbenchView {
    ConnbenchView {
        host: "127.0.0.1"@,
        port: 1883,
        clients: 1000,
        start_index: 0,
        client_prefix: "velamq-connbench"@,
        connect_timeout_ms: 10_000,
        hold_secs: 30,
        keepalive_secs: 30,
        clean_session: true,
        username: None,
        password: None,
        max_in_flight_spawns: 4096,
        publish_interval_ms: 0,
        payload_bytes: 0,
        topic: "velamq/bench/{client_id}"@,
        qos: 0,
        progress_secs: 5,
        report_json: None,
    }
}

impl Default for ConnbenchConfig {
    fn default() -> (r: Self)
        ensures
            r@ == default_connbench(),
    {
        ConnbenchConfig {
            host: string_of("127.0.0.1"),
            port: 1883,
            clients: 1000,
            start_index: 0,
            client_prefix: string_of("velamq-connbench"),
            connect_timeout_ms: 10_000,
            hold_secs: 30,
            keepalive_secs: 30,
            clean_session: true,
            username: None,
            password: None,
            max_in_flight_spawns: 4096,
            publish_interval_ms: 0,
            payload_bytes: 0,
            topic: string_of("velamq/bench/{client_id}"),
            qos: 0,
            progress_secs: 5,
            report_json: None,
        }
    }
}

/// Whether the arguments ask for help.
pub fn wants_help(args: &Vec<String>) -> (r: bool)
    ensures
        r == exists|k: int|
            0 <= k < args@.len() && (#[trigger] args@[k]@ == "-h"@ || args@[k]@ == "--help"@),
{
    let mut k: usize = 0;
    while k < args.len()
        invariant
            k <= args@.len(),
            forall|j: int| 0 <= j < k ==> !(#[trigger] args@[j]@ == "-h"@ || args@[j]@ == "--help"@),
        decreases args@.len() - k,
    {
        if str_eq(args[k].as_str(), "-h") || str_eq(args[k].as_str(), "--help") {
            return true;
        }
        k = k + 1;
    }
    false
}

/// The message for an option given without its value.
pub open spec fn missing_value_text(key: Seq<char>) -> Seq<char> {
    key + " requires a value"@
}

/// Takes the value that follows an option.
pub fn take_value(args: &mut Vec<String>, key: &str) -> (r: Result<String, String>)
    ensures
        old(args)@.len() == 0 ==> final(args)@ == old(args)@ && (r matches Err(e) && e@
            == missing_value_text(key@)),
        old(args)@.len() > 0 ==> final(args)@ == old(args)@.drop_first() && (r matches Ok(v) && v
            == old(args)@[0]),
{
    if args.len() == 0 {
        let mut m = chars_of(key);
        let tail = chars_of(" requires a value");
        append_chars(&mut m, tail.as_slice());
        return Err(string_from_chars(m.as_slice()));
    }
    let v = args.remove(0);
    assert(args@ =~= old(args)@.drop_first());
    Ok(v)
}

/// `format!("{:?}", s)` of a string: the text between double quotes, in
/// the `Debug` form std writes for `str` (double quotes, backslashes and
/// control characters escaped; single quotes left as they are).
pub uninterp spec fn debug_quoted(s: Seq<char>) -> Seq<char>;

/// `format!("{value:?}")` on a string slice, the `Debug` form that std
/// writes for it.
#[verifier::external_body]
fn quote_debug(value: &str) -> (r: String)
    ensures
        r@ == debug_quoted(value@),
{
    format!("{value:?}")
}

/// The message for an option whose value does not parse.
pub open spec fn invalid_value_text(key: Seq<char>, value: Seq<char>, reason: Seq<char>) -> Seq<
    char,
> {
    key + " invalid value "@ + debug_quoted(value) + ": "@ + reason
}

fn invalid_value(key: &str, value: &str, reason: &str) -> (r: String)
    ensures
        r@ == invalid_value_text(key@, value@, reason@),
{
    let mut m = chars_of(key);
    let a = chars_of(" invalid value ");
    append_chars(&mut m, a.as_slice());
    let q = quote_debug(value);
    let qc = chars_of(q.as_str());
    append_chars(&mut m, qc.as_slice());
    let b = chars_of(": ");
    append_chars(&mut m, b.as_slice());
    let r = chars_of(reason);
    append_chars(&mut m, r.as_slice());
    string_from_chars(m.as_slice())
}

/// An option's value read as an unsigned integer no larger than `max`, or
/// the message naming the option, the value and what is wrong with it.
pub open spec fn unsigned_option(key: Seq<char>, value: Seq<char>, max: nat) -> Result<nat, Seq<char>> {
    match parse_unsigned_spec(value, max) {
        Ok(n) => Ok(n),
        Err(k) => Err(invalid_value_text(key, value, int_error_text(k))),
    }
}

/// Reads an option's value as an unsigned integer no larger than `max`.
pub fn parse_value(value: &str, key: &str, max: u64) -> (r: Result<u64, String>)
    ensures
        match unsigned_option(key@, value@, max as nat) {
            Ok(n) => r == Ok::<u64, String>(n as u64),
            Err(m) => r matches Err(e) && e@ == m,
        },
        r matches Ok(v) ==> v <= max,
        unsigned_option(key@, value@, max as nat) matches Ok(n) ==> n <= max,
{
    proof {
        crate::decimal::lemma_parse_unsigned_le(value@, max as nat);
    }
    let cs = chars_of(value);
    match parse_unsigned_chars(cs.as_slice(), max) {
        Ok(n) => Ok(n),
        Err(k) => Err(invalid_value(key, value, int_error_message(k))),
    }
}

/// The words read as true and as false, in any ASCII case.
pub open spec fn bool_option(key: Seq<char>, value: Seq<char>) -> Result<bool, Seq<char>> {
    let v = ascii_lower_all(value);
    if v == "1"@ || v == "true"@ || v == "yes"@ || v == "on"@ {
        Ok(true)
    } else if v == "0"@ || v == "false"@ || v == "no"@ || v == "off"@ {
        Ok(false)
    } else {
        Err(key + " expects true/false"@)
    }
}

pub fn parse_bool(value: &str, key: &str) -> (r: Result<bool, String>)
    ensures
        match bool_option(key@, value@) {
            Ok(b) => r == Ok::<bool, String>(b),
            Err(m) => r matches Err(e) && e@ == m,
        },
{
    let cs = chars_of(value);
    let lower = string_from_chars(ascii_lower_chars(cs.as_slice()).as_slice());
    let v = lower.as_str();
    if str_eq(v, "1") || str_eq(v, "true") || str_eq(v, "yes") || str_eq(v, "on") {
        Ok(true)
    } else if str_eq(v, "0") || str_eq(v, "false") || str_eq(v, "no") || str_eq(v, "off") {
        Ok(false)
    } else {
        let mut m = chars_of(key);
        let tail = chars_of(" expects true/false");
        append_chars(&mut m, tail.as_slice());
        Err(string_from_chars(m.as_slice()))
    }
}

/// The position of the last `:` in `s`, or -1.
pub open spec fn last_colon(s: Seq<char>) -> int
    decreases s.len(),
{
    if s.len() == 0 {
        -1
    } else if s.last() == ':' {
        s.len() - 1
    } else {
        last_colon(s.drop_last())
    }
}

/// A bracket of an IPv6 literal.
pub open spec fn is_bracket(c: char) -> bool {
    c == '[' || c == ']'
}

/// `s` without the brackets at its start.
pub open spec fn strip_brackets_start(s: Seq<char>) -> Seq<char>
    decreases s.len(),
{
    if s.len() > 0 && is_bracket(s[0]) {
        strip_brackets_start(s.drop_first())
    } else {
        s
    }
}

/// `s` without the brackets at its end.
pub open spec fn strip_brackets_end(s: Seq<char>) -> Seq<char>
    decreases s.len(),
{
    if s.len() > 0 && is_bracket(s.last()) {
        strip_brackets_end(s.drop_last())
    } else {
        s
    }
}

/// The host and port of a `host:port` target, split at the last colon, the
/// host without surrounding brackets.
pub open spec fn target_option(value: Seq<char>) -> Result<(Seq<char>, u16), Seq<char>> {
    let i = last_colon(value);
    if i < 0 {
        Err("--target must be host:port"@)
    } else {
        match unsigned_option("--target port"@, value.skip(i + 1), u16::MAX as nat) {
            Ok(p) => Ok((strip_brackets_end(strip_brackets_start(value.take(i))), p as u16)),
            Err(m) => Err(m),
        }
    }
}

fn strip_brackets(s: &[char]) -> (r: Vec<char>)
    ensures
        r@ == strip_brackets_end(strip_brackets_start(s@)),
{
    let mut start: usize = 0;
    assert(s@.subrange(0, s@.len() as int) =~= s@);
    while start < s.len() && (s[start] == '[' || s[start] == ']')
        invariant
            start <= s@.len(),
            strip_brackets_start(s@) == strip_brackets_start(s@.subrange(start as int, s@.len() as int)),
        decreases s@.len() - start,
    {
        assert(s@.subrange(start as int, s@.len() as int).drop_first() =~= s@.subrange(
            start + 1,
            s@.len() as int,
        ));
        start = start + 1;
    }
    let ghost front = s@.subrange(start as int, s@.len() as int);
    assert(strip_brackets_start(front) == front);
    let mut end: usize = s.len();
    while end > start && (s[end - 1] == '[' || s[end - 1] == ']')
        invariant
            start <= end <= s@.len(),
            front == s@.subrange(start as int, s@.len() as int),
            strip_brackets_end(front) == strip_brackets_end(s@.subrange(start as int, end as int)),
        decreases end,
    {
        assert(s@.subrange(start as int, end as int).drop_last() =~= s@.subrange(
            start as int,
            end - 1,
        ));
        end = end - 1;
    }
    let mut r: Vec<char> = Vec::new();
    let mut i: usize = start;
    while i < end
        invariant
            start <= i <= end <= s@.len(),
            r@ == s@.subrange(start as int, i as int),
        decreases end - i,
    {
        r.push(s[i]);
        i = i + 1;
        assert(r@ =~= s@.subrange(start as int, i as int));
    }
    r
}

/// Splits a `host:port` target.
pub fn parse_target(value: &str) -> (r: Result<(String, u16), String>)
    ensures
        match target_option(value@) {
            Ok((h, p)) => r matches Ok((host, port)) && host@ == h && port == p,
            Err(m) => r matches Err(e) && e@ == m,
        },
{
    let cs = chars_of(value);
    let mut i: usize = cs.len();
    assert(cs@.take(cs@.len() as int) =~= cs@);
    while i > 0 && cs[i - 1] != ':'
        invariant
            i <= cs@.len(),
            cs@ == value@,
            last_colon(cs@) == last_colon(cs@.take(i as int)),
        decreases i,
    {
        assert(cs@.take(i as int).drop_last() =~= cs@.take(i - 1));
        i = i - 1;
    }
    proof {
        if i > 0 {
            assert(cs@.take(i as int).last() == ':');
        } else {
            assert(cs@.take(0) =~= Seq::<char>::empty());
        }
    }
    if i == 0 {
        return Err(string_of("--target must be host:port"));
    }
    let colon = i - 1;
    let mut host_chars: Vec<char> = Vec::new();
    let mut k: usize = 0;
    while k < colon
        invariant
            colon < cs@.len(),
            k <= colon,
            host_chars@ == cs@.take(k as int),
        decreases colon - k,
    {
        host_chars.push(cs[k]);
        k = k + 1;
        assert(host_chars@ =~= cs@.take(k as int));
    }
    let mut port_chars: Vec<char> = Vec::new();
    let mut k: usize = colon + 1;
    while k < cs.len()
        invariant
            colon < cs@.len(),
            colon + 1 <= k <= cs@.len(),
            port_chars@ == cs@.subrange(colon + 1, k as int),
        decreases cs@.len() - k,
    {
        port_chars.push(cs[k]);
        k = k + 1;
        assert(port_chars@ =~= cs@.subrange(colon + 1, k as int));
    }
    assert(port_chars@ =~= value@.skip(colon + 1));
    assert(last_colon(value@) == colon as int);
    assert(host_chars@ == value@.take(colon as int));
    let port_text = string_from_chars(port_chars.as_slice());
    match parse_value(port_text.as_str(), "--target port", 65535) {
        Ok(p) => {
            let host = strip_brackets(host_chars.as_slice());
            Ok((string_from_chars(host.as_slice()), p as u16))
        },
        Err(e) => Err(e),
    }
}

/// The error messages of failed connections, grouped by cause: refusals,
/// quota or limit errors and I/O errors get one message each, others stay.
pub open spec fn error_group(message: Seq<char>) -> Seq<char> {
    let lower = ascii_lower_all(message);
    if contains_seq(lower, "connection refused"@) {
        "connection refused"@
    } else if contains_seq(lower, "quota exceeded"@) || contains_seq(lower, "limit reached"@) {
        "quota exceeded"@
    } else if contains_seq(lower, "i/o"@) || contains_seq(lower, "broken pipe"@) {
        "io error"@
    } else {
        message
    }
}

pub fn normalize_error(message: String) -> (r: String)
    ensures
        r@ == error_group(message@),
{
    let cs = chars_of(message.as_str());
    let lower = ascii_lower_chars(cs.as_slice());
    let refused = chars_of("connection refused");
    let quota = chars_of("quota exceeded");
    let limit = chars_of("limit reached");
    let io = chars_of("i/o");
    let pipe = chars_of("broken pipe");
    if contains_chars(lower.as_slice(), refused.as_slice()) {
        string_of("connection refused")
    } else if contains_chars(lower.as_slice(), quota.as_slice()) || contains_chars(
        lower.as_slice(),
        limit.as_slice(),
    ) {
        string_of("quota exceeded")
    } else if contains_chars(lower.as_slice(), io.as_slice()) || contains_chars(
        lower.as_slice(),
        pipe.as_slice(),
    ) {
        string_of("io error")
    } else {
        message
    }
}

/// What reading one option did: set an option, or found the connect rate,
/// whose text the program parses.
#[derive(Debug, Clone)]
pub enum ArgStep {
    Applied,
    ConnectRate(String),
}

/// The options an unsigned option sets, with the largest value each takes.
pub open spec fn unsigned_key_max(key: Seq<char>) -> Option<nat> {
    if key == "--port"@ {
        Some(u16::MAX as nat)
    } else if key == "--clients"@ || key == "--start-index"@ || key == "--connect-timeout-ms"@
        || key == "--hold-secs"@ || key == "--keepalive-secs"@ || key == "--publish-interval-ms"@
        || key == "--progress-secs"@ {
        Some(u64::MAX as nat)
    } else if key == "--max-in-flight-spawns"@ || key == "--payload-bytes"@ {
        Some(usize::MAX as nat)
    } else if key == "--qos"@ {
        Some(u8::MAX as nat)
    } else {
        None
    }
}

/// `c` with the unsigned option `key` set to `n`.
pub open spec fn with_unsigned(c: ConnbenchView, key: Seq<char>, n: nat) -> ConnbenchView {
    if key == "--port"@ {
        ConnbenchView { port: n as u16, ..c }
    } else if key == "--clients"@ {
        ConnbenchView { clients: n as u64, ..c }
    } else if key == "--start-index"@ {
        ConnbenchView { start_index: n as u64, ..c }
    } else if key == "--connect-timeout-ms"@ {
        ConnbenchView { connect_timeout_ms: n as u64, ..c }
    } else if key == "--hold-secs"@ {
        ConnbenchView { hold_secs: n as u64, ..c }
    } else if key == "--keepalive-secs"@ {
        ConnbenchView { keepalive_secs: n as u64, ..c }
    } else if key == "--publish-interval-ms"@ {
        ConnbenchView { publish_interval_ms: n as u64, ..c }
    } else if key == "--progress-secs"@ {
        ConnbenchView { progress_secs: n as u64, ..c }
    } else if key == "--max-in-flight-spawns"@ {
        ConnbenchView { max_in_flight_spawns: n as usize, ..c }
    } else if key == "--payload-bytes"@ {
        ConnbenchView { payload_bytes: n as usize, ..c }
    } else {
        ConnbenchView { qos: n as u8, ..c }
    }
}

/// `c` with the text option `key` set to `v`.
pub open spec fn with_text(c: ConnbenchView, key: Seq<char>, v: Seq<char>) -> ConnbenchView {
    if key == "--host"@ {
        ConnbenchView { host: v, ..c }
    } else if key == "--client-prefix"@ {
        ConnbenchView { client_prefix: v, ..c }
    } else if key == "--topic"@ {
        ConnbenchView { topic: v, ..c }
    } else if key == "--username"@ {
        ConnbenchView { username: Some(v), ..c }
    } else if key == "--password"@ {
        ConnbenchView { password: Some(v), ..c }
    } else {
        ConnbenchView { report_json: Some(v), ..c }
    }
}

/// The options that take their value as text.
pub open spec fn is_text_key(key: Seq<char>) -> bool {
    key == "--host"@ || key == "--client-prefix"@ || key == "--topic"@ || key == "--username"@
        || key == "--password"@ || key == "--report-json"@
}

/// The two names of the connect rate option.
pub open spec fn is_rate_key(key: Seq<char>) -> bool {
    key == "--connect-rate"@ || key == "--connect-rate-per-sec"@
}

/// Every option that the benchmark knows.
pub open spec fn is_known_key(key: Seq<char>) -> bool {
    key == "--target"@ || key == "--clean-session"@ || is_rate_key(key) || is_text_key(key)
        || unsigned_key_max(key) is Some
}

/// What reading option `key`, with `value` the argument after it, does to
/// the options: the new options and the step on success, or the message.
pub open spec fn arg_effect(c: ConnbenchView, key: Seq<char>, value: Seq<char>) -> Result<
    (ConnbenchView, Option<Seq<char>>),
    Seq<char>,
> {
    if key == "--target"@ {
        match target_option(value) {
            Ok((h, p)) => Ok((ConnbenchView { host: h, port: p, ..c }, None)),
            Err(m) => Err(m),
        }
    } else if key == "--clean-session"@ {
        match bool_option("--clean-session"@, value) {
            Ok(b) => Ok((ConnbenchView { clean_session: b, ..c }, None)),
            Err(m) => Err(m),
        }
    } else if is_rate_key(key) {
        Ok((c, Some(value)))
    } else if is_text_key(key) {
        Ok((with_text(c, key, value), None))
    } else {
        match unsigned_option(key, value, unsigned_key_max(key).unwrap()) {
            Ok(n) => Ok((with_unsigned(c, key, n), None)),
            Err(m) => Err(m),
        }
    }
}

/// The name under which an option asks for its value: the connect rate
/// always by its short name.
pub open spec fn value_key(key: Seq<char>) -> Seq<char> {
    if is_rate_key(key) {
        "--connect-rate"@
    } else {
        key
    }
}

fn set_unsigned(config: &mut ConnbenchConfig, key: &str, n: u64, Ghost(max): Ghost<nat>)
    requires
        unsigned_key_max(key@) == Some(max),
        n <= max,
    ensures
        final(config)@ == with_unsigned(old(config)@, key@, n as nat),
{
    if str_eq(key, "--port") {
        config.port = n as u16;
    } else if str_eq(key, "--clients") {
        config.clients = n;
    } else if str_eq(key, "--start-index") {
        config.start_index = n;
    } else if str_eq(key, "--connect-timeout-ms") {
        config.connect_timeout_ms = n;
    } else if str_eq(key, "--hold-secs") {
        config.hold_secs = n;
    } else if str_eq(key, "--keepalive-secs") {
        config.keepalive_secs = n;
    } else if str_eq(key, "--publish-interval-ms") {
        config.publish_interval_ms = n;
    } else if str_eq(key, "--progress-secs") {
        config.progress_secs = n;
    } else if str_eq(key, "--max-in-flight-spawns") {
        config.max_in_flight_spawns = n as usize;
    } else if str_eq(key, "--payload-bytes") {
        config.payload_bytes = n as usize;
    } else {
        config.qos = n as u8;
    }
}

fn set_text(config: &mut ConnbenchConfig, key: &str, v: String)
    requires
        is_text_key(key@),
    ensures
        final(config)@ == with_text(old(config)@, key@, v@),
{
    if str_eq(key, "--host") {
        config.host = v;
    } else if str_eq(key, "--client-prefix") {
        config.client_prefix = v;
    } else if str_eq(key, "--topic") {
        config.topic = v;
    } else if str_eq(key, "--username") {
        config.username = Some(v);
    } else if str_eq(key, "--password") {
        config.password = Some(v);
    } else {
        config.report_json = Some(v);
    }
}

fn unsigned_max_of(key: &str) -> (r: Option<u64>)
    ensures
        match unsigned_key_max(key@) {
            Some(m) => r == Some(m as u64),
            None => r is None,
        },
{
    if str_eq(key, "--port") {
        Some(65535)
    } else if str_eq(key, "--clients") || str_eq(key, "--start-index") || str_eq(
        key,
        "--connect-timeout-ms",
    ) || str_eq(key, "--hold-secs") || str_eq(key, "--keepalive-secs") || str_eq(
        key,
        "--publish-interval-ms",
    ) || str_eq(key, "--progress-secs") {
        Some(u64::MAX)
    } else if str_eq(key, "--max-in-flight-spawns") || str_eq(key, "--payload-bytes") {
        Some(usize::MAX as u64)
    } else if str_eq(key, "--qos") {
        Some(255)
    } else {
        None
    }
}

fn is_text_option(key: &str) -> (r: bool)
    ensures
        r == is_text_key(key@),
{
    str_eq(key, "--host") || str_eq(key, "--client-prefix") || str_eq(key, "--topic") || str_eq(
        key,
        "--username",
    ) || str_eq(key, "--password") || str_eq(key, "--report-json")
}

/// Reads option `key` and, when it takes one, the value after it from
/// `args`. On success the options change as [`arg_effect`] says; on an
/// error they stay as they were.
pub fn apply_arg(config: &mut ConnbenchConfig, key: &str, args: &mut Vec<String>) -> (r: Result<
    ArgStep,
    String,
>)
    ensures
        !is_known_key(key@) ==> final(args)@ == old(args)@ && final(config)@ == old(config)@
            && (r matches Err(e) && e@ == "unknown argument "@ + key@ + "; use --help"@),
        is_known_key(key@) && old(args)@.len() == 0 ==> final(args)@ == old(args)@
            && final(config)@ == old(config)@ && (r matches Err(e) && e@ == missing_value_text(
            value_key(key@),
        )),
        is_known_key(key@) && old(args)@.len() > 0 ==> final(args)@ == old(args)@.drop_first() && match arg_effect(
            old(config)@,
            key@,
            old(args)@[0]@,
        ) {
            Ok((c, step)) => final(config)@ == c && match step {
                Some(t) => r matches Ok(ArgStep::ConnectRate(v)) && v@ == t,
                None => r matches Ok(ArgStep::Applied),
            },
            Err(m) => final(config)@ == old(config)@ && (r matches Err(e) && e@ == m),
        },
{
    let known_unsigned = unsigned_max_of(key);
    let text = is_text_option(key);
    let rate = str_eq(key, "--connect-rate") || str_eq(key, "--connect-rate-per-sec");
    let target = str_eq(key, "--target");
    let clean = str_eq(key, "--clean-session");
    if !(target || clean || rate || text || known_unsigned.is_some()) {
        let mut m = chars_of("unknown argument ");
        let k = chars_of(key);
        append_chars(&mut m, k.as_slice());
        let tail = chars_of("; use --help");
        append_chars(&mut m, tail.as_slice());
        return Err(string_from_chars(m.as_slice()));
    }
    let taken = if rate {
        take_value(args, "--connect-rate")
    } else {
        take_value(args, key)
    };
    let value = match taken {
        Ok(v) => v,
        Err(e) => {
            return Err(e);
        },
    };
    if target {
        match parse_target(value.as_str()) {
            Ok((host, port)) => {
                config.host = host;
                config.port = port;
                Ok(ArgStep::Applied)
            },
            Err(e) => Err(e),
        }
    } else if clean {
        match parse_bool(value.as_str(), "--clean-session") {
            Ok(b) => {
                config.clean_session = b;
                Ok(ArgStep::Applied)
            },
            Err(e) => Err(e),
        }
    } else if rate {
        Ok(ArgStep::ConnectRate(value))
    } else if text {
        set_text(config, key, value);
        Ok(ArgStep::Applied)
    } else {
        let max = known_unsigned.unwrap();
        match parse_value(value.as_str(), key, max) {
            Ok(n) => {
                set_unsigned(config, key, n, Ghost(unsigned_key_max(key@).unwrap()));
                Ok(ArgStep::Applied)
            },
            Err(e) => Err(e),
        }
    }
}

/// The last checks on the options, in order: clients, connect rate, QoS.
pub open spec fn config_check(c: ConnbenchView, rate_negative: bool) -> Option<Seq<char>> {
    if c.clients == 0 {
        Some("--clients must be greater than 0"@)
    } else if rate_negative {
        Some("--connect-rate must be >= 0"@)
    } else if c.qos > 2 {
        Some("--qos must be 0, 1, or 2"@)
    } else {
        None
    }
}

/// Checks the options once every argument is read; `rate_negative` tells
/// whether the connect rate came out below zero.
pub fn check_config(config: &ConnbenchConfig, rate_negative: bool) -> (r: Result<(), String>)
    ensures
        match config_check(config@, rate_negative) {
            Some(m) => r matches Err(e) && e@ == m,
            None => r is Ok,
        },
{
    if config.clients == 0 {
        return Err(string_of("--clients must be greater than 0"));
    }
    if rate_negative {
        return Err(string_of("--connect-rate must be >= 0"));
    }
    if config.qos > 2 {
        return Err(string_of("--qos must be 0, 1, or 2"));
    }
    Ok(())
}

/// The publish topic of client `index`: `{client}` replaced by the index
/// and `{client_id}` by the client's id.
pub open spec fn client_topic(template: Seq<char>, prefix: Seq<char>, index: u64) -> Seq<char> {
    crate::text::replace_all(
        crate::text::replace_all(template, "{client}"@, crate::decimal::dec_text(index as nat)),
        "{client_id}"@,
        prefix + seq!['-'] + crate::decimal::dec_text(index as nat),
    )
}

/// The client id of client `index`: the prefix, a dash and the index.
pub fn client_id(prefix: &str, index: u64) -> (r: String)
    ensures
        r@ == prefix@ + seq!['-'] + crate::decimal::dec_text(index as nat),
{
    let mut m = chars_of(prefix);
    m.push('-');
    let digits = crate::decimal::u64_text(index);
    append_chars(&mut m, digits.as_slice());
    string_from_chars(m.as_slice())
}

/// The topic client `index` publishes to.
pub fn topic_for_client(template: &str, prefix: &str, index: u64) -> (r: String)
    ensures
        r@ == client_topic(template@, prefix@, index),
{
    proof {
        reveal_strlit("{client}");
        reveal_strlit("{client_id}");
    }
    let t = chars_of(template);
    let digits = crate::decimal::u64_text(index);
    let id = client_id(prefix, index);
    let idc = chars_of(id.as_str());
    let a = chars_of("{client}");
    let b = chars_of("{client_id}");
    let first = crate::text::replace_chars(t.as_slice(), a.as_slice(), digits.as_slice());
    let second = crate::text::replace_chars(first.as_slice(), b.as_slice(), idc.as_slice());
    string_from_chars(second.as_slice())
}

} // verus!
