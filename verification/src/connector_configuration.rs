//! Connector configuration as the Akri operator mounts it, and the MQTT connection values
//! derived from it.

use vstd::prelude::*;

use crate::text::chars_of;

verus! {

/// The AIO metadata for the connector.
pub struct AIOMetadata {
    pub aio_min_version: Option<String>,
    pub aio_max_version: Option<String>,
}

/// The MQTT connection configuration mounted for the connector.
pub struct MqttConnectionConfiguration {
    pub host: String,
    pub keep_alive_seconds: u64,
    pub max_inflight_messages: u16,
    pub protocol: Protocol,
    pub authentication: MqttAuthentication,
    pub session_expiry_seconds: u32,
    pub tls: Option<MqttTls>,
}

/// The protocol of the MQTT connection.
pub enum Protocol {
    Mqtt,
}

/// TLS settings of the MQTT connection.
pub struct MqttTls {
    pub mode: Mode,
    pub trusted_ca_certificate_config_map_ref: Option<String>,
}

/// Whether TLS is enabled.
#[allow(non_camel_case_types)]
pub enum Mode {
    Enabled,
    enabled,
    Disabled,
    disabled,
}

/// How the connector authenticates to the broker.
pub struct MqttAuthentication {
    pub method: Method,
    pub service_account_token_settings: ServiceAccountTokenSettings,
}

/// The authentication method.
pub enum Method {
    ServiceAccountToken,
}

/// Settings of service account token authentication.
pub struct ServiceAccountTokenSettings {
    pub audience: String,
}

/// The diagnostics configuration mounted for the connector.
pub struct DiagnosticsConfig {
    pub logs: DiagnosticsLogs,
}

/// The logging part of the diagnostics configuration.
pub struct DiagnosticsLogs {
    pub level: LogLevel,
}

/// The log level for the connector.
pub enum LogLevel {
    Trace,
    Log,
    Info,
    Warn,
    Error,
}

/// The host used where the configuration names none.
pub fn default_host() -> (r: String)
    ensures
        r@ == "aio-broker:18883"@,
{
    String::from_str("aio-broker:18883")
}

/// The keep-alive interval, in seconds, used where the configuration names none.
pub fn default_keep_alive_seconds() -> (r: u64)
    ensures
        r == 60,
{
    60
}

// ---------------------------------------------------------------------------------------
// Port numbers
// ---------------------------------------------------------------------------------------

/// Why a port number could not be read, as `u16::from_str` reports it.
#[derive(Debug, PartialEq, Eq)]
pub enum PortParseError {
    /// The text is empty.
    Empty,
    /// The text holds a character other than a decimal digit (after an optional leading `+`).
    InvalidDigit,
    /// The number does not fit in 16 bits.
    PosOverflow,
}

/// `c` is a decimal digit.
pub open spec fn is_decimal_digit(c: char) -> bool {
    '0' <= c && c <= '9'
}

/// The value of the decimal digit `c`.
pub open spec fn digit_value(c: char) -> int {
    (c as u32) - ('0' as u32)
}

/// Reads the digits of `s` from position `i` on onto the value `acc`, left to right: the first
/// character that is no digit, or the first digit that takes the value above `u16::MAX`,
/// ends the reading with an error.
pub open spec fn read_digits(s: Seq<char>, i: int, acc: int) -> Result<u16, PortParseError>
    decreases s.len() - i,
{
    if i < 0 || i >= s.len() {
        Ok(acc as u16)
    } else if !is_decimal_digit(s[i]) {
        Err(PortParseError::InvalidDigit)
    } else if acc * 10 + digit_value(s[i]) > u16::MAX {
        Err(PortParseError::PosOverflow)
    } else {
        read_digits(s, i + 1, acc * 10 + digit_value(s[i]))
    }
}

/// What `s.parse::<u16>()` gives: an optional `+` and then decimal digits only.
pub open spec fn port_outcome(s: Seq<char>) -> Result<u16, PortParseError> {
    if s.len() == 0 {
        Err(PortParseError::Empty)
    } else if s[0] == '+' && s.len() == 1 {
        Err(PortParseError::InvalidDigit)
    } else if s[0] == '+' {
        read_digits(s, 1, 0)
    } else {
        read_digits(s, 0, 0)
    }
}

/// Reads a port number, as `str::parse::<u16>` does.
pub fn parse_port(s: &str) -> (r: Result<u16, PortParseError>)
    ensures
        r == port_outcome(s@),
{
    let v = chars_of(s);
    if v.len() == 0 {
        return Err(PortParseError::Empty);
    }
    let mut i: usize = 0;
    if v[0] == '+' {
        if v.len() == 1 {
            return Err(PortParseError::InvalidDigit);
        }
        i = 1;
    }
    let ghost start = i as int;
    let mut acc: u16 = 0;
    while i < v.len()
        invariant
            v@ == s@,
            start <= i <= v@.len(),
            port_outcome(s@) == read_digits(s@, start, 0),
            read_digits(s@, start, 0) == read_digits(s@, i as int, acc as int),
        decreases v@.len() - i,
    {
        let c = v[i];
        if !('0' <= c && c <= '9') {
            return Err(PortParseError::InvalidDigit);
        }
        let d = (c as u32) - ('0' as u32);
        let next: u32 = (acc as u32) * 10 + d;
        if next > 65535 {
            return Err(PortParseError::PosOverflow);
        }
        acc = next as u16;
        i = i + 1;
    }
    Ok(acc)
}

/// The message that `ParseIntError` shows for each reason.
pub open spec fn port_error_text(e: PortParseError) -> Seq<char> {
    match e {
        PortParseError::Empty => "cannot parse integer from empty string"@,
        PortParseError::InvalidDigit => "invalid digit found in string"@,
        PortParseError::PosOverflow => "number too large to fit in target type"@,
    }
}

impl PortParseError {
    /// The message that `ParseIntError` shows for this reason.
    pub fn message(&self) -> (r: String)
        ensures
            r@ == port_error_text(*self),
    {
        match self {
            PortParseError::Empty => String::from_str("cannot parse integer from empty string"),
            PortParseError::InvalidDigit => String::from_str("invalid digit found in string"),
            PortParseError::PosOverflow => String::from_str("number too large to fit in target type"),
        }
    }
}

/// The character of the decimal digit `d`.
pub open spec fn digit_char(d: nat) -> char {
    (('0' as u32) + d) as char
}

/// The decimal text of `n`: its digits, most significant first, without leading zeros.
pub open spec fn decimal_text(n: nat) -> Seq<char>
    decreases n,
{
    if n < 10 {
        seq![digit_char(n)]
    } else {
        decimal_text(n / 10).push(digit_char(n % 10))
    }
}

/// One more digit read onto the value `v`.
pub open spec fn read_one_more(v: u16, c: char) -> Result<u16, PortParseError> {
    if !is_decimal_digit(c) {
        Err(PortParseError::InvalidDigit)
    } else if v * 10 + digit_value(c) > u16::MAX {
        Err(PortParseError::PosOverflow)
    } else {
        Ok((v * 10 + digit_value(c)) as u16)
    }
}

/// Reading a text with one more character at its end reads that character last.
proof fn lemma_read_digits_push(s: Seq<char>, c: char, i: int, acc: int)
    requires
        0 <= i <= s.len(),
        0 <= acc <= u16::MAX,
    ensures
        read_digits(s.push(c), i, acc) == match read_digits(s, i, acc) {
            Ok(v) => read_one_more(v, c),
            Err(e) => Err(e),
        },
    decreases s.len() - i,
{
    let t = s.push(c);
    if i == s.len() {
        assert(t[i] == c);
        if is_decimal_digit(c) && acc * 10 + digit_value(c) <= u16::MAX {
            assert(read_digits(t, i + 1, acc * 10 + digit_value(c)) == Ok::<u16, PortParseError>(
                (acc * 10 + digit_value(c)) as u16,
            ));
        }
    } else {
        assert(t[i] == s[i]);
        if is_decimal_digit(s[i]) && acc * 10 + digit_value(s[i]) <= u16::MAX {
            lemma_read_digits_push(s, c, i + 1, acc * 10 + digit_value(s[i]));
        }
    }
}

/// A digit character is a decimal digit of that value.
proof fn lemma_digit_char(d: nat)
    requires
        d < 10,
    ensures
        is_decimal_digit(digit_char(d)),
        digit_value(digit_char(d)) == d,
        digit_char(d) != '+',
{
    assert(('0' as u32) == 48);
    assert((48 + d) as char as u32 == 48 + d);
}

/// The decimal text of a number reads back as that number.
proof fn lemma_decimal_reads_back(n: nat)
    requires
        n <= u16::MAX,
    ensures
        read_digits(decimal_text(n), 0, 0) == Ok::<u16, PortParseError>(n as u16),
        decimal_text(n).len() >= 1,
        decimal_text(n)[0] != '+',
    decreases n,
{
    if n < 10 {
        lemma_digit_char(n);
        let s = decimal_text(n);
        assert(read_digits(s, 1, digit_value(s[0])) == Ok::<u16, PortParseError>(n as u16));
    } else {
        let m = n / 10;
        let d = (n % 10) as nat;
        lemma_decimal_reads_back(m);
        lemma_digit_char(d);
        lemma_read_digits_push(decimal_text(m), digit_char(d), 0, 0);
        assert(m * 10 + d == n);
        assert(decimal_text(n)[0] == decimal_text(m)[0]);
    }
}

/// A port number written in decimal reads back as that number.
pub proof fn law_port_reads_back(port: u16)
    ensures
        port_outcome(decimal_text(port as nat)) == Ok::<u16, PortParseError>(port),
{
    lemma_decimal_reads_back(port as nat);
}

// ---------------------------------------------------------------------------------------
// Connection values
// ---------------------------------------------------------------------------------------

/// The MQTT connection values that the mounted configuration gives.
pub struct MqttConnectionValues {
    pub hostname: String,
    pub tcp_port: u16,
    pub use_tls: bool,
    pub keep_alive_seconds: u64,
    pub receive_max: u16,
    pub session_expiry_seconds: u32,
}

/// The index of the first `c` in `s`, or `s.len()` where it has none.
pub open spec fn first_index_of(s: Seq<char>, c: char) -> int
    decreases s.len(),
{
    if s.len() == 0 {
        0
    } else if s[0] == c {
        0
    } else {
        1 + first_index_of(s.drop_first(), c)
    }
}

/// The error text for a host that has no `':'`.
pub open spec fn malformed_host_text(host: Seq<char>) -> Seq<char> {
    "BROKER_TARGET_ADDRESS is malformed. Expected format <hostname>:<port>. Found: "@ + host
}

/// The error text for a port that cannot be read.
pub open spec fn bad_port_text(e: PortParseError) -> Seq<char> {
    "Cannot parse MQTT port from BROKER_TARGET_ADDRESS: "@ + port_error_text(e)
}

/// What the configuration gives: the host is split at its first `':'` into host name and port;
/// the port must read as a `u16`.
pub open spec fn connection_values_outcome(config: MqttConnectionConfiguration) -> Result<
    (Seq<char>, u16),
    Seq<char>,
> {
    let host = config.host@;
    let i = first_index_of(host, ':');
    if i >= host.len() {
        Err(malformed_host_text(host))
    } else {
        match port_outcome(host.subrange(i + 1, host.len() as int)) {
            Ok(port) => Ok((host.subrange(0, i), port)),
            Err(e) => Err(bad_port_text(e)),
        }
    }
}

/// The first `c` found by a scan is `first_index_of`.
pub proof fn lemma_first_index_at(s: Seq<char>, c: char, i: int)
    requires
        0 <= i <= s.len(),
        i < s.len() ==> s[i] == c,
        forall|j: int| 0 <= j < i ==> #[trigger] s[j] != c,
    ensures
        first_index_of(s, c) == i,
    decreases i,
{
    if i > 0 {
        let d = s.drop_first();
        assert forall|j: int| 0 <= j < i - 1 implies #[trigger] d[j] != c by {
            assert(d[j] == s[j + 1]);
        }
        lemma_first_index_at(d, c, i - 1);
    }
}

/// The MQTT connection values that the mounted connection configuration gives: the broker's
/// host name and port (from `host`, in the form `<hostname>:<port>`), whether TLS is used
/// (where `tls` is present), the keep-alive interval, the receive maximum (the maximum of
/// in-flight messages) and the session expiry.
pub fn connection_values(config: &MqttConnectionConfiguration) -> (r: Result<MqttConnectionValues, String>)
    ensures
        match r {
            Ok(v) => {
                &&& connection_values_outcome(*config) == Ok::<(Seq<char>, u16), Seq<char>>((v.hostname@, v.tcp_port))
                &&& v.use_tls == config.tls is Some
                &&& v.keep_alive_seconds == config.keep_alive_seconds
                &&& v.receive_max == config.max_inflight_messages
                &&& v.session_expiry_seconds == config.session_expiry_seconds
            },
            Err(e) => connection_values_outcome(*config) == Err::<(Seq<char>, u16), Seq<char>>(e@),
        },
{
    let host = config.host.as_str();
    let v = chars_of(host);
    let mut i: usize = 0;
    while i < v.len() && v[i] != ':'
        invariant
            v@ == host@,
            i <= v@.len(),
            forall|j: int| 0 <= j < i ==> #[trigger] host@[j] != ':',
        decreases v@.len() - i,
    {
        i = i + 1;
    }
    proof {
        lemma_first_index_at(host@, ':', i as int);
    }
    if i == v.len() {
        let mut msg = String::from_str("BROKER_TARGET_ADDRESS is malformed. Expected format <hostname>:<port>. Found: ");
        msg.append(host);
        return Err(msg);
    }
    let hostname = host.substring_char(0, i);
    let port_text = host.substring_char(i + 1, v.len());
    let tcp_port = match parse_port(port_text) {
        Ok(p) => p,
        Err(e) => {
            let mut msg = String::from_str("Cannot parse MQTT port from BROKER_TARGET_ADDRESS: ");
            msg.append(e.message().as_str());
            return Err(msg);
        },
    };
    match config.protocol {
        Protocol::Mqtt => {},
    }
    Ok(
        MqttConnectionValues {
            hostname: hostname.to_owned(),
            tcp_port,
            use_tls: config.tls.is_some(),
            keep_alive_seconds: config.keep_alive_seconds,
            receive_max: config.max_inflight_messages,
            session_expiry_seconds: config.session_expiry_seconds,
        },
    )
}

/// A host written as a host name free of `':'`, a `':'` and a port number in decimal gives
/// back that host name and that port.
pub proof fn law_host_and_port_read_back(config: MqttConnectionConfiguration, hostname: Seq<char>, port: u16)
    requires
        !hostname.contains(':'),
        config.host@ == hostname + seq![':'] + decimal_text(port as nat),
    ensures
        connection_values_outcome(config) == Ok::<(Seq<char>, u16), Seq<char>>((hostname, port)),
{
    let host = config.host@;
    let i = hostname.len() as int;
    assert forall|j: int| 0 <= j < i implies #[trigger] host[j] != ':' by {
        assert(host[j] == hostname[j]);
    }
    assert(host[i] == ':');
    lemma_first_index_at(host, ':', i);
    assert(host.subrange(i + 1, host.len() as int) =~= decimal_text(port as nat));
    assert(host.subrange(0, i) =~= hostname);
    law_port_reads_back(port);
}

// ---------------------------------------------------------------------------------------
// Environment values
// ---------------------------------------------------------------------------------------

/// What looking up an environment variable found.
pub enum EnvLookup {
    /// The variable is set to this text.
    Present(String),
    /// The variable is not set.
    NotPresent,
    /// The variable is set to something that is not Unicode.
    NotUnicode,
}

/// An optional setting read from the environment: a missing variable is no setting, one
/// that is not Unicode is an error.
pub fn optional_env_value(lookup: EnvLookup) -> (r: Result<Option<String>, String>)
    ensures
        match lookup {
            EnvLookup::Present(v) => r == Ok::<Option<String>, String>(Some(v)),
            EnvLookup::NotPresent => r == Ok::<Option<String>, String>(None),
            EnvLookup::NotUnicode => r is Err && r->Err_0@ == "Could not parse non-unicode environment variable"@,
        },
{
    match lookup {
        EnvLookup::Present(value) => Ok(Some(value)),
        EnvLookup::NotPresent => Ok(None),
        EnvLookup::NotUnicode => Err(String::from_str("Could not parse non-unicode environment variable")),
    }
}

} // verus!
