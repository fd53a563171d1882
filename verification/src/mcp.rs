//! The Model Context Protocol surface: JSON-RPC 2.0, one message per line.
//!
//! What a message asks for is decided here, and so is every word of the answer.
//! Reading the lines, running the tools and writing the answers is left to
//! whoever holds the streams and the radio.
//!
//! Every tool only reads. Nothing that gives away a credential or could drop
//! the operator off the network is a tool: an autonomous model must not be able
//! to do either by calling one.

use crate::json;
use crate::json::Json;
use crate::scan;
use crate::scan::{trim, Class};
use crate::text;
use crate::text::{chars_of, same_text, string_of};
use crate::wlan::bss;
use crate::wlan::bss::{BssEntry, BssSummary};
use serde_json::Value;
use vstd::prelude::*;
use vstd::slice::slice_subrange;

verus! {

/// The revision of the protocol.
pub const PROTOCOL_VERSION: &'static str = "2025-06-18";

/// The version that the server reports of itself.
pub const SERVER_VERSION: &'static str = "0.3.0";

/// How long to wait, in seconds, after asking the driver to scan: results come
/// asynchronously.
pub const SCAN_SETTLE_S: u64 = 4;

/// The line is no JSON.
pub const PARSE_ERROR: i64 = -32700;

/// The message is no request.
pub const INVALID_REQUEST: i64 = -32600;

/// There is no such method or tool.
pub const METHOD_NOT_FOUND: i64 = -32601;

// ---------------------------------------------------------------------------
// Responses
// ---------------------------------------------------------------------------

/// An object without members.
pub open spec fn empty_object() -> Json {
    Json::Object(Map::empty())
}

/// An object with one member.
pub open spec fn object_of(key: Seq<char>, value: Json) -> Json {
    Json::Object(Map::empty().insert(key, value))
}

/// The answer to a request that succeeded.
pub open spec fn success(id: Json, result: Json) -> Json {
    Json::Object(
        Map::empty().insert("jsonrpc"@, Json::Text("2.0"@)).insert("id"@, id).insert(
            "result"@,
            result,
        ),
    )
}

/// The answer to a request that failed.
pub open spec fn failure(id: Json, code: int, message: Seq<char>) -> Json {
    Json::Object(
        Map::empty().insert("jsonrpc"@, Json::Text("2.0"@)).insert("id"@, id).insert(
            "error"@,
            Json::Object(
                Map::empty().insert("code"@, Json::Number(text::signed_decimal(code))).insert(
                    "message"@,
                    Json::Text(message),
                ),
            ),
        ),
    )
}

fn success_response(id: Value, result: Value) -> (r: String)
    ensures
        r@ == json::written(success(json::content(id), json::content(result))),
        json::on_one_line(r@),
{
    let mut response = json::object();
    json::put(&mut response, "jsonrpc", json::of_str("2.0"));
    json::put(&mut response, "id", id);
    json::put(&mut response, "result", result);
    json::render(&response)
}

fn error_response(id: Value, code: i64, message: &str) -> (r: String)
    ensures
        r@ == json::written(failure(json::content(id), code as int, message@)),
        json::on_one_line(r@),
{
    let mut error = json::object();
    json::put(&mut error, "code", json::of_i64(code));
    json::put(&mut error, "message", json::of_str(message));
    let mut response = json::object();
    json::put(&mut response, "jsonrpc", json::of_str("2.0"));
    json::put(&mut response, "id", id);
    json::put(&mut response, "error", error);
    json::render(&response)
}

// ---------------------------------------------------------------------------
// What the server says of itself
// ---------------------------------------------------------------------------

/// What the server tells a client of its use.
pub const INSTRUCTIONS: &'static str =
    "BeaconTrail reads local Windows Wi-Fi state directly from the native WLAN API. Use \
     wifi_status for the current connection, wifi_networks for nearby access points with real dBm \
     and 802.11 capability flags, and wifi_scan to force a refresh. All tools are read-only and \
     Windows-only; nothing is transmitted off the machine. SSIDs, BSSIDs and MAC addresses are \
     sensitive \u{2014} do not repeat them into untrusted contexts.";

/// What the server says of itself.
pub open spec fn introduction() -> Json {
    Json::Object(
        Map::empty().insert("protocolVersion"@, Json::Text(PROTOCOL_VERSION@)).insert(
            "capabilities"@,
            object_of("tools"@, empty_object()),
        ).insert(
            "serverInfo"@,
            Json::Object(
                Map::empty().insert("name"@, Json::Text("beacontrail"@)).insert(
                    "version"@,
                    Json::Text(SERVER_VERSION@),
                ),
            ),
        ).insert("instructions"@, Json::Text(INSTRUCTIONS@)),
    )
}

fn initialize_result() -> (r: Value)
    ensures
        json::content(r) == introduction(),
{
    let mut capabilities = json::object();
    json::put(&mut capabilities, "tools", json::object());
    let mut server = json::object();
    json::put(&mut server, "name", json::of_str("beacontrail"));
    json::put(&mut server, "version", json::of_str(SERVER_VERSION));
    let mut result = json::object();
    json::put(&mut result, "protocolVersion", json::of_str(PROTOCOL_VERSION));
    json::put(&mut result, "capabilities", capabilities);
    json::put(&mut result, "serverInfo", server);
    json::put(&mut result, "instructions", json::of_str(INSTRUCTIONS));
    result
}

/// What `wifi_status` is for.
pub const STATUS_DESCRIPTION: &'static str =
    "Current Wi-Fi state: every WLAN interface, its connection state, and for the associated one \
     the SSID, BSSID, PHY type (ht/vht/he/eht), signal quality, estimated RSSI in dBm, and rx/tx \
     rates. Read-only.";

/// What `wifi_networks` is for.
pub const NETWORKS_DESCRIPTION: &'static str =
    "Nearby access points from the native WLAN BSS list: SSID, BSSID, real RSSI in dBm, band and \
     channel, PHY type, and 802.11 security and capability flags parsed from the beacon \
     information elements (RSN/WPA/HT/VHT/HE/EHT). Returns {count, refreshed, detail, networks}. \
     If the driver's cache comes back empty it is retried once behind a real scan, and \
     `refreshed` reports whether that happened. Read-only.";

/// What the argument `refresh_scan` is for.
pub const REFRESH_DESCRIPTION: &'static str =
    "Force a fresh driver scan and wait ~4s before reading. Cached results are returned \
     immediately without it, but the cache can be sparse or stale \u{2014} prefer this when the \
     completeness of the list matters.";

/// What the argument `detail` is for.
pub const DETAIL_DESCRIPTION: &'static str =
    "summary (default) returns ssid, bssid, band, channel, rssi_dbm, phy_type, security and caps. \
     full adds raw IE ids and names, rates, timestamps and capability bits, and is several times \
     larger \u{2014} request it only when the extra fields are actually needed.";

/// What `wifi_scan` is for.
pub const SCAN_DESCRIPTION: &'static str =
    "Ask every WLAN interface to perform a fresh scan. Returns how many interfaces accepted the \
     request. Results arrive asynchronously \u{2014} read them with wifi_networks a few seconds \
     later. Emits no network traffic beyond a standard Wi-Fi scan.";

/// The schema of an object with these properties.
pub open spec fn schema_of(properties: Json) -> Json {
    Json::Object(
        Map::empty().insert("type"@, Json::Text("object"@)).insert("properties"@, properties),
    )
}

/// What is said of a tool.
pub open spec fn tool_entry(name: Seq<char>, description: Seq<char>, properties: Json) -> Json {
    Json::Object(
        Map::empty().insert("name"@, Json::Text(name)).insert(
            "description"@,
            Json::Text(description),
        ).insert("inputSchema"@, schema_of(properties)),
    )
}

/// The arguments of `wifi_networks`.
pub open spec fn networks_properties() -> Json {
    Json::Object(
        Map::empty().insert(
            "refresh_scan"@,
            Json::Object(
                Map::empty().insert("type"@, Json::Text("boolean"@)).insert(
                    "description"@,
                    Json::Text(REFRESH_DESCRIPTION@),
                ),
            ),
        ).insert(
            "detail"@,
            Json::Object(
                Map::empty().insert("type"@, Json::Text("string"@)).insert(
                    "enum"@,
                    Json::List(seq![Json::Text("summary"@), Json::Text("full"@)]),
                ).insert("description"@, Json::Text(DETAIL_DESCRIPTION@)),
            ),
        ),
    )
}

/// The tools that there are.
pub open spec fn tools() -> Seq<Json> {
    seq![
        tool_entry("wifi_status"@, STATUS_DESCRIPTION@, empty_object()),
        tool_entry("wifi_networks"@, NETWORKS_DESCRIPTION@, networks_properties()),
        tool_entry("wifi_scan"@, SCAN_DESCRIPTION@, empty_object()),
    ]
}

fn describe_tool(name: &str, description: &str, properties: Value) -> (r: Value)
    ensures
        json::content(r) == tool_entry(name@, description@, json::content(properties)),
{
    let mut schema = json::object();
    json::put(&mut schema, "type", json::of_str("object"));
    json::put(&mut schema, "properties", properties);
    let mut tool = json::object();
    json::put(&mut tool, "name", json::of_str(name));
    json::put(&mut tool, "description", json::of_str(description));
    json::put(&mut tool, "inputSchema", schema);
    tool
}

fn networks_arguments() -> (r: Value)
    ensures
        json::content(r) == networks_properties(),
{
    let mut refresh = json::object();
    json::put(&mut refresh, "type", json::of_str("boolean"));
    json::put(&mut refresh, "description", json::of_str(REFRESH_DESCRIPTION));
    let mut choices: Vec<Value> = Vec::new();
    choices.push(json::of_str("summary"));
    choices.push(json::of_str("full"));
    proof {
        assert(json::contents(choices@) =~= seq![Json::Text("summary"@), Json::Text("full"@)]);
    }
    let mut detail = json::object();
    json::put(&mut detail, "type", json::of_str("string"));
    json::put(&mut detail, "enum", json::of_list(choices));
    json::put(&mut detail, "description", json::of_str(DETAIL_DESCRIPTION));
    let mut properties = json::object();
    json::put(&mut properties, "refresh_scan", refresh);
    json::put(&mut properties, "detail", detail);
    properties
}

fn tool_definitions() -> (r: Value)
    ensures
        json::content(r) == Json::List(tools()),
{
    let mut list: Vec<Value> = Vec::new();
    list.push(describe_tool("wifi_status", STATUS_DESCRIPTION, json::object()));
    list.push(describe_tool("wifi_networks", NETWORKS_DESCRIPTION, networks_arguments()));
    list.push(describe_tool("wifi_scan", SCAN_DESCRIPTION, json::object()));
    proof {
        assert(json::contents(list@) =~= tools());
    }
    json::of_list(list)
}

// ---------------------------------------------------------------------------
// Requests
// ---------------------------------------------------------------------------

/// A tool to run, with its arguments.
#[derive(Debug, Clone, Copy, PartialEq, Eq, Structural)]
pub enum Tool {
    Status,
    Scan,
    Networks { full: bool, refresh: bool },
}

/// Why a request failed.
#[derive(Debug)]
pub struct RpcError {
    pub code: i64,
    pub message: String,
}

/// A member, or null where there is none.
pub open spec fn member_or_null(json: Json, key: Seq<char>) -> Json {
    match json::member(json, key) {
        Some(value) => value,
        None => Json::Null,
    }
}

/// What a member says, if it is a string.
pub open spec fn member_text(json: Json, key: Seq<char>) -> Option<Seq<char>> {
    match json::member(json, key) {
        Some(value) => json::said(value),
        None => None,
    }
}

/// What a member is, if it is a boolean.
pub open spec fn member_truth(json: Json, key: Seq<char>) -> Option<bool> {
    match json::member(json, key) {
        Some(value) => json::truth(value),
        None => None,
    }
}

/// The tool that a call asks for, or the code and the words that refuse it.
pub open spec fn called(params: Json) -> Result<Tool, (int, Seq<char>)> {
    let arguments = member_or_null(params, "arguments"@);
    match member_text(params, "name"@) {
        None => Err((INVALID_REQUEST as int, "tools/call requires a name"@)),
        Some(name) => if name == "wifi_status"@ {
            Ok(Tool::Status)
        } else if name == "wifi_scan"@ {
            Ok(Tool::Scan)
        } else if name == "wifi_networks"@ {
            Ok(
                Tool::Networks {
                    full: member_text(arguments, "detail"@) == Some("full"@),
                    refresh: member_truth(arguments, "refresh_scan"@) == Some(true),
                },
            )
        } else {
            Err((METHOD_NOT_FOUND as int, "unknown tool: "@ + name))
        },
    }
}

/// What a message amounts to.
pub enum StepModel {
    /// Nothing is to be answered.
    Silent,
    /// This is the answer.
    Reply(Json),
    /// A tool is to be run for the request with this id.
    Call(Json, Tool),
}

/// What a request for a method amounts to.
pub open spec fn dispatched(id: Json, method: Seq<char>, params: Json) -> StepModel {
    if method == "initialize"@ {
        StepModel::Reply(success(id, introduction()))
    } else if method == "ping"@ {
        StepModel::Reply(success(id, empty_object()))
    } else if method == "tools/list"@ {
        StepModel::Reply(success(id, object_of("tools"@, Json::List(tools()))))
    } else if method == "tools/call"@ {
        match called(params) {
            Ok(tool) => StepModel::Call(id, tool),
            Err((code, message)) => StepModel::Reply(failure(id, code, message)),
        }
    } else {
        StepModel::Reply(failure(id, METHOD_NOT_FOUND as int, "unknown method: "@ + method))
    }
}

/// What a message amounts to. One without a method is no request, with or
/// without an id; one without an id is a notification, which is not answered.
pub open spec fn answered(message: Json) -> StepModel {
    match member_text(message, "method"@) {
        None => StepModel::Reply(
            failure(
                member_or_null(message, "id"@),
                INVALID_REQUEST as int,
                "missing method"@,
            ),
        ),
        Some(method) => match json::member(message, "id"@) {
            None => StepModel::Silent,
            Some(id) => dispatched(id, method, member_or_null(message, "params"@)),
        },
    }
}

/// What a line amounts to, given what is read in it: a line that is no JSON is
/// answered with what is wrong with it.
pub open spec fn handled(read: Result<Json, Seq<char>>) -> StepModel {
    match read {
        Ok(message) => answered(message),
        Err(error) => StepModel::Reply(failure(Json::Null, PARSE_ERROR as int, error)),
    }
}

/// What to do about a message.
#[derive(Debug)]
pub enum Step {
    /// Nothing is to be answered.
    Silent,
    /// Answer this.
    Reply(String),
    /// Run a tool, and answer the request with this id.
    Call { id: Value, tool: Tool },
}

/// Whether what is done about a message is what it amounts to. An answer stands
/// on one line, so that it is one message of the stream.
pub open spec fn carries_out(step: Step, model: StepModel) -> bool {
    match (step, model) {
        (Step::Silent, StepModel::Silent) => true,
        (Step::Reply(reply), StepModel::Reply(json)) => reply@ == json::written(json)
            && json::on_one_line(reply@),
        (Step::Call { id, tool }, StepModel::Call(asked, wanted)) => json::content(id) == asked
            && tool == wanted,
        _ => false,
    }
}

fn get_text<'a>(value: &'a Value, key: &str) -> (r: Option<&'a str>)
    ensures
        text::opt_str(r) == member_text(json::content(*value), key@),
{
    match json::get(value, key) {
        Some(found) => json::as_str(found),
        None => None,
    }
}

fn get_or_null(value: &Value, key: &str) -> (r: Value)
    ensures
        json::content(r) == member_or_null(json::content(*value), key@),
{
    match json::get(value, key) {
        Some(found) => json::copy(found),
        None => json::null(),
    }
}

fn call_tool(params: &Value) -> (r: Result<Tool, RpcError>)
    ensures
        match r {
            Ok(tool) => called(json::content(*params)) == Ok::<Tool, (int, Seq<char>)>(tool),
            Err(error) => called(json::content(*params)) == Err::<Tool, (int, Seq<char>)>(
                (error.code as int, error.message@),
            ),
        },
{
    let name = match get_text(params, "name") {
        Some(name) => name,
        None => {
            return Err(
                RpcError {
                    code: INVALID_REQUEST,
                    message: "tools/call requires a name".to_owned(),
                },
            );
        },
    };
    if same_text(name, "wifi_status") {
        return Ok(Tool::Status);
    }
    if same_text(name, "wifi_scan") {
        return Ok(Tool::Scan);
    }
    if same_text(name, "wifi_networks") {
        let arguments = get_or_null(params, "arguments");
        let full = match get_text(&arguments, "detail") {
            Some(detail) => same_text(detail, "full"),
            None => false,
        };
        let refresh = match json::get(&arguments, "refresh_scan") {
            Some(wanted) => match json::as_bool(wanted) {
                Some(wanted) => wanted,
                None => false,
            },
            None => false,
        };
        return Ok(Tool::Networks { full, refresh });
    }
    let mut message = "unknown tool: ".to_owned();
    message.append(name);
    Err(RpcError { code: METHOD_NOT_FOUND, message })
}

fn dispatch(id: Value, method: &str, params: &Value) -> (r: Step)
    ensures
        carries_out(r, dispatched(json::content(id), method@, json::content(*params))),
{
    if same_text(method, "initialize") {
        return Step::Reply(success_response(id, initialize_result()));
    }
    if same_text(method, "ping") {
        return Step::Reply(success_response(id, json::object()));
    }
    if same_text(method, "tools/list") {
        let mut list = json::object();
        json::put(&mut list, "tools", tool_definitions());
        return Step::Reply(success_response(id, list));
    }
    if same_text(method, "tools/call") {
        return match call_tool(params) {
            Ok(tool) => Step::Call { id, tool },
            Err(error) => Step::Reply(error_response(id, error.code, error.message.as_str())),
        };
    }
    let mut message = "unknown method: ".to_owned();
    message.append(method);
    Step::Reply(error_response(id, METHOD_NOT_FOUND, message.as_str()))
}

/// Decide on a message.
pub fn answer(message: &Value) -> (r: Step)
    ensures
        carries_out(r, answered(json::content(*message))),
{
    let method = match get_text(message, "method") {
        Some(method) => method,
        None => {
            return Step::Reply(
                error_response(get_or_null(message, "id"), INVALID_REQUEST, "missing method"),
            );
        },
    };
    let id = match json::get(message, "id") {
        Some(id) => json::copy(id),
        None => {
            return Step::Silent;
        },
    };
    let params = get_or_null(message, "params");
    dispatch(id, method, &params)
}

/// Text without the byte order marks at its start.
pub open spec fn without_marks(s: Seq<char>) -> Seq<char>
    decreases s.len(),
{
    if s.len() > 0 && s[0] == '\u{feff}' {
        without_marks(s.drop_first())
    } else {
        s
    }
}

fn strip_marks<'a>(s: &'a [char]) -> (r: &'a [char])
    ensures
        r@ == without_marks(s@),
{
    let mut start: usize = 0;
    proof {
        assert(s@.skip(0) =~= s@);
    }
    while start < s.len() && s[start] == '\u{feff}'
        invariant
            start <= s@.len(),
            without_marks(s@) == without_marks(s@.skip(start as int)),
        decreases s@.len() - start,
    {
        proof {
            assert(s@.skip(start as int).drop_first() =~= s@.skip(start + 1));
        }
        start = start + 1;
    }
    let r = slice_subrange(s, start, s.len());
    proof {
        assert(r@ =~= s@.skip(start as int));
    }
    r
}

/// What was read in a line: a value, or what is wrong with the line.
pub open spec fn read_model(read: Result<Value, String>) -> Result<Json, Seq<char>> {
    match read {
        Ok(message) => Ok(json::content(message)),
        Err(error) => Err(error@),
    }
}

/// Decide on what was read in a line.
pub fn handle_read(read: &Result<Value, String>) -> (r: Step)
    ensures
        carries_out(r, handled(read_model(*read))),
{
    match read {
        Ok(message) => answer(message),
        Err(error) => Step::Reply(error_response(json::null(), PARSE_ERROR, error.as_str())),
    }
}

/// Decide on a line. Marks of the byte order at its start, which some tools
/// write, do not end the session.
pub fn handle_line(line: &str) -> (r: Step)
    ensures
        carries_out(r, handled(json::read(without_marks(line@)))),
{
    let chars = chars_of(line);
    let stripped = string_of(strip_marks(chars.as_slice()));
    handle_read(&json::parse(stripped.as_str()))
}

/// Whether a line holds nothing and is passed over.
pub fn is_blank(line: &str) -> (r: bool)
    ensures
        r == (scan::trimmed(line@, Class::Space).len() == 0),
{
    let chars = chars_of(line);
    trim(chars.as_slice(), Class::Space).len() == 0
}

// ---------------------------------------------------------------------------
// Tools
// ---------------------------------------------------------------------------

/// What a tool that ran is answered with. A failure is told to the model as the
/// outcome of the tool, so that it can read the reason and go on.
pub open spec fn tool_outcome(outcome: Seq<char>, failed: bool) -> Json {
    Json::Object(
        Map::empty().insert(
            "content"@,
            Json::List(
                seq![
                    Json::Object(
                        Map::empty().insert("type"@, Json::Text("text"@)).insert(
                            "text"@,
                            Json::Text(outcome),
                        ),
                    ),
                ],
            ),
        ).insert("isError"@, Json::Bool(failed)),
    )
}

/// Answer the request that a tool was run for.
pub fn tool_reply(id: Value, outcome: &Result<String, String>) -> (r: String)
    ensures
        r@ == json::written(
            success(
                json::content(id),
                match *outcome {
                    Ok(said) => tool_outcome(said@, false),
                    Err(said) => tool_outcome(said@, true),
                },
            ),
        ),
        json::on_one_line(r@),
{
    let (said, failed) = match outcome {
        Ok(said) => (said, false),
        Err(said) => (said, true),
    };
    let mut part = json::object();
    json::put(&mut part, "type", json::of_str("text"));
    json::put(&mut part, "text", json::of_str(said.as_str()));
    let mut parts: Vec<Value> = Vec::new();
    parts.push(part);
    proof {
        assert(json::contents(parts@) =~= seq![json::content(part)]);
    }
    let mut result = json::object();
    json::put(&mut result, "content", json::of_list(parts));
    json::put(&mut result, "isError", json::of_bool(failed));
    success_response(id, result)
}

/// What `wifi_scan` says of how many interfaces scan.
pub fn scan_outcome(interfaces: usize) -> (r: String)
    ensures
        r@ == json::written(object_of("interfaces_scanning"@, json::number(interfaces as nat))),
        json::on_one_line(r@),
{
    let mut outcome = json::object();
    json::put(&mut outcome, "interfaces_scanning", json::of_u64(interfaces as u64));
    json::render(&outcome)
}

/// What to do next for the list of networks.
#[derive(Debug, Clone, Copy, PartialEq, Eq, Structural)]
pub enum NetworkStep {
    /// Ask for a scan and let it settle, then read. A refused scan is not
    /// fatal: the cached list is still worth having.
    ScanAndRead,
    /// Read the cached list.
    Read,
    /// Report what was read.
    Report,
}

/// How the list of networks is begun.
pub fn first_step(refresh: bool) -> (r: NetworkStep)
    ensures
        r == (if refresh {
            NetworkStep::ScanAndRead
        } else {
            NetworkStep::Read
        }),
{
    if refresh {
        NetworkStep::ScanAndRead
    } else {
        NetworkStep::Read
    }
}

/// What follows a read that found so many networks. An empty cache is tried
/// once more behind a scan: the radio may not have scanned since it was
/// started, and no networks would be a claim about the surroundings. After a
/// scan the list is reported as it is.
pub fn after_read(last: NetworkStep, found: usize) -> (r: NetworkStep)
    ensures
        r == (if found == 0 && last == NetworkStep::Read {
            NetworkStep::ScanAndRead
        } else {
            NetworkStep::Report
        }),
{
    if found == 0 && last == NetworkStep::Read {
        NetworkStep::ScanAndRead
    } else {
        NetworkStep::Report
    }
}

/// A channel, or null where it is not known.
pub open spec fn number_or_null(n: Option<u16>) -> Json {
    match n {
        Some(n) => json::number(n as nat),
        None => Json::Null,
    }
}

/// The short form of a network.
pub open spec fn summary_json(summary: bss::SummaryModel) -> Json {
    Json::Object(
        Map::empty().insert("ssid"@, json::text_or_null(summary.ssid)).insert(
            "bssid"@,
            Json::Text(summary.bssid),
        ).insert("band"@, Json::Text(summary.band)).insert(
            "channel"@,
            number_or_null(summary.channel),
        ).insert(
            "rssi_dbm"@,
            Json::Number(text::signed_decimal(summary.rssi_dbm as int)),
        ).insert("phy_type"@, Json::Text(summary.phy_type)).insert(
            "security"@,
            Json::Text(summary.security),
        ).insert("caps"@, Json::Text(summary.caps)),
    )
}

/// The short form of a network.
pub fn summary_value(summary: &BssSummary) -> (r: Value)
    ensures
        json::content(r) == summary_json(summary@),
{
    let mut value = json::object();
    json::put(&mut value, "ssid", json::of_opt_str(text::as_deref(&summary.ssid)));
    json::put(&mut value, "bssid", json::of_str(summary.bssid.as_str()));
    json::put(&mut value, "band", json::of_str(summary.band));
    let channel = match summary.channel {
        Some(channel) => json::of_u64(channel as u64),
        None => json::null(),
    };
    json::put(&mut value, "channel", channel);
    json::put(&mut value, "rssi_dbm", json::of_i64(summary.rssi_dbm as i64));
    json::put(&mut value, "phy_type", json::of_str(summary.phy_type.as_str()));
    json::put(&mut value, "security", json::of_str(summary.security));
    json::put(&mut value, "caps", json::of_str(summary.caps.as_str()));
    value
}

/// The short forms of networks, in their order.
pub fn summaries(entries: &Vec<BssEntry>) -> (r: Value)
    ensures
        json::content(r) == Json::List(
            entries@.map_values(|entry: BssEntry| summary_json(bss::summary_of(entry))),
        ),
{
    let mut values: Vec<Value> = Vec::new();
    let mut i: usize = 0;
    while i < entries.len()
        invariant
            i <= entries@.len(),
            values@.len() == i,
            forall|j: int|
                0 <= j < i ==> json::content(#[trigger] values@[j]) == summary_json(
                    bss::summary_of(entries@[j]),
                ),
        decreases entries@.len() - i,
    {
        values.push(summary_value(&BssSummary::of(&entries[i])));
        i = i + 1;
    }
    proof {
        assert(json::contents(values@) =~= entries@.map_values(
            |entry: BssEntry| summary_json(bss::summary_of(entry)),
        ));
    }
    json::of_list(values)
}

/// What the list of networks is reported as.
pub open spec fn networks_json(count: nat, refreshed: bool, full: bool, networks: Json) -> Json {
    Json::Object(
        Map::empty().insert("count"@, json::number(count)).insert(
            "refreshed"@,
            Json::Bool(refreshed),
        ).insert(
            "detail"@,
            Json::Text(
                if full {
                    "full"@
                } else {
                    "summary"@
                },
            ),
        ).insert("networks"@, networks),
    )
}

/// What `wifi_networks` says of a list that was read, given as JSON.
pub fn networks_outcome(count: usize, refreshed: bool, full: bool, networks: Value) -> (r: String)
    ensures
        r@ == json::written(
            networks_json(count as nat, refreshed, full, json::content(networks)),
        ),
        json::on_one_line(r@),
{
    let mut outcome = json::object();
    json::put(&mut outcome, "count", json::of_u64(count as u64));
    json::put(&mut outcome, "refreshed", json::of_bool(refreshed));
    let detail = if full {
        "full"
    } else {
        "summary"
    };
    json::put(&mut outcome, "detail", json::of_str(detail));
    json::put(&mut outcome, "networks", networks);
    json::render(&outcome)
}

// ---------------------------------------------------------------------------
// Laws
// ---------------------------------------------------------------------------

/// A message without an id is never answered, unless it has no method either.
pub proof fn lemma_notifications_are_silent(message: Json)
    requires
        json::member(message, "id"@) is None,
        member_text(message, "method"@) is Some,
    ensures
        answered(message) == StepModel::Silent,
{
}

/// Every answer carries the id of its request.
pub proof fn lemma_answers_carry_the_id(message: Json)
    requires
        answered(message) is Reply,
    ensures
        json::member(answered(message)->Reply_0, "id"@) == Some(member_or_null(message, "id"@)),
        json::member(answered(message)->Reply_0, "jsonrpc"@) == Some(Json::Text("2.0"@)),
{
    reveal_strlit("id");
    reveal_strlit("result");
    reveal_strlit("error");
    reveal_strlit("jsonrpc");
    assert("id"@.len() == 2);
    assert("result"@.len() == 6);
    assert("error"@.len() == 5);
    assert("jsonrpc"@.len() == 7);
}

/// A tool is run only if the request names one of those that are listed.
pub proof fn lemma_only_listed_tools_run(params: Json)
    requires
        called(params) is Ok,
    ensures
        exists|i: int|
            0 <= i < tools().len() && json::member(#[trigger] tools()[i], "name"@) == json::member(
                params,
                "name"@,
            ),
{
    reveal_strlit("name");
    reveal_strlit("description");
    reveal_strlit("inputSchema");
    assert("name"@.len() == 4);
    assert("description"@.len() == 11);
    assert("inputSchema"@.len() == 11);
    assert(json::member(tools()[0], "name"@) == Some(Json::Text("wifi_status"@)));
    assert(json::member(tools()[1], "name"@) == Some(Json::Text("wifi_networks"@)));
    assert(json::member(tools()[2], "name"@) == Some(Json::Text("wifi_scan"@)));
    let named = json::member(params, "name"@)->0;
    assert(json::said(named) is Some);
}

/// Every tool that is listed can be called.
pub proof fn lemma_listed_tools_run(params: Json, i: int)
    requires
        0 <= i < tools().len(),
        json::member(params, "name"@) == json::member(tools()[i], "name"@),
    ensures
        called(params) is Ok,
{
    reveal_strlit("name");
    reveal_strlit("description");
    reveal_strlit("inputSchema");
    assert("name"@.len() == 4);
    assert("description"@.len() == 11);
    assert("inputSchema"@.len() == 11);
    assert(json::member(tools()[0], "name"@) == Some(Json::Text("wifi_status"@)));
    assert(json::member(tools()[1], "name"@) == Some(Json::Text("wifi_networks"@)));
    assert(json::member(tools()[2], "name"@) == Some(Json::Text("wifi_scan"@)));
}

/// Whether a value says what went wrong with a request, under this code and in
/// these words.
pub open spec fn tells_error(answer: Json, code: Seq<char>, words: Seq<char>) -> bool {
    &&& json::member(answer, "result"@) is None
    &&& json::member(answer, "error"@) matches Some(error) && json::member(error, "code"@) == Some(
        Json::Number(code),
    ) && json::member(error, "message"@) == Some(Json::Text(words))
}

/// Whether a value answers a request with this result.
pub open spec fn tells_result(answer: Json, result: Json) -> bool {
    &&& json::member(answer, "error"@) is None
    &&& json::member(answer, "result"@) == Some(result)
}

proof fn lemma_answers_have_two_forms(id: Json, result: Json, code: int, words: Seq<char>)
    ensures
        tells_result(success(id, result), result),
        tells_error(failure(id, code, words), text::signed_decimal(code), words),
        json::member(success(id, result), "id"@) == Some(id),
        json::member(failure(id, code, words), "id"@) == Some(id),
{
    reveal_strlit("id");
    reveal_strlit("result");
    reveal_strlit("error");
    reveal_strlit("jsonrpc");
    reveal_strlit("code");
    reveal_strlit("message");
    assert("id"@.len() == 2);
    assert("result"@.len() == 6);
    assert("error"@.len() == 5);
    assert("jsonrpc"@.len() == 7);
    assert("code"@.len() == 4);
    assert("message"@.len() == 7);
}

/// The codes of the protocol, as they are written.
proof fn lemma_codes_are_written()
    ensures
        text::signed_decimal(PARSE_ERROR as int) == "-32700"@,
        text::signed_decimal(INVALID_REQUEST as int) == "-32600"@,
        text::signed_decimal(METHOD_NOT_FOUND as int) == "-32601"@,
{
    reveal_with_fuel(text::decimal, 6);
    reveal_strlit("-32700");
    reveal_strlit("-32600");
    reveal_strlit("-32601");
    assert(text::decimal(3) =~= seq!['3']);
    assert(text::decimal(32) =~= seq!['3', '2']);
    assert(text::decimal(326) =~= seq!['3', '2', '6']);
    assert(text::decimal(327) =~= seq!['3', '2', '7']);
    assert(text::decimal(3260) =~= seq!['3', '2', '6', '0']);
    assert(text::decimal(3270) =~= seq!['3', '2', '7', '0']);
    assert(text::decimal(32600) =~= seq!['3', '2', '6', '0', '0']);
    assert(text::decimal(32601) =~= seq!['3', '2', '6', '0', '1']);
    assert(text::decimal(32700) =~= seq!['3', '2', '7', '0', '0']);
    assert(text::signed_decimal(PARSE_ERROR as int) =~= "-32700"@);
    assert(text::signed_decimal(INVALID_REQUEST as int) =~= "-32600"@);
    assert(text::signed_decimal(METHOD_NOT_FOUND as int) =~= "-32601"@);
}

/// A line that is no JSON is answered with a parse error, under no id.
pub proof fn lemma_garbage_is_answered(words: Seq<char>)
    ensures
        handled(Err(words)) matches StepModel::Reply(answer) && tells_error(
            answer,
            "-32700"@,
            words,
        ) && json::member(answer, "id"@) == Some(Json::Null),
{
    lemma_codes_are_written();
    lemma_answers_have_two_forms(Json::Null, Json::Null, PARSE_ERROR as int, words);
}

/// A message without a method, or with one that is no text, is no request.
pub proof fn lemma_messages_need_a_method(message: Json)
    requires
        match json::member(message, "method"@) {
            Some(Json::Text(_)) => false,
            _ => true,
        },
    ensures
        handled(Ok(message)) matches StepModel::Reply(answer) && tells_error(
            answer,
            "-32600"@,
            "missing method"@,
        ),
{
    lemma_codes_are_written();
    lemma_answers_have_two_forms(
        member_or_null(message, "id"@),
        Json::Null,
        INVALID_REQUEST as int,
        "missing method"@,
    );
}

/// A request for a method that there is gets its result, and one for another is
/// told that there is no such method.
pub proof fn lemma_methods_are_answered(message: Json, id: Json, method: Seq<char>)
    requires
        json::member(message, "id"@) == Some(id),
        json::member(message, "method"@) == Some(Json::Text(method)),
    ensures
        method == "ping"@ ==> (handled(Ok(message)) matches StepModel::Reply(answer)
            && tells_result(answer, Json::Object(Map::empty())) && json::member(answer, "id"@)
            == Some(id)),
        method == "initialize"@ ==> (handled(Ok(message)) matches StepModel::Reply(answer) && {
            &&& json::member(answer, "error"@) is None
            &&& json::member(answer, "id"@) == Some(id)
            &&& json::member(answer, "result"@) matches Some(result)
            &&& json::member(result, "protocolVersion"@) == Some(Json::Text("2025-06-18"@))
            &&& json::member(result, "capabilities"@) is Some
            &&& json::member(result, "serverInfo"@) is Some
        }),
        method == "tools/list"@ ==> (handled(Ok(message)) matches StepModel::Reply(answer) && {
            &&& json::member(answer, "error"@) is None
            &&& json::member(answer, "id"@) == Some(id)
            &&& json::member(answer, "result"@) matches Some(result)
            &&& json::member(result, "tools"@) matches Some(Json::List(listed))
            &&& listed.len() == 3
        }),
        (method != "ping"@ && method != "initialize"@ && method != "tools/list"@ && method
            != "tools/call"@) ==> (handled(Ok(message)) matches StepModel::Reply(answer)
            && tells_error(answer, "-32601"@, "unknown method: "@ + method) && json::member(
            answer,
            "id"@,
        ) == Some(id)),
{
    reveal_strlit("ping");
    reveal_strlit("initialize");
    reveal_strlit("tools/list");
    reveal_strlit("tools/call");
    reveal_strlit("protocolVersion");
    reveal_strlit("capabilities");
    reveal_strlit("serverInfo");
    reveal_strlit("instructions");
    reveal_strlit("tools");
    assert("ping"@.len() == 4);
    assert("initialize"@.len() == 10 && "initialize"@[0] == 'i');
    assert("tools/list"@.len() == 10 && "tools/list"@[0] == 't' && "tools/list"@[6] == 'l');
    assert("tools/call"@.len() == 10 && "tools/call"@[6] == 'c');
    assert("protocolVersion"@.len() == 15);
    assert("capabilities"@.len() == 12 && "capabilities"@[0] == 'c');
    assert("serverInfo"@.len() == 10);
    assert("instructions"@.len() == 12 && "instructions"@[0] == 'i');
    lemma_codes_are_written();
    let words = "unknown method: "@ + method;
    let code = METHOD_NOT_FOUND as int;
    lemma_answers_have_two_forms(id, empty_object(), code, words);
    lemma_answers_have_two_forms(id, introduction(), code, words);
    lemma_answers_have_two_forms(id, object_of("tools"@, Json::List(tools())), code, words);
}

/// A call names its tool, and the list of networks is scanned for and given in
/// full only where the arguments say so in so many words.
pub proof fn lemma_calls_name_their_tool(params: Json, arguments: Json, name: Seq<char>)
    requires
        json::member(params, "name"@) == Some(Json::Text(name)),
        json::member(params, "arguments"@) == Some(arguments),
    ensures
        called(params) == Ok::<Tool, (int, Seq<char>)>(Tool::Status) <==> name == "wifi_status"@,
        called(params) == Ok::<Tool, (int, Seq<char>)>(Tool::Scan) <==> name == "wifi_scan"@,
        (called(params) matches Ok(Tool::Networks { full, refresh })) <==> name
            == "wifi_networks"@,
        called(params) matches Ok(Tool::Networks { full, refresh }) ==> {
            &&& full <==> json::member(arguments, "detail"@) == Some(Json::Text("full"@))
            &&& refresh <==> json::member(arguments, "refresh_scan"@) == Some(Json::Bool(true))
        },
        called(params) matches Err((code, words)) ==> text::signed_decimal(code) == "-32601"@
            && words == "unknown tool: "@ + name,
{
    lemma_codes_are_written();
    reveal_strlit("wifi_status");
    reveal_strlit("wifi_scan");
    reveal_strlit("wifi_networks");
    assert("wifi_status"@.len() == 11);
    assert("wifi_scan"@.len() == 9);
    assert("wifi_networks"@.len() == 13);
}

/// Without arguments the list of networks is short and the cached one; without
/// a name there is no tool to call.
pub proof fn lemma_calls_may_be_bare(params: Json)
    requires
        json::member(params, "arguments"@) is None,
    ensures
        json::member(params, "name"@) == Some(Json::Text("wifi_networks"@)) ==> called(params)
            == Ok::<Tool, (int, Seq<char>)>(Tool::Networks { full: false, refresh: false }),
        json::member(params, "name"@) is None ==> (called(params) matches Err((code, words))
            && text::signed_decimal(code) == "-32600"@),
{
    lemma_codes_are_written();
    reveal_strlit("wifi_status");
    reveal_strlit("wifi_scan");
    reveal_strlit("wifi_networks");
    assert("wifi_status"@.len() == 11);
    assert("wifi_scan"@.len() == 9);
    assert("wifi_networks"@.len() == 13);
}

/// Marks at the start of a line are taken off, all of them and nothing else.
pub proof fn lemma_marks_are_taken_off(marks: Seq<char>, line: Seq<char>)
    requires
        forall|i: int| 0 <= i < marks.len() ==> #[trigger] marks[i] == '\u{feff}',
        line.len() > 0 ==> line[0] != '\u{feff}',
    ensures
        without_marks(marks + line) == line,
    decreases marks.len(),
{
    if marks.len() == 0 {
        assert(marks + line =~= line);
    } else {
        assert((marks + line)[0] == marks[0]);
        assert((marks + line).drop_first() =~= marks.drop_first() + line);
        assert forall|i: int| 0 <= i < marks.drop_first().len() implies #[trigger] marks.drop_first()[i]
            == '\u{feff}' by {
            assert(marks.drop_first()[i] == marks[i + 1]);
        }
        lemma_marks_are_taken_off(marks.drop_first(), line);
    }
}

/// What a tool said is passed on as text, and marked as an error where the tool
/// failed.
pub proof fn lemma_outcomes_are_passed_on(said: Seq<char>, failed: bool)
    ensures
        json::member(tool_outcome(said, failed), "isError"@) == Some(Json::Bool(failed)),
        json::member(tool_outcome(said, failed), "content"@) matches Some(Json::List(parts))
            && parts.len() == 1 && json::member(parts[0], "text"@) == Some(Json::Text(said))
            && json::member(parts[0], "type"@) == Some(Json::Text("text"@)),
{
    reveal_strlit("isError");
    reveal_strlit("content");
    reveal_strlit("type");
    reveal_strlit("text");
    assert("isError"@.len() == 7 && "isError"@[0] == 'i');
    assert("content"@.len() == 7 && "content"@[0] == 'c');
    assert("type"@[1] == 'y');
    assert("text"@[1] == 'e');
}

/// The short form of a network says what the summary says, field by field.
pub proof fn lemma_short_forms_say_the_summary(summary: bss::SummaryModel)
    ensures
        json::member(summary_json(summary), "bssid"@) == Some(Json::Text(summary.bssid)),
        json::member(summary_json(summary), "band"@) == Some(Json::Text(summary.band)),
        json::member(summary_json(summary), "phy_type"@) == Some(Json::Text(summary.phy_type)),
        json::member(summary_json(summary), "security"@) == Some(Json::Text(summary.security)),
        json::member(summary_json(summary), "caps"@) == Some(Json::Text(summary.caps)),
        json::member(summary_json(summary), "rssi_dbm"@) == Some(
            Json::Number(text::signed_decimal(summary.rssi_dbm as int)),
        ),
        json::member(summary_json(summary), "ssid"@) == Some(
            match summary.ssid {
                Some(ssid) => Json::Text(ssid),
                None => Json::Null,
            },
        ),
        json::member(summary_json(summary), "channel"@) == Some(
            match summary.channel {
                Some(channel) => Json::Number(text::decimal(channel as nat)),
                None => Json::Null,
            },
        ),
{
    reveal_strlit("ssid");
    reveal_strlit("bssid");
    reveal_strlit("band");
    reveal_strlit("channel");
    reveal_strlit("rssi_dbm");
    reveal_strlit("phy_type");
    reveal_strlit("security");
    reveal_strlit("caps");
    assert("ssid"@.len() == 4 && "ssid"@[0] == 's');
    assert("bssid"@.len() == 5);
    assert("band"@.len() == 4 && "band"@[0] == 'b');
    assert("channel"@.len() == 7);
    assert("rssi_dbm"@.len() == 8 && "rssi_dbm"@[0] == 'r');
    assert("phy_type"@.len() == 8 && "phy_type"@[0] == 'p');
    assert("security"@.len() == 8 && "security"@[0] == 's');
    assert("caps"@.len() == 4 && "caps"@[0] == 'c');
}

/// The report on the networks says how many there are, whether they were
/// scanned for, and in which form they are given.
pub proof fn lemma_reports_say_how_they_came(
    count: nat,
    refreshed: bool,
    full: bool,
    networks: Json,
)
    ensures
        json::member(networks_json(count, refreshed, full, networks), "count"@) == Some(
            Json::Number(text::decimal(count)),
        ),
        json::member(networks_json(count, refreshed, full, networks), "refreshed"@) == Some(
            Json::Bool(refreshed),
        ),
        json::member(networks_json(count, refreshed, full, networks), "detail"@) == Some(
            Json::Text(
                if full {
                    "full"@
                } else {
                    "summary"@
                },
            ),
        ),
        json::member(networks_json(count, refreshed, full, networks), "networks"@) == Some(
            networks,
        ),
{
    reveal_strlit("count");
    reveal_strlit("refreshed");
    reveal_strlit("detail");
    reveal_strlit("networks");
    assert("count"@.len() == 5);
    assert("refreshed"@.len() == 9);
    assert("detail"@.len() == 6);
    assert("networks"@.len() == 8);
}

/// The driver is asked to scan at most once: at first where that is wanted, or
/// after a cached list that came back empty.
pub proof fn lemma_scans_happen_once(
    refresh: bool,
    first: NetworkStep,
    found: usize,
    second: NetworkStep,
    found_again: usize,
    third: NetworkStep,
)
    requires
        call_ensures(first_step, (refresh,), first),
        call_ensures(after_read, (first, found), second),
        call_ensures(after_read, (second, found_again), third),
    ensures
        first == NetworkStep::ScanAndRead <==> refresh,
        first == NetworkStep::Read <==> !refresh,
        second == NetworkStep::ScanAndRead <==> !refresh && found == 0,
        second != NetworkStep::ScanAndRead ==> second == NetworkStep::Report,
        third == NetworkStep::Report,
{
}

/// A line of nothing but white space is passed over, and no other.
pub proof fn lemma_blank_lines_are_passed_over(line: &str, blank: bool)
    requires
        call_ensures(is_blank, (line,), blank),
    ensures
        scan::all_in(line@, Class::Space) ==> blank,
        line@.len() > 0 && !scan::is_space(line@[0]) && !scan::is_space(line@.last()) ==> !blank,
{
    let none: Seq<char> = seq![];
    if scan::all_in(line@, Class::Space) {
        scan::lemma_trimming_leaves_nothing(line@, Class::Space);
    }
    if line@.len() > 0 && !scan::is_space(line@[0]) && !scan::is_space(line@.last()) {
        scan::lemma_trimming_bares_the_text(none, line@, none, Class::Space);
        assert(none + line@ + none =~= line@);
    }
}

/// A tool is answered under the id of its request with what it said, and with
/// the mark of an error exactly where it failed.
pub proof fn lemma_tools_are_answered(id: Value, outcome: Result<String, String>, answer: String)
    requires
        call_ensures(tool_reply, (id, &outcome), answer),
    ensures
        exists|told: Json, result: Json|
            {
                &&& answer@ == #[trigger] json::written(told)
                &&& tells_result(told, result)
                &&& json::member(told, "id"@) == Some(json::content(id))
                &&& #[trigger] json::member(result, "isError"@) == Some(Json::Bool(outcome is Err))
            },
{
    let (said, failed) = match outcome {
        Ok(said) => (said@, false),
        Err(said) => (said@, true),
    };
    let result = tool_outcome(said, failed);
    let told = success(json::content(id), result);
    lemma_outcomes_are_passed_on(said, failed);
    lemma_answers_have_two_forms(json::content(id), result, 0, said);
    assert(answer@ == json::written(told));
}

} // verus!
