//! The JSON-RPC side of the MCP server: request identifiers, which method a
//! request calls, and the error codes it is answered with.

use vstd::prelude::*;
use crate::text::to_chars;

verus! {

/// A JSON-RPC request identifier.
#[derive(Debug, Clone, PartialEq, Eq)]
pub enum Id {
    String(String),
    Number(i64),
    Null,
}

/// The methods the server answers.
#[derive(Debug, Clone, Copy, PartialEq, Eq)]
pub enum RpcMethod {
    Initialize,
    Initialized,
    Ping,
    ToolsList,
    ToolsCall,
    Unknown,
}

pub open spec fn spec_method(m: Seq<char>) -> RpcMethod {
    if m == "initialize"@ {
        RpcMethod::Initialize
    } else if m == "initialized"@ {
        RpcMethod::Initialized
    } else if m == "ping"@ {
        RpcMethod::Ping
    } else if m == "tools/list"@ {
        RpcMethod::ToolsList
    } else if m == "tools/call"@ {
        RpcMethod::ToolsCall
    } else {
        RpcMethod::Unknown
    }
}

fn is(a: &Vec<char>, word: &str) -> (r: bool)
    ensures
        r == (a@ == word@),
{
    let w = to_chars(word);
    crate::text::chars_eq(a.as_slice(), w.as_slice())
}

/// The method a request names.
pub fn classify_method(method: &str) -> (r: RpcMethod)
    ensures
        r == spec_method(method@),
{
    let m = to_chars(method);
    if is(&m, "initialize") {
        RpcMethod::Initialize
    } else if is(&m, "initialized") {
        RpcMethod::Initialized
    } else if is(&m, "ping") {
        RpcMethod::Ping
    } else if is(&m, "tools/list") {
        RpcMethod::ToolsList
    } else if is(&m, "tools/call") {
        RpcMethod::ToolsCall
    } else {
        RpcMethod::Unknown
    }
}

/// A line that is not JSON-RPC.
pub const PARSE_ERROR: i32 = -32700;

/// A method the server does not have.
pub const METHOD_NOT_FOUND: i32 = -32601;

/// A tool call that failed.
pub const TOOL_CALL_FAILED: i32 = -32000;

/// The error code a request without a result is answered with: unknown
/// methods and failed tool calls.
pub fn error_code(method: RpcMethod) -> (r: Option<i32>)
    ensures
        r == match method {
            RpcMethod::Unknown => Some(METHOD_NOT_FOUND),
            RpcMethod::ToolsCall => Some(TOOL_CALL_FAILED),
            _ => None::<i32>,
        },
{
    match method {
        RpcMethod::Unknown => Some(METHOD_NOT_FOUND),
        RpcMethod::ToolsCall => Some(TOOL_CALL_FAILED),
        _ => None,
    }
}

/// The message for an unknown method.
pub fn method_not_found_message(method: &str) -> (r: String)
    ensures
        r@ == "Method not found: "@ + method@,
{
    let mut r = String::from_str("Method not found: ");
    r.append(method);
    r
}

/// A notification (`initialized`) gets no reply; the reply to a request
/// keeps its identifier.
pub fn reply_id(method: RpcMethod, id: Option<Id>) -> (r: Option<Id>)
    ensures
        method == RpcMethod::Initialized ==> r is None,
        method != RpcMethod::Initialized ==> r == id,
{
    match method {
        RpcMethod::Initialized => None,
        _ => id,
    }
}

} // verus!
