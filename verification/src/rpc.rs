//! JSON-RPC 2.0 over the two transports: request building with a
//! monotonically increasing id, response matching by id, and the
//! event-stream scanner that finds the matching response in an SSE body.

use vstd::prelude::*;
use crate::json::{
    get_spec, json_parse_of, json_text_of, parse_json, to_json_string, view_obj, JsonVal,
    JsonValue,
};
use crate::strutil;

verus! {

// ---------------------------------------------------------------------------
// Request building
// ---------------------------------------------------------------------------

/// The per-client request-id counter; ids increase monotonically.
pub struct RpcCounter {
    pub next_id: u64,
}

impl RpcCounter {
    /// A fresh counter starting at one.
    pub fn new() -> (r: RpcCounter)
        ensures
            r.next_id == 1,
    {
        RpcCounter { next_id: 1 }
    }

    /// Take the next id. The counter saturates at the top of its range
    /// rather than wrap, so ids never decrease.
    pub fn take(&mut self) -> (r: u64)
        ensures
            r == old(self).next_id,
            final(self).next_id == (if old(self).next_id < u64::MAX {
                old(self).next_id + 1
            } else {
                old(self).next_id as int
            }),
    {
        let id = self.next_id;
        if self.next_id < u64::MAX {
            self.next_id = self.next_id + 1;
        }
        id
    }
}

/// The request object `{jsonrpc: "2.0", id, method, params}`.
pub open spec fn rpc_request_val(id: u64, method: Seq<char>, params: Option<JsonVal>) -> JsonVal {
    JsonVal::Obj(
        seq![
            ("jsonrpc"@, JsonVal::Str("2.0"@)),
            ("id"@, JsonVal::Num(strutil::dec_str(id as nat))),
            ("method"@, JsonVal::Str(method)),
            (
                "params"@,
                match params {
                    Some(p) => p,
                    None => JsonVal::Null,
                },
            ),
        ],
    )
}

/// Build one JSON-RPC request value.
pub fn build_rpc_request(id: u64, method: &str, params: Option<JsonValue>) -> (r: JsonValue)
    ensures
        r@ == rpc_request_val(id, method@, match params {
            Some(p) => Some(p@),
            None => None,
        }),
{
    let ghost pv = match params {
        Some(ref p) => Some(p@),
        None => None::<JsonVal>,
    };
    let mut fields: Vec<(String, JsonValue)> = Vec::new();
    fields.push(("jsonrpc".to_owned(), JsonValue::Str("2.0".to_owned())));
    fields.push(("id".to_owned(), JsonValue::Num(strutil::u64_to_string(id))));
    fields.push(("method".to_owned(), JsonValue::Str(method.to_owned())));
    match params {
        Some(p) => fields.push(("params".to_owned(), p)),
        None => fields.push(("params".to_owned(), JsonValue::Null)),
    }
    let r = JsonValue::Obj(fields);
    proof {
        crate::json::lemma_view_obj_len(r->Obj_0@);
        assert forall|j: int| 0 <= j < 4 implies #[trigger] view_obj(r->Obj_0@)[j]
            == rpc_request_val(id, method@, pv)->Obj_0[j] by {
            crate::json::lemma_view_obj_index(r->Obj_0@, j);
        }
        assert(view_obj(r->Obj_0@) =~= rpc_request_val(id, method@, pv)->Obj_0);
    }
    r
}

/// The serialized text of one JSON-RPC request, written as one line to a
/// stdio transport or posted as an HTTP body.
pub fn encode_rpc_request(id: u64, method: &str, params: Option<JsonValue>) -> (r: String)
    ensures
        r@ == json_text_of(
            rpc_request_val(id, method@, match params {
                Some(p) => Some(p@),
                None => None,
            }),
        ),
{
    let req = build_rpc_request(id, method, params);
    to_json_string(&req)
}

// ---------------------------------------------------------------------------
// Response matching
// ---------------------------------------------------------------------------

/// Whether a response id field names the request id: its number printed
/// exactly as the id, or its string equal to the id's decimal text.
pub open spec fn id_matches_spec(idv: JsonVal, id: u64) -> bool {
    match idv {
        JsonVal::Num(s) => s == strutil::dec_str(id as nat),
        JsonVal::Str(s) => s == strutil::dec_str(id as nat),
        _ => false,
    }
}

/// One or more digits and nothing else.
pub open spec fn all_digits(t: Seq<char>) -> bool {
    t.len() > 0 && forall|j: int| 0 <= j < t.len() ==> strutil::is_digit(t[j])
}

/// Integer-shaped number text: an optional sign, then digits only.
pub open spec fn is_int_text(s: Seq<char>) -> bool {
    if s.len() > 0 && s[0] == '-' {
        all_digits(s.subrange(1, s.len() as int))
    } else {
        all_digits(s)
    }
}

/// The parsed parts of a JSON-RPC response object.
pub struct RpcParts {
    pub id: JsonValue,
    pub result: Option<JsonValue>,
    pub error: Option<(String, String)>,
}

/// The mathematical shape of the parts.
pub struct RpcPartsV {
    pub id: JsonVal,
    pub result: Option<JsonVal>,
    pub error: Option<(Seq<char>, Seq<char>)>,
}

impl View for RpcParts {
    type V = RpcPartsV;

    open spec fn view(&self) -> RpcPartsV {
        RpcPartsV {
            id: self.id@,
            result: match self.result {
                Some(ref r) => Some(r@),
                None => None,
            },
            error: match self.error {
                Some((ref c, ref m)) => Some((c@, m@)),
                None => None,
            },
        }
    }
}

/// How a JSON value reads as a JSON-RPC response: it must be an object
/// with an `id`; a `null` or missing `result` counts as absent; an
/// `error`, when present, must carry an integer `code` and a string
/// `message`, else the whole value is rejected.
pub open spec fn rpc_response_of(v: JsonVal) -> Option<RpcPartsV> {
    match get_spec(v, "id"@) {
        Some(idv) => {
            let result = match get_spec(v, "result"@) {
                Some(JsonVal::Null) => None,
                other => other,
            };
            match get_spec(v, "error"@) {
                Some(e) => match e {
                    JsonVal::Null => Some(RpcPartsV { id: idv, result, error: None }),
                    _ => match (get_spec(e, "code"@), get_spec(e, "message"@)) {
                        (Some(JsonVal::Num(code)), Some(JsonVal::Str(msg))) => if is_int_text(
                            code,
                        ) {
                            Some(RpcPartsV { id: idv, result, error: Some((code, msg)) })
                        } else {
                            None
                        },
                        _ => None,
                    },
                },
                None => Some(RpcPartsV { id: idv, result, error: None }),
            }
        },
        None => None,
    }
}

/// Check that number text is integer-shaped.
fn check_int_text(s: &str) -> (r: bool)
    ensures
        r == is_int_text(s@),
{
    let n = s.unicode_len();
    let mut start: usize = 0;
    if n > 0 && s.get_char(0) == '-' {
        start = 1;
    }
    let ghost t = if s@.len() > 0 && s@[0] == '-' {
        s@.subrange(1, s@.len() as int)
    } else {
        s@
    };
    proof {
        assert(t =~= s@.subrange(start as int, n as int));
    }
    if start >= n {
        return false;
    }
    let mut i: usize = start;
    while i < n
        invariant
            n == s@.len(),
            start <= i <= n,
            t == s@.subrange(start as int, n as int),
            forall|j: int| start <= j < i ==> strutil::is_digit(s@[j]),
        decreases n - i,
    {
        let c = s.get_char(i);
        let u = c as u32;
        if u < 48 || u > 57 {
            proof {
                assert(!strutil::is_digit(s@[i as int])) by {
                    assert(('0' as u32) == 48 && ('9' as u32) == 57);
                };
                let jj = i - start;
                assert(t[jj as int] == s@[i as int]);
                assert(!strutil::is_digit(t[jj as int]));
                assert(!all_digits(t));
            }
            return false;
        }
        proof {
            assert(strutil::is_digit(s@[i as int])) by {
                assert(('0' as u32) == 48 && ('9' as u32) == 57);
            };
        }
        i += 1;
    }
    proof {
        assert forall|j: int| 0 <= j < t.len() implies strutil::is_digit(#[trigger] t[j]) by {
            assert(t[j] == s@[start + j]);
        }
        assert(all_digits(t));
    }
    true
}

/// Read a JSON value as a JSON-RPC response.
fn rpc_response_parts(v: &JsonValue) -> (r: Option<RpcParts>)
    ensures
        match r {
            Some(parts) => rpc_response_of(v@) == Some(parts@),
            None => rpc_response_of(v@) is None,
        },
{
    let idv = match v.get("id") {
        Some(x) => x.deep_clone(),
        None => {
            return None;
        },
    };
    let result = match v.get("result") {
        Some(x) => {
            match x {
                JsonValue::Null => None,
                other => Some(other.deep_clone()),
            }
        },
        None => None,
    };
    let error = match v.get("error") {
        Some(e) => {
            match e {
                JsonValue::Null => None,
                _ => {
                    let code = match e.get("code") {
                        Some(c) => {
                            match c.as_num() {
                                Some(s) => s.clone(),
                                None => {
                                    return None;
                                },
                            }
                        },
                        None => {
                            return None;
                        },
                    };
                    if !check_int_text(code.as_str()) {
                        return None;
                    }
                    let message = match e.get("message") {
                        Some(m) => {
                            match m.as_str() {
                                Some(s) => s.clone(),
                                None => {
                                    return None;
                                },
                            }
                        },
                        None => {
                            return None;
                        },
                    };
                    Some((code, message))
                },
            }
        },
        None => None,
    };
    Some(RpcParts { id: idv, result, error })
}

/// Check a response id against the request id.
fn check_id_matches(idv: &JsonValue, id: u64) -> (r: bool)
    ensures
        r == id_matches_spec(idv@, id),
{
    let dec = strutil::u64_to_string(id);
    match idv {
        JsonValue::Num(s) => strutil::eq_str(s.as_str(), dec.as_str()),
        JsonValue::Str(s) => strutil::eq_str(s.as_str(), dec.as_str()),
        _ => false,
    }
}

/// The failure text for a remote JSON-RPC error object.
pub fn rpc_error_text(code: &str, message: &str) -> (r: String)
    ensures
        r@ == "MCP error "@ + code@ + ": "@ + message@,
{
    let mut s = "MCP error ".to_owned();
    s.append(code);
    s.append(": ");
    s.append(message);
    proof {
        assert(s@ =~= "MCP error "@ + code@ + ": "@ + message@);
    }
    s
}

/// What one candidate response decides for a request id.
pub enum ItemScan {
    /// Not a response, or another request's: keep looking.
    NoMatch,
    /// The matching response carries an error object: the call fails.
    Error(String),
    /// The matching response: its result, absent when it has none.
    Found(Option<JsonValue>),
}

/// The mathematical shape of an item decision.
pub enum ItemScanV {
    NoMatchV,
    ErrorV(Seq<char>),
    FoundV(Option<JsonVal>),
}

impl View for ItemScan {
    type V = ItemScanV;

    open spec fn view(&self) -> ItemScanV {
        match self {
            ItemScan::NoMatch => ItemScanV::NoMatchV,
            ItemScan::Error(e) => ItemScanV::ErrorV(e@),
            ItemScan::Found(r) => ItemScanV::FoundV(
                match r {
                    Some(x) => Some(x@),
                    None => None,
                },
            ),
        }
    }
}

/// What one candidate response decides, as a function of its value.
pub open spec fn item_scan_spec(v: JsonVal, id: u64) -> ItemScanV {
    match rpc_response_of(v) {
        None => ItemScanV::NoMatchV,
        Some(parts) => if !id_matches_spec(parts.id, id) {
            ItemScanV::NoMatchV
        } else {
            match parts.error {
                Some((code, msg)) => ItemScanV::ErrorV("MCP error "@ + code + ": "@ + msg),
                None => ItemScanV::FoundV(parts.result),
            }
        },
    }
}

/// Scan one candidate response.
fn scan_item(v: &JsonValue, id: u64) -> (r: ItemScan)
    ensures
        r@ == item_scan_spec(v@, id),
{
    let parts = match rpc_response_parts(v) {
        Some(p) => p,
        None => {
            return ItemScan::NoMatch;
        },
    };
    if !check_id_matches(&parts.id, id) {
        return ItemScan::NoMatch;
    }
    match parts.error {
        Some((code, message)) => ItemScan::Error(rpc_error_text(code.as_str(), message.as_str())),
        None => ItemScan::Found(parts.result),
    }
}


// ---------------------------------------------------------------------------
// Scanning candidate responses
// ---------------------------------------------------------------------------

/// The first candidate that matches the id decides.
pub open spec fn items_scan_spec(items: Seq<JsonVal>, id: u64) -> ItemScanV
    decreases items.len(),
{
    if items.len() == 0 {
        ItemScanV::NoMatchV
    } else {
        match item_scan_spec(items[0], id) {
            ItemScanV::NoMatchV => items_scan_spec(items.subrange(1, items.len() as int), id),
            d => d,
        }
    }
}

proof fn lemma_items_scan_skip(items: Seq<JsonVal>, id: u64, i: int)
    requires
        0 <= i <= items.len(),
        forall|j: int| 0 <= j < i ==> item_scan_spec(#[trigger] items[j], id) is NoMatchV,
    ensures
        items_scan_spec(items, id) == items_scan_spec(
            items.subrange(i, items.len() as int),
            id,
        ),
    decreases i,
{
    if i > 0 {
        let t = items.subrange(1, items.len() as int);
        lemma_items_scan_skip(t, id, i - 1);
        assert(t.subrange(i - 1, t.len() as int) =~= items.subrange(i, items.len() as int));
    } else {
        assert(items.subrange(0, items.len() as int) =~= items);
    }
}

/// Scan a sequence of candidate responses, first match deciding.
fn scan_items(items: &Vec<JsonValue>, id: u64) -> (r: ItemScan)
    ensures
        r@ == items_scan_spec(crate::json::view_arr(items@), id),
{
    broadcast use crate::json::group_json_view;

    let ghost vs = crate::json::view_arr(items@);
    let mut i: usize = 0;
    while i < items.len()
        invariant
            i <= items@.len(),
            vs == crate::json::view_arr(items@),
            forall|j: int| 0 <= j < i ==> item_scan_spec(#[trigger] vs[j], id) is NoMatchV,
        decreases items@.len() - i,
    {
        let d = scan_item(&items[i], id);
        match d {
            ItemScan::NoMatch => {},
            other => {
                proof {
                    lemma_items_scan_skip(vs, id, i as int);
                    let rest = vs.subrange(i as int, vs.len() as int);
                    assert(rest[0] == vs[i as int]);
                }
                return other;
            },
        }
        i += 1;
    }
    proof {
        lemma_items_scan_skip(vs, id, i as int);
        assert(vs.subrange(i as int, vs.len() as int).len() == 0);
    }
    ItemScan::NoMatch
}

/// What an SSE `data` payload yields: nothing when it is blank or no
/// candidate matches, a failure when it is not JSON or the matching
/// response carries an error, else the matching response's result. A
/// payload may be one response or a JSON array of them.
pub open spec fn payload_scan_spec(data: Seq<char>, id: u64) -> Result<
    Option<JsonVal>,
    Seq<char>,
> {
    if strutil::trim_spec(data).len() == 0 {
        Ok(None)
    } else {
        match json_parse_of(data) {
            None => Err("Failed to parse SSE data: invalid JSON"@),
            Some(v) => {
                let items = match v {
                    JsonVal::Arr(a) => a,
                    other => seq![other],
                };
                match items_scan_spec(items, id) {
                    ItemScanV::NoMatchV => Ok(None),
                    ItemScanV::ErrorV(e) => Err(e),
                    ItemScanV::FoundV(r) => Ok(r),
                }
            },
        }
    }
}

/// Scan one SSE `data` payload.
pub fn scan_payload(data: &str, id: u64) -> (r: Result<Option<JsonValue>, String>)
    ensures
        match r {
            Ok(Some(v)) => payload_scan_spec(data@, id) == Ok::<Option<JsonVal>, Seq<char>>(
                Some(v@),
            ),
            Ok(None) => payload_scan_spec(data@, id) == Ok::<Option<JsonVal>, Seq<char>>(None),
            Err(e) => payload_scan_spec(data@, id) == Err::<Option<JsonVal>, Seq<char>>(e@),
        },
{
    let trimmed = strutil::trim(data);
    if trimmed.as_str().unicode_len() == 0 {
        return Ok(None);
    }
    let v = match parse_json(data) {
        Some(v) => v,
        None => {
            return Err("Failed to parse SSE data: invalid JSON".to_owned());
        },
    };
    let scan = match v {
        JsonValue::Arr(items) => scan_items(&items, id),
        other => {
            let d = scan_item(&other, id);
            proof {
                assert(seq![other@].subrange(1, 1) =~= Seq::<JsonVal>::empty());
                assert(items_scan_spec(seq![other@], id) == (match item_scan_spec(
                    other@,
                    id,
                ) {
                    ItemScanV::NoMatchV => items_scan_spec(Seq::<JsonVal>::empty(), id),
                    x => x,
                }));
            }
            d
        },
    };
    match scan {
        ItemScan::NoMatch => Ok(None),
        ItemScan::Error(e) => Err(e),
        ItemScan::Found(res) => Ok(res),
    }
}

/// What a bare (non-`data:`) event yields: nothing unless it parses as
/// JSON and a candidate matches.
pub open spec fn inline_scan_spec(raw: Seq<char>, id: u64) -> Result<
    Option<JsonVal>,
    Seq<char>,
> {
    let trimmed = strutil::trim_spec(raw);
    if trimmed.len() == 0 {
        Ok(None)
    } else {
        match json_parse_of(trimmed) {
            None => Ok(None),
            Some(v) => {
                let items = match v {
                    JsonVal::Arr(a) => a,
                    other => seq![other],
                };
                match items_scan_spec(items, id) {
                    ItemScanV::NoMatchV => Ok(None),
                    ItemScanV::ErrorV(e) => Err(e),
                    ItemScanV::FoundV(r) => Ok(r),
                }
            },
        }
    }
}

/// Scan a bare event.
pub fn scan_inline(raw: &str, id: u64) -> (r: Result<Option<JsonValue>, String>)
    ensures
        match r {
            Ok(Some(v)) => inline_scan_spec(raw@, id) == Ok::<Option<JsonVal>, Seq<char>>(
                Some(v@),
            ),
            Ok(None) => inline_scan_spec(raw@, id) == Ok::<Option<JsonVal>, Seq<char>>(None),
            Err(e) => inline_scan_spec(raw@, id) == Err::<Option<JsonVal>, Seq<char>>(e@),
        },
{
    let trimmed = strutil::trim(raw);
    if trimmed.as_str().unicode_len() == 0 {
        return Ok(None);
    }
    let v = match parse_json(trimmed.as_str()) {
        Some(v) => v,
        None => {
            return Ok(None);
        },
    };
    let scan = match v {
        JsonValue::Arr(items) => scan_items(&items, id),
        other => {
            let d = scan_item(&other, id);
            proof {
                assert(seq![other@].subrange(1, 1) =~= Seq::<JsonVal>::empty());
                assert(items_scan_spec(seq![other@], id) == (match item_scan_spec(
                    other@,
                    id,
                ) {
                    ItemScanV::NoMatchV => items_scan_spec(Seq::<JsonVal>::empty(), id),
                    x => x,
                }));
            }
            d
        },
    };
    match scan {
        ItemScan::NoMatch => Ok(None),
        ItemScan::Error(e) => Err(e),
        ItemScan::Found(res) => Ok(res),
    }
}

// ---------------------------------------------------------------------------
// The stdio line protocol
// ---------------------------------------------------------------------------

/// What reading one stdout line decides.
pub enum LineScan {
    /// Not JSON, not a response, or another request's: keep reading.
    Skip,
    /// The matching response: the call's outcome.
    Reply(Result<JsonValue, String>),
}

/// The mathematical shape of a line decision.
pub enum LineScanV {
    SkipV,
    ReplyV(Result<JsonVal, Seq<char>>),
}

impl View for LineScan {
    type V = LineScanV;

    open spec fn view(&self) -> LineScanV {
        match self {
            LineScan::Skip => LineScanV::SkipV,
            LineScan::Reply(res) => LineScanV::ReplyV(
                match res {
                    Ok(v) => Ok(v@),
                    Err(e) => Err(e@),
                },
            ),
        }
    }
}

/// What one stdout line decides: unparsable and non-matching lines are
/// skipped, never errors; the matching line answers its result, a remote
/// error object, or the missing-result failure.
pub open spec fn line_scan_spec(line: Seq<char>, id: u64) -> LineScanV {
    match json_parse_of(line) {
        None => LineScanV::SkipV,
        Some(v) => match item_scan_spec(v, id) {
            ItemScanV::NoMatchV => LineScanV::SkipV,
            ItemScanV::ErrorV(e) => LineScanV::ReplyV(Err(e)),
            ItemScanV::FoundV(Some(r)) => LineScanV::ReplyV(Ok(r)),
            ItemScanV::FoundV(None) => LineScanV::ReplyV(Err("Missing result"@)),
        },
    }
}

/// Scan one stdout line of a stdio transport.
pub fn scan_stdio_line(line: &str, id: u64) -> (r: LineScan)
    ensures
        r@ == line_scan_spec(line@, id),
{
    let v = match parse_json(line) {
        Some(v) => v,
        None => {
            return LineScan::Skip;
        },
    };
    match scan_item(&v, id) {
        ItemScan::NoMatch => LineScan::Skip,
        ItemScan::Error(e) => LineScan::Reply(Err(e)),
        ItemScan::Found(Some(r)) => LineScan::Reply(Ok(r)),
        ItemScan::Found(None) => LineScan::Reply(Err("Missing result".to_owned())),
    }
}

// ---------------------------------------------------------------------------
// Plain HTTP bodies
// ---------------------------------------------------------------------------

/// What a single JSON response body yields. No id check is made here: the
/// one response of a plain HTTP exchange answers the one request.
pub open spec fn body_scan_spec(text: Seq<char>) -> Result<JsonVal, Seq<char>> {
    match json_parse_of(text) {
        None => Err("Failed to parse response: invalid JSON"@),
        Some(v) => match rpc_response_of(v) {
            None => Err("Failed to parse response: unexpected shape"@),
            Some(parts) => match parts.error {
                Some((code, msg)) => Err("MCP error "@ + code + ": "@ + msg),
                None => match parts.result {
                    Some(r) => Ok(r),
                    None => Err("Missing result"@),
                },
            },
        },
    }
}

/// Read a plain JSON response body.
pub fn parse_rpc_body(text: &str) -> (r: Result<JsonValue, String>)
    ensures
        match r {
            Ok(v) => body_scan_spec(text@) == Ok::<JsonVal, Seq<char>>(v@),
            Err(e) => body_scan_spec(text@) == Err::<JsonVal, Seq<char>>(e@),
        },
{
    let v = match parse_json(text) {
        Some(v) => v,
        None => {
            return Err("Failed to parse response: invalid JSON".to_owned());
        },
    };
    let parts = match rpc_response_parts(&v) {
        Some(p) => p,
        None => {
            return Err("Failed to parse response: unexpected shape".to_owned());
        },
    };
    match parts.error {
        Some((code, message)) => Err(rpc_error_text(code.as_str(), message.as_str())),
        None => match parts.result {
            Some(r) => Ok(r),
            None => Err("Missing result".to_owned()),
        },
    }
}


// ---------------------------------------------------------------------------
// SSE event bodies
// ---------------------------------------------------------------------------

/// The lines of a text, the part after the last newline included.
pub open spec fn lines_of(s: Seq<char>) -> Seq<Seq<char>> {
    let (ls, r) = crate::sse::split_lines_acc(s, Seq::empty());
    if r.len() == 0 {
        ls
    } else {
        ls.push(r)
    }
}

/// The payloads of the `data:` lines, each with its leading whitespace
/// dropped.
pub open spec fn data_values(lines: Seq<Seq<char>>) -> Seq<Seq<char>>
    decreases lines.len(),
{
    if lines.len() == 0 {
        Seq::empty()
    } else {
        let rest = data_values(lines.subrange(1, lines.len() as int));
        if "data:"@.is_prefix_of(lines[0]) {
            seq![
                strutil::trim_start_spec(lines[0].subrange(5, lines[0].len() as int)),
            ].add(rest)
        } else {
            rest
        }
    }
}

/// The logical `data` payload of one event: its `data:` lines joined with
/// newlines, or nothing when it has none.
pub open spec fn sse_data_of(ev: Seq<char>) -> Option<Seq<char>> {
    let ds = data_values(lines_of(ev));
    if ds.len() == 0 {
        None
    } else {
        Some(strutil::join_spec(ds, "\n"@))
    }
}

/// Split a text into its lines, a trailing piece without a newline
/// included.
pub fn text_lines(s: &str) -> (r: Vec<String>)
    ensures
        r@.map_values(|t: String| t@) == lines_of(s@),
{
    let n = s.unicode_len();
    let mut out: Vec<String> = Vec::new();
    let mut cur = String::new();
    let mut i: usize = 0;
    proof {
        assert(s@.subrange(0, n as int) =~= s@);
        assert(out@.map_values(|t: String| t@) =~= Seq::<Seq<char>>::empty());
        assert(cur@ =~= Seq::<char>::empty());
    }
    while i < n
        invariant
            n == s@.len(),
            i <= n,
            ({
                let (ls, rest) = crate::sse::split_lines_acc(
                    s@.subrange(i as int, n as int),
                    cur@,
                );
                out@.map_values(|t: String| t@).add(ls) == crate::sse::split_lines_acc(
                    s@,
                    Seq::empty(),
                ).0 && rest == crate::sse::split_lines_acc(s@, Seq::empty()).1
            }),
        decreases n - i,
    {
        let ghost pre = out@.map_values(|t: String| t@);
        let ghost curv = cur@;
        let ghost rem = s@.subrange(i as int, n as int);
        proof {
            assert(rem[0] == s@[i as int]);
            assert(rem.subrange(1, rem.len() as int) =~= s@.subrange(i + 1, n as int));
        }
        let c = s.get_char(i);
        if c == '\n' {
            out.push(cur);
            cur = String::new();
            proof {
                assert(cur@ =~= Seq::<char>::empty());
                assert(out@.map_values(|t: String| t@) =~= pre.push(curv));
                let (ls2, _) = crate::sse::split_lines_acc(
                    s@.subrange(i + 1, n as int),
                    Seq::<char>::empty(),
                );
                assert(pre.push(curv).add(ls2) =~= pre.add(seq![curv].add(ls2)));
            }
        } else {
            strutil::push_char(&mut cur, c);
        }
        i += 1;
    }
    proof {
        assert(s@.subrange(i as int, n as int).len() == 0);
    }
    if cur.as_str().unicode_len() > 0 {
        let ghost pre = out@.map_values(|t: String| t@);
        let ghost curv = cur@;
        out.push(cur);
        proof {
            assert(out@.map_values(|t: String| t@) =~= pre.push(curv));
        }
    } else {
        proof {
            assert(cur@ =~= Seq::<char>::empty());
            assert(out@.map_values(|t: String| t@).add(Seq::<Seq<char>>::empty())
                =~= out@.map_values(|t: String| t@));
        }
    }
    out
}

/// Collect the logical `data` payload of one raw event.
pub fn extract_sse_data(raw_event: &str) -> (r: Option<String>)
    ensures
        match r {
            Some(d) => sse_data_of(raw_event@) == Some(d@),
            None => sse_data_of(raw_event@) is None,
        },
{
    proof {
        reveal_strlit("data:");
    }
    let lines = text_lines(raw_event);
    let ghost lv = lines@.map_values(|t: String| t@);
    let mut data: Vec<String> = Vec::new();
    let mut i: usize = 0;
    proof {
        assert(lv.subrange(0, lv.len() as int) =~= lv);
        assert(data@.map_values(|t: String| t@) =~= Seq::<Seq<char>>::empty());
    }
    while i < lines.len()
        invariant
            i <= lines@.len(),
            lv == lines@.map_values(|t: String| t@),
            data@.map_values(|t: String| t@).add(
                data_values(lv.subrange(i as int, lv.len() as int)),
            ) == data_values(lv),
        decreases lines@.len() - i,
    {
        let ghost pre = data@.map_values(|t: String| t@);
        let ghost rem = lv.subrange(i as int, lv.len() as int);
        proof {
            assert(rem[0] == lv[i as int]);
            assert(rem.subrange(1, rem.len() as int) =~= lv.subrange(i + 1, lv.len() as int));
        }
        let line = &lines[i];
        if strutil::starts_with(line.as_str(), "data:") {
            let ln = line.as_str().unicode_len();
            let tail = strutil::substring(line.as_str(), 5, ln);
            let piece = strutil::trim_start(tail.as_str());
            data.push(piece);
            proof {
                assert(data@.map_values(|t: String| t@) =~= pre.push(data@.last()@));
                let rest2 = data_values(lv.subrange(i + 1, lv.len() as int));
                assert(pre.push(data@.last()@).add(rest2) =~= pre.add(
                    seq![data@.last()@].add(rest2),
                ));
            }
        }
        i += 1;
    }
    proof {
        assert(lv.subrange(i as int, lv.len() as int).len() == 0);
        assert(data@.map_values(|t: String| t@).add(Seq::<Seq<char>>::empty())
            =~= data@.map_values(|t: String| t@));
    }
    if data.len() == 0 {
        proof {
            assert(data@.map_values(|t: String| t@).len() == 0);
        }
        None
    } else {
        proof {
            reveal_strlit("\n");
        }
        Some(strutil::join_strings(&data, "\n"))
    }
}

/// What one complete event yields: its `data` payload scanned when it has
/// one, the bare text scanned otherwise.
pub open spec fn event_scan_spec(ev: Seq<char>, id: u64) -> Result<Option<JsonVal>, Seq<char>> {
    match sse_data_of(ev) {
        Some(data) => payload_scan_spec(data, id),
        None => inline_scan_spec(ev, id),
    }
}

/// Scan one complete event.
pub fn scan_event(ev: &str, id: u64) -> (r: Result<Option<JsonValue>, String>)
    ensures
        match r {
            Ok(Some(v)) => event_scan_spec(ev@, id) == Ok::<Option<JsonVal>, Seq<char>>(
                Some(v@),
            ),
            Ok(None) => event_scan_spec(ev@, id) == Ok::<Option<JsonVal>, Seq<char>>(None),
            Err(e) => event_scan_spec(ev@, id) == Err::<Option<JsonVal>, Seq<char>>(e@),
        },
{
    match extract_sse_data(ev) {
        Some(data) => scan_payload(data.as_str(), id),
        None => scan_inline(ev, id),
    }
}

/// The event-stream scanner: buffers the unfinished line, accumulates
/// `data:` lines into one logical event until a blank line, and scans each
/// completed event for the response matching the request id.
pub struct RpcSseScanner {
    pub line: String,
    pub event: String,
}

/// How scanning a text proceeds: a blank line completes the current event
/// and scans it; the first event that answers or fails ends the scan.
pub open spec fn rpc_scan_text(s: Seq<char>, line: Seq<char>, event: Seq<char>, id: u64) -> (
    Option<Result<Option<JsonVal>, Seq<char>>>,
    Seq<char>,
    Seq<char>,
)
    decreases s.len(),
{
    if s.len() == 0 {
        (None, line, event)
    } else if s[0] == '\n' {
        let t = strutil::trim_end_char_spec(line, '\r');
        if t.len() == 0 {
            match event_scan_spec(event, id) {
                Ok(None) => rpc_scan_text(
                    s.subrange(1, s.len() as int),
                    Seq::empty(),
                    Seq::empty(),
                    id,
                ),
                other => (Some(other), Seq::empty(), Seq::empty()),
            }
        } else {
            rpc_scan_text(
                s.subrange(1, s.len() as int),
                Seq::empty(),
                event + t + "\n"@,
                id,
            )
        }
    } else {
        rpc_scan_text(s.subrange(1, s.len() as int), line.push(s[0]), event, id)
    }
}

impl RpcSseScanner {
    /// The carried line never holds a newline.
    pub open spec fn wf(&self) -> bool {
        forall|j: int| 0 <= j < self.line@.len() ==> self.line@[j] != '\n'
    }

    /// A fresh scanner.
    pub fn new() -> (r: RpcSseScanner)
        ensures
            r.wf(),
            r.line@.len() == 0,
            r.event@.len() == 0,
    {
        RpcSseScanner { line: String::new(), event: String::new() }
    }

    /// Feed one chunk of the stream; `Some` ends the call with the
    /// response matching `id` or with the first failure.
    pub fn feed(&mut self, chunk: &str, id: u64) -> (r: Option<Result<JsonValue, String>>)
        requires
            old(self).wf(),
        ensures
            ({
                let (res, l2, e2) = rpc_scan_text(
                    chunk@,
                    old(self).line@,
                    old(self).event@,
                    id,
                );
                match r {
                    None => res is None && final(self).wf() && final(self).line@ == l2
                        && final(self).event@ == e2,
                    Some(out) => match out {
                        Ok(v) => res == Some(Ok::<Option<JsonVal>, Seq<char>>(Some(v@))),
                        Err(e) => res == Some(Err::<Option<JsonVal>, Seq<char>>(e@)),
                    },
                }
            }),
    {
        let ghost target = rpc_scan_text(chunk@, self.line@, self.event@, id);
        let n = chunk.unicode_len();
        let mut cur = self.line.clone();
        let mut i: usize = 0;
        proof {
            assert(chunk@.subrange(0, n as int) =~= chunk@);
        }
        while i < n
            invariant
                n == chunk@.len(),
                i <= n,
                forall|j: int| 0 <= j < cur@.len() ==> cur@[j] != '\n',
                rpc_scan_text(chunk@.subrange(i as int, n as int), cur@, self.event@, id)
                    == target,
            decreases n - i,
        {
            let ghost rem = chunk@.subrange(i as int, n as int);
            proof {
                assert(rem[0] == chunk@[i as int]);
                assert(rem.subrange(1, rem.len() as int) =~= chunk@.subrange(i + 1, n as int));
            }
            let c = chunk.get_char(i);
            if c == '\n' {
                let t = strutil::trim_end_char(cur.as_str(), '\r');
                if t.as_str().unicode_len() == 0 {
                    match scan_event(self.event.as_str(), id) {
                        Ok(None) => {
                            self.event = String::new();
                            cur = String::new();
                            proof {
                                assert(self.event@ =~= Seq::<char>::empty());
                                assert(cur@ =~= Seq::<char>::empty());
                            }
                        },
                        Ok(Some(v)) => {
                            return Some(Ok(v));
                        },
                        Err(e) => {
                            return Some(Err(e));
                        },
                    }
                } else {
                    self.event.append(t.as_str());
                    self.event.append("\n");
                    cur = String::new();
                    proof {
                        assert(cur@ =~= Seq::<char>::empty());
                    }
                }
            } else {
                strutil::push_char(&mut cur, c);
            }
            i += 1;
        }
        proof {
            assert(chunk@.subrange(i as int, n as int).len() == 0);
        }
        self.line = cur;
        None
    }

    /// The stream has ended: scan what remains of the current event; a
    /// stream that never answered is the ended-without-response failure.
    pub fn finish(&self, id: u64) -> (r: Result<JsonValue, String>)
        ensures
            match r {
                Ok(v) => event_scan_spec(self.event@, id) == Ok::<Option<JsonVal>, Seq<char>>(
                    Some(v@),
                ),
                Err(e) => event_scan_spec(self.event@, id) == Err::<Option<JsonVal>, Seq<char>>(
                    e@,
                ) || (event_scan_spec(self.event@, id) == Ok::<Option<JsonVal>, Seq<char>>(None)
                    && e@ == "SSE stream ended without response"@),
            },
    {
        match scan_event(self.event.as_str(), id) {
            Ok(Some(v)) => Ok(v),
            Ok(None) => Err("SSE stream ended without response".to_owned()),
            Err(e) => Err(e),
        }
    }
}

} // verus!
