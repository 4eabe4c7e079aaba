//! The MCP connection manager: the canonical server configurations, the
//! live connections with their caches, and the allowlist rules applied
//! identically at listing and at invocation time.

use vstd::prelude::*;
use crate::json::{get_spec, view_arr, JsonVal, JsonValue};
use crate::strutil;

verus! {

/// How a server is reached.
#[derive(Debug, PartialEq, Eq, Structural, Clone, Copy)]
pub enum McpTransport {
    Stdio,
    HttpSse,
}

/// One configured tool/resource server.
pub struct McpServerConfig {
    pub id: String,
    pub name: String,
    pub enabled: bool,
    pub transport: McpTransport,
    pub command: Option<String>,
    pub args: Option<Vec<String>>,
    pub cwd: Option<String>,
    pub env: Option<Vec<(String, String)>>,
    pub url: Option<String>,
    pub headers: Option<Vec<(String, String)>>,
    pub tool_allowlist: Option<Vec<String>>,
    pub resource_allowlist: Option<Vec<String>>,
}

/// The mathematical shape of a server configuration.
pub struct McpServerConfigV {
    pub id: Seq<char>,
    pub name: Seq<char>,
    pub enabled: bool,
    pub transport: McpTransport,
    pub command: Option<Seq<char>>,
    pub args: Option<Seq<Seq<char>>>,
    pub cwd: Option<Seq<char>>,
    pub env: Option<Seq<(Seq<char>, Seq<char>)>>,
    pub url: Option<Seq<char>>,
    pub headers: Option<Seq<(Seq<char>, Seq<char>)>>,
    pub tool_allowlist: Option<Seq<Seq<char>>>,
    pub resource_allowlist: Option<Seq<Seq<char>>>,
}

impl View for McpServerConfig {
    type V = McpServerConfigV;

    open spec fn view(&self) -> McpServerConfigV {
        McpServerConfigV {
            id: self.id@,
            name: self.name@,
            enabled: self.enabled,
            transport: self.transport,
            command: self.command.deep_view(),
            args: self.args.deep_view(),
            cwd: self.cwd.deep_view(),
            env: self.env.deep_view(),
            url: self.url.deep_view(),
            headers: self.headers.deep_view(),
            tool_allowlist: self.tool_allowlist.deep_view(),
            resource_allowlist: self.resource_allowlist.deep_view(),
        }
    }
}

/// Copy an optional string.
pub fn dup_opt_string(v: &Option<String>) -> (r: Option<String>)
    ensures
        r.deep_view() == v.deep_view(),
{
    match v {
        Some(s) => Some(s.clone()),
        None => None,
    }
}

/// Copy a list of strings.
pub fn dup_strings(v: &Vec<String>) -> (r: Vec<String>)
    ensures
        r.deep_view() == v.deep_view(),
{
    let mut out: Vec<String> = Vec::new();
    let mut i: usize = 0;
    while i < v.len()
        invariant
            i <= v@.len(),
            out@.len() == i,
            forall|j: int| 0 <= j < i ==> (#[trigger] out@[j])@ == v@[j]@,
        decreases v@.len() - i,
    {
        out.push(v[i].clone());
        i += 1;
    }
    proof {
        assert(out.deep_view() =~= v.deep_view());
    }
    out
}

/// Copy an optional list of strings.
pub fn dup_opt_strings(v: &Option<Vec<String>>) -> (r: Option<Vec<String>>)
    ensures
        r.deep_view() == v.deep_view(),
{
    match v {
        Some(items) => {
            let d = dup_strings(items);
            proof {
                assert(Some(d).deep_view() =~~= v.deep_view());
            }
            Some(d)
        },
        None => None,
    }
}

/// Copy a list of string pairs.
pub fn dup_pairs(v: &Vec<(String, String)>) -> (r: Vec<(String, String)>)
    ensures
        r.deep_view() == v.deep_view(),
{
    let mut out: Vec<(String, String)> = Vec::new();
    let mut i: usize = 0;
    while i < v.len()
        invariant
            i <= v@.len(),
            out@.len() == i,
            forall|j: int|
                0 <= j < i ==> (#[trigger] out@[j]).0@ == v@[j].0@ && out@[j].1@ == v@[j].1@,
        decreases v@.len() - i,
    {
        let pair = (v[i].0.clone(), v[i].1.clone());
        out.push(pair);
        i += 1;
    }
    proof {
        assert(out.deep_view() =~~= v.deep_view());
    }
    out
}

/// Copy an optional list of string pairs.
pub fn dup_opt_pairs(v: &Option<Vec<(String, String)>>) -> (r: Option<Vec<(String, String)>>)
    ensures
        r.deep_view() == v.deep_view(),
{
    match v {
        Some(items) => {
            let d = dup_pairs(items);
            proof {
                assert(Some(d).deep_view() =~~= v.deep_view());
            }
            Some(d)
        },
        None => None,
    }
}

impl McpServerConfig {
    /// A copy with the same view.
    pub fn dup(&self) -> (r: McpServerConfig)
        ensures
            r@ == self@,
    {
        let r = McpServerConfig {
            id: self.id.clone(),
            name: self.name.clone(),
            enabled: self.enabled,
            transport: self.transport,
            command: dup_opt_string(&self.command),
            args: dup_opt_strings(&self.args),
            cwd: dup_opt_string(&self.cwd),
            env: dup_opt_pairs(&self.env),
            url: dup_opt_string(&self.url),
            headers: dup_opt_pairs(&self.headers),
            tool_allowlist: dup_opt_strings(&self.tool_allowlist),
            resource_allowlist: dup_opt_strings(&self.resource_allowlist),
        };
        r
    }
}

/// The canonical list of configured servers.
pub struct McpConfig {
    pub servers: Vec<McpServerConfig>,
}

impl View for McpConfig {
    type V = Seq<McpServerConfigV>;

    open spec fn view(&self) -> Seq<McpServerConfigV> {
        self.servers@.map_values(|s: McpServerConfig| s@)
    }
}

impl Default for McpConfig {
    /// An empty configuration: no servers.
    fn default() -> (r: McpConfig)
        ensures
            r@.len() == 0,
    {
        McpConfig { servers: Vec::new() }
    }
}

impl McpConfig {
    /// A copy with the same view.
    pub fn dup(&self) -> (r: McpConfig)
        ensures
            r@ == self@,
    {
        let mut servers: Vec<McpServerConfig> = Vec::new();
        let mut i: usize = 0;
        while i < self.servers.len()
            invariant
                i <= self.servers@.len(),
                servers@.len() == i,
                forall|j: int| 0 <= j < i ==> (#[trigger] servers@[j])@ == self.servers@[j]@,
            decreases self.servers@.len() - i,
        {
            servers.push(self.servers[i].dup());
            i += 1;
        }
        let r = McpConfig { servers };
        proof {
            assert(r@ =~= self@);
        }
        r
    }
}

/// What `status` reports for one server.
pub struct McpServerStatus {
    pub id: String,
    pub connected: bool,
    pub last_error: Option<String>,
    pub tools_cached: usize,
    pub resources_cached: usize,
}

/// The mathematical shape of one status entry.
pub struct McpServerStatusV {
    pub id: Seq<char>,
    pub connected: bool,
    pub last_error: Option<Seq<char>>,
    pub tools_cached: nat,
    pub resources_cached: nat,
}

impl View for McpServerStatus {
    type V = McpServerStatusV;

    open spec fn view(&self) -> McpServerStatusV {
        McpServerStatusV {
            id: self.id@,
            connected: self.connected,
            last_error: self.last_error.deep_view(),
            tools_cached: self.tools_cached as nat,
            resources_cached: self.resources_cached as nat,
        }
    }
}

// ---------------------------------------------------------------------------
// Lookup and allowlists
// ---------------------------------------------------------------------------

/// The first configured server with this id.
pub open spec fn server_of(servers: Seq<McpServerConfigV>, id: Seq<char>) -> Option<
    McpServerConfigV,
>
    decreases servers.len(),
{
    if servers.len() == 0 {
        None
    } else if servers[0].id == id {
        Some(servers[0])
    } else {
        server_of(servers.subrange(1, servers.len() as int), id)
    }
}

proof fn lemma_server_of_skip(servers: Seq<McpServerConfigV>, id: Seq<char>, i: int)
    requires
        0 <= i <= servers.len(),
        forall|j: int| 0 <= j < i ==> (#[trigger] servers[j]).id != id,
    ensures
        server_of(servers, id) == server_of(servers.subrange(i, servers.len() as int), id),
    decreases i,
{
    if i > 0 {
        let t = servers.subrange(1, servers.len() as int);
        lemma_server_of_skip(t, id, i - 1);
        assert(t.subrange(i - 1, t.len() as int) =~= servers.subrange(
            i,
            servers.len() as int,
        ));
    } else {
        assert(servers.subrange(0, servers.len() as int) =~= servers);
    }
}

/// Whether a name stands in a list.
pub fn list_contains(list: &Vec<String>, name: &str) -> (r: bool)
    ensures
        r == list.deep_view().contains(name@),
{
    let mut i: usize = 0;
    while i < list.len()
        invariant
            i <= list@.len(),
            forall|j: int| 0 <= j < i ==> list.deep_view()[j] != name@,
        decreases list@.len() - i,
    {
        if strutil::eq_str(list[i].as_str(), name) {
            proof {
                assert(list.deep_view()[i as int] == name@);
            }
            return true;
        }
        i += 1;
    }
    proof {
        if list.deep_view().contains(name@) {
            let w = choose|w: int|
                0 <= w < list.deep_view().len() && list.deep_view()[w] == name@;
            assert(list.deep_view()[w] != name@);
        }
    }
    false
}

/// Whether an item passes the allowlist: its `field` must be a string
/// named by the list.
pub open spec fn item_allowed(item: JsonVal, allow: Seq<Seq<char>>, field: Seq<char>) -> bool {
    match get_spec(item, field) {
        Some(f) => match f {
            JsonVal::Str(s) => allow.contains(s),
            _ => false,
        },
        None => false,
    }
}

/// Allowlist filtering: an empty allowlist admits everything; otherwise
/// exactly the items whose `field` the list names, in their original
/// order.
pub open spec fn apply_allowlist_spec(
    items: Seq<JsonVal>,
    allow: Seq<Seq<char>>,
    field: Seq<char>,
) -> Seq<JsonVal> {
    if allow.len() == 0 {
        items
    } else {
        items.filter(|item: JsonVal| item_allowed(item, allow, field))
    }
}

/// Filter items by an allowlist on one field. This is the one filtering
/// rule, shared by listing and invocation.
pub fn apply_allowlist_by_field(
    items: Vec<JsonValue>,
    allowlist: &Vec<String>,
    field: &str,
) -> (r: Vec<JsonValue>)
    ensures
        view_arr(r@) == apply_allowlist_spec(view_arr(items@), allowlist.deep_view(), field@),
{
    broadcast use crate::json::group_json_view;

    if allowlist.len() == 0 {
        proof {
            assert(allowlist.deep_view().len() == 0);
        }
        return items;
    }
    let ghost allow = allowlist.deep_view();
    let ghost iv = view_arr(items@);
    let mut out: Vec<JsonValue> = Vec::new();
    let mut i: usize = 0;
    proof {
        assert(allow.len() > 0);
        assert(iv.subrange(0, 0).filter(|item: JsonVal| item_allowed(item, allow, field@))
            =~= view_arr(out@));
    }
    while i < items.len()
        invariant
            i <= items@.len(),
            allow == allowlist.deep_view(),
            allow.len() > 0,
            iv == view_arr(items@),
            view_arr(out@) == iv.subrange(0, i as int).filter(
                |item: JsonVal| item_allowed(item, allow, field@),
            ),
        decreases items@.len() - i,
    {
        let ghost pre = view_arr(out@);
        let keep = match items[i].get(field) {
            Some(f) => {
                match f.as_str() {
                    Some(s) => list_contains(allowlist, s.as_str()),
                    None => false,
                }
            },
            None => false,
        };
        proof {
            assert(keep == item_allowed(iv[i as int], allow, field@));
        }
        if keep {
            out.push(items[i].deep_clone());
            proof {
                assert(view_arr(out@) =~= pre.push(iv[i as int]));
            }
        }
        i += 1;
        proof {
            let prefix = iv.subrange(0, i as int);
            assert(prefix.drop_last() =~= iv.subrange(0, i - 1));
            assert(prefix.last() == iv[i - 1]);
            reveal_with_fuel(Seq::filter, 2);
            assert(view_arr(out@) =~= prefix.filter(
                |item: JsonVal| item_allowed(item, allow, field@),
            ));
        }
    }
    proof {
        assert(iv.subrange(0, i as int) =~= iv);
    }
    out
}

/// Whatever the allowlist keeps is named by it: for a non-empty
/// allowlist, every item of the filtered list carries an allowed name.
pub proof fn lemma_allowlist_subset(items: Seq<JsonVal>, allow: Seq<Seq<char>>, field: Seq<char>)
    requires
        allow.len() > 0,
    ensures
        forall|k: int|
            0 <= k < apply_allowlist_spec(items, allow, field).len() ==> item_allowed(
                #[trigger] apply_allowlist_spec(items, allow, field)[k],
                allow,
                field,
            ),
    decreases items.len(),
{
    if items.len() > 0 {
        lemma_allowlist_subset(items.drop_last(), allow, field);
        reveal_with_fuel(Seq::filter, 2);
        let f = |item: JsonVal| item_allowed(item, allow, field);
        assert(items.filter(f) == (if f(items.last()) {
            items.drop_last().filter(f).push(items.last())
        } else {
            items.drop_last().filter(f)
        }));
    } else {
        reveal_with_fuel(Seq::filter, 2);
    }
}

/// Extract a result's list: the array under `key`, a bare top-level
/// array, or nothing.
pub open spec fn extract_list_spec(result: JsonVal, key: Seq<char>) -> Seq<JsonVal> {
    match get_spec(result, key) {
        Some(JsonVal::Arr(items)) => items,
        _ => match result {
            JsonVal::Arr(items) => items,
            _ => Seq::empty(),
        },
    }
}

/// Extract the array a listing result carries.
pub fn extract_list(result: &JsonValue, key: &str) -> (r: Vec<JsonValue>)
    ensures
        view_arr(r@) == extract_list_spec(result@, key@),
{
    broadcast use crate::json::group_json_view;

    match result.get(key) {
        Some(v) => {
            match v.as_array() {
                Some(items) => {
                    let mut out: Vec<JsonValue> = Vec::new();
                    let mut i: usize = 0;
                    while i < items.len()
                        invariant
                            i <= items@.len(),
                            out@.len() == i,
                            forall|j: int| 0 <= j < i ==> (#[trigger] out@[j])@ == items@[j]@,
                        decreases items@.len() - i,
                    {
                        out.push(items[i].deep_clone());
                        i += 1;
                    }
                    proof {
                        assert(view_arr(out@) =~= view_arr(items@));
                    }
                    return out;
                },
                None => {},
            }
        },
        None => {},
    }
    match result.as_array() {
        Some(items) => {
            let mut out: Vec<JsonValue> = Vec::new();
            let mut i: usize = 0;
            while i < items.len()
                invariant
                    i <= items@.len(),
                    out@.len() == i,
                    forall|j: int| 0 <= j < i ==> (#[trigger] out@[j])@ == items@[j]@,
                decreases items@.len() - i,
            {
                out.push(items[i].deep_clone());
                i += 1;
            }
            proof {
                assert(view_arr(out@) =~= view_arr(items@));
            }
            out
        },
        None => {
            let out: Vec<JsonValue> = Vec::new();
            proof {
                assert(view_arr(out@) =~= Seq::<JsonVal>::empty());
            }
            out
        },
    }
}


// ---------------------------------------------------------------------------
// Live connections
// ---------------------------------------------------------------------------

/// One live connection: its caches and last error. The transport client
/// itself lives with the caller, keyed by the same id.
pub struct McpConnection {
    pub id: String,
    pub tools_cache: Vec<JsonValue>,
    pub resources_cache: Vec<JsonValue>,
    pub last_error: Option<String>,
}

/// The mathematical shape of a connection.
pub struct McpConnectionV {
    pub id: Seq<char>,
    pub tools_cache: Seq<JsonVal>,
    pub resources_cache: Seq<JsonVal>,
    pub last_error: Option<Seq<char>>,
}

impl View for McpConnection {
    type V = McpConnectionV;

    open spec fn view(&self) -> McpConnectionV {
        McpConnectionV {
            id: self.id@,
            tools_cache: view_arr(self.tools_cache@),
            resources_cache: view_arr(self.resources_cache@),
            last_error: self.last_error.deep_view(),
        }
    }
}

/// The first connection with this id.
pub open spec fn conn_of(cs: Seq<McpConnectionV>, id: Seq<char>) -> Option<McpConnectionV>
    decreases cs.len(),
{
    if cs.len() == 0 {
        None
    } else if cs[0].id == id {
        Some(cs[0])
    } else {
        conn_of(cs.subrange(1, cs.len() as int), id)
    }
}

proof fn lemma_conn_of_skip(cs: Seq<McpConnectionV>, id: Seq<char>, i: int)
    requires
        0 <= i <= cs.len(),
        forall|j: int| 0 <= j < i ==> (#[trigger] cs[j]).id != id,
    ensures
        conn_of(cs, id) == conn_of(cs.subrange(i, cs.len() as int), id),
    decreases i,
{
    if i > 0 {
        let t = cs.subrange(1, cs.len() as int);
        lemma_conn_of_skip(t, id, i - 1);
        assert(t.subrange(i - 1, t.len() as int) =~= cs.subrange(i, cs.len() as int));
    } else {
        assert(cs.subrange(0, cs.len() as int) =~= cs);
    }
}

proof fn lemma_conn_of_update(cs: Seq<McpConnectionV>, i: int, v: McpConnectionV, id: Seq<char>)
    requires
        0 <= i < cs.len(),
        v.id == cs[i].id,
        forall|j: int| 0 <= j < i ==> (#[trigger] cs[j]).id != cs[i].id,
    ensures
        conn_of(cs.update(i, v), cs[i].id) == Some(v),
        id != cs[i].id ==> conn_of(cs.update(i, v), id) == conn_of(cs, id),
    decreases i,
{
    let t = cs.update(i, v);
    if i == 0 {
        assert(t[0] == v);
        if id != cs[0].id {
            assert(t.subrange(1, t.len() as int) =~= cs.subrange(1, cs.len() as int));
        }
    } else {
        assert(t[0] == cs[0]);
        let cs1 = cs.subrange(1, cs.len() as int);
        assert(forall|j: int| 0 <= j < i - 1 ==> (#[trigger] cs1[j]).id != cs1[i - 1].id);
        lemma_conn_of_update(cs1, i - 1, v, id);
        assert(t.subrange(1, t.len() as int) =~= cs1.update(i - 1, v));
        assert(cs1[i - 1] == cs[i]);
    }
}

proof fn lemma_conn_of_push(cs: Seq<McpConnectionV>, v: McpConnectionV, id: Seq<char>)
    requires
        forall|j: int| 0 <= j < cs.len() ==> (#[trigger] cs[j]).id != v.id,
    ensures
        conn_of(cs.push(v), v.id) == Some(v),
        id != v.id ==> conn_of(cs.push(v), id) == conn_of(cs, id),
    decreases cs.len(),
{
    let t = cs.push(v);
    if cs.len() == 0 {
        assert(t[0] == v);
        if id != v.id {
            assert(t[0].id != id);
            assert(t.subrange(1, t.len() as int).len() == 0);
            assert(conn_of(t, id) == conn_of(t.subrange(1, t.len() as int), id));
            assert(conn_of(t, id) is None);
            assert(conn_of(cs, id) is None);
        }
    } else {
        assert(t[0] == cs[0]);
        let cs1 = cs.subrange(1, cs.len() as int);
        lemma_conn_of_push(cs1, v, id);
        assert(t.subrange(1, t.len() as int) =~= cs1.push(v));
        if id != v.id && cs[0].id == id {
            assert(conn_of(t, id) == Some(t[0]));
            assert(conn_of(cs, id) == Some(cs[0]));
        }
    }
}

proof fn lemma_conn_of_remove(cs: Seq<McpConnectionV>, i: int, id: Seq<char>)
    requires
        0 <= i < cs.len(),
        forall|j: int| 0 <= j < i ==> (#[trigger] cs[j]).id != cs[i].id,
        forall|j: int| i < j < cs.len() ==> (#[trigger] cs[j]).id != cs[i].id,
    ensures
        conn_of(cs.remove(i), cs[i].id) is None,
        id != cs[i].id ==> conn_of(cs.remove(i), id) == conn_of(cs, id),
    decreases i,
{
    let t = cs.remove(i);
    if i == 0 {
        assert(t =~= cs.subrange(1, cs.len() as int));
        assert forall|j: int| 0 <= j < t.len() implies (#[trigger] t[j]).id != cs[0].id by {
            assert(t[j] == cs[j + 1]);
        }
        lemma_conn_none_when_all_differ(t, cs[0].id);
    } else {
        assert(t[0] == cs[0]);
        let cs1 = cs.subrange(1, cs.len() as int);
        assert(forall|j: int| 0 <= j < i - 1 ==> (#[trigger] cs1[j]).id != cs1[i - 1].id);
        assert forall|j: int| i - 1 < j < cs1.len() implies (#[trigger] cs1[j]).id != cs1[i
            - 1].id by {
            assert(cs1[j] == cs[j + 1]);
        }
        lemma_conn_of_remove(cs1, i - 1, id);
        assert(t.subrange(1, t.len() as int) =~= cs1.remove(i - 1));
        assert(cs1[i - 1] == cs[i]);
        if id != cs[i].id && cs[0].id == id {
            assert(conn_of(t, id) == Some(t[0]));
            assert(conn_of(cs, id) == Some(cs[0]));
        }
    }
}

proof fn lemma_conn_none_when_all_differ(cs: Seq<McpConnectionV>, id: Seq<char>)
    requires
        forall|j: int| 0 <= j < cs.len() ==> (#[trigger] cs[j]).id != id,
    ensures
        conn_of(cs, id) is None,
    decreases cs.len(),
{
    if cs.len() > 0 {
        lemma_conn_none_when_all_differ(cs.subrange(1, cs.len() as int), id);
    }
}

// ---------------------------------------------------------------------------
// The connection manager
// ---------------------------------------------------------------------------

/// The connection manager's whole state: the canonical configuration and
/// the live connections by server id.
pub struct McpRegistry {
    pub config: McpConfig,
    pub connections: Vec<McpConnection>,
}

impl McpRegistry {
    /// The views of the live connections.
    pub open spec fn conns(&self) -> Seq<McpConnectionV> {
        self.connections@.map_values(|c: McpConnection| c@)
    }

    /// The connection for `id`, if live.
    pub open spec fn conn(&self, id: Seq<char>) -> Option<McpConnectionV> {
        conn_of(self.conns(), id)
    }

    /// The configured server for `id`, if any.
    pub open spec fn server(&self, id: Seq<char>) -> Option<McpServerConfigV> {
        server_of(self.config@, id)
    }

    /// Each server id has at most one live connection.
    pub open spec fn wf(&self) -> bool {
        forall|i: int, j: int|
            0 <= i < j < self.conns().len() ==> (#[trigger] self.conns()[i]).id != (
            #[trigger] self.conns()[j]).id
    }

    /// A fresh manager: the given configuration, nothing connected.
    pub fn new(config: McpConfig) -> (r: McpRegistry)
        ensures
            r.wf(),
            r.config@ == config@,
            forall|id: Seq<char>| r.conn(id) is None,
    {
        let r = McpRegistry { config, connections: Vec::new() };
        proof {
            assert(r.conns() =~= Seq::<McpConnectionV>::empty());
            assert(forall|id: Seq<char>| r.conn(id) is None);
        }
        r
    }

    /// Replace the whole configuration.
    pub fn set_config(&mut self, config: McpConfig)
        requires
            old(self).wf(),
        ensures
            final(self).wf(),
            final(self).config@ == config@,
            final(self).conns() == old(self).conns(),
    {
        self.config = config;
    }

    /// A copy of the configuration.
    pub fn get_config(&self) -> (r: McpConfig)
        ensures
            r@ == self.config@,
    {
        self.config.dup()
    }

    /// Copies of all configured servers, in order.
    pub fn list_servers(&self) -> (r: Vec<McpServerConfig>)
        ensures
            r@.map_values(|s: McpServerConfig| s@) == self.config@,
    {
        let mut out: Vec<McpServerConfig> = Vec::new();
        let mut i: usize = 0;
        while i < self.config.servers.len()
            invariant
                i <= self.config.servers@.len(),
                out@.len() == i,
                forall|j: int|
                    0 <= j < i ==> (#[trigger] out@[j])@ == self.config.servers@[j]@,
            decreases self.config.servers@.len() - i,
        {
            out.push(self.config.servers[i].dup());
            i += 1;
        }
        proof {
            assert(out@.map_values(|s: McpServerConfig| s@) =~= self.config@);
        }
        out
    }

    /// Index of the configured server with this id, if any.
    fn find_server_index(&self, id: &str) -> (r: Option<usize>)
        ensures
            match r {
                Some(i) => i < self.config@.len() && self.config@[i as int].id == id@
                    && self.server(id@) == Some(self.config@[i as int]) && forall|j: int|
                    0 <= j < i ==> (#[trigger] self.config@[j]).id != id@,
                None => self.server(id@) is None,
            },
    {
        let mut i: usize = 0;
        while i < self.config.servers.len()
            invariant
                i <= self.config@.len(),
                forall|j: int| 0 <= j < i ==> (#[trigger] self.config@[j]).id != id@,
            decreases self.config@.len() - i,
        {
            if strutil::eq_str(self.config.servers[i].id.as_str(), id) {
                proof {
                    lemma_server_of_skip(self.config@, id@, i as int);
                    let rest = self.config@.subrange(i as int, self.config@.len() as int);
                    assert(rest[0] == self.config@[i as int]);
                }
                return Some(i);
            }
            i += 1;
        }
        proof {
            lemma_server_of_skip(self.config@, id@, i as int);
            assert(self.config@.subrange(i as int, self.config@.len() as int).len() == 0);
        }
        None
    }

    /// Index of the live connection for this id, if any.
    fn find_conn_index(&self, id: &str) -> (r: Option<usize>)
        ensures
            match r {
                Some(i) => i < self.conns().len() && self.conns()[i as int].id == id@
                    && self.conn(id@) == Some(self.conns()[i as int]) && forall|j: int|
                    0 <= j < i ==> (#[trigger] self.conns()[j]).id != id@,
                None => self.conn(id@) is None,
            },
    {
        let mut i: usize = 0;
        while i < self.connections.len()
            invariant
                i <= self.conns().len(),
                forall|j: int| 0 <= j < i ==> (#[trigger] self.conns()[j]).id != id@,
            decreases self.conns().len() - i,
        {
            if strutil::eq_str(self.connections[i].id.as_str(), id) {
                proof {
                    lemma_conn_of_skip(self.conns(), id@, i as int);
                    let rest = self.conns().subrange(i as int, self.conns().len() as int);
                    assert(rest[0] == self.conns()[i as int]);
                }
                return Some(i);
            }
            i += 1;
        }
        proof {
            lemma_conn_of_skip(self.conns(), id@, i as int);
            assert(self.conns().subrange(i as int, self.conns().len() as int).len() == 0);
        }
        None
    }

    /// Add a new server; a second server with the same id is refused.
    pub fn add_server(&mut self, server: McpServerConfig) -> (r: Result<(), String>)
        requires
            old(self).wf(),
        ensures
            final(self).wf(),
            final(self).conns() == old(self).conns(),
            match old(self).server(server@.id) {
                Some(_) => r matches Err(e) && e@ == "Server with same id already exists"@
                    && final(self).config@ == old(self).config@,
                None => r is Ok && final(self).config@ == old(self).config@.push(server@),
            },
    {
        match self.find_server_index(server.id.as_str()) {
            Some(_) => Err("Server with same id already exists".to_owned()),
            None => {
                let ghost oldc = self.config@;
                let ghost sv = server@;
                self.config.servers.push(server);
                proof {
                    assert(final(self).config@ =~= oldc.push(sv));
                }
                Ok(())
            },
        }
    }

    /// Update the server with this id in place; an unknown id is refused.
    pub fn update_server(&mut self, server: McpServerConfig) -> (r: Result<(), String>)
        requires
            old(self).wf(),
        ensures
            final(self).wf(),
            final(self).conns() == old(self).conns(),
            match old(self).server(server@.id) {
                None => r matches Err(e) && e@ == "Server not found"@ && final(self).config@
                    == old(self).config@,
                Some(_) => r is Ok && exists|i: int|
                    0 <= i < old(self).config@.len() && (#[trigger] old(self).config@[i]).id
                        == server@.id && final(self).config@ == old(self).config@.update(
                        i,
                        server@,
                    ),
            },
    {
        match self.find_server_index(server.id.as_str()) {
            None => Err("Server not found".to_owned()),
            Some(i) => {
                let ghost oldc = self.config@;
                let ghost sv = server@;
                self.config.servers.remove(i);
                self.config.servers.insert(i, server);
                proof {
                    assert(final(self).config@ =~= oldc.update(i as int, sv));
                }
                Ok(())
            },
        }
    }

    /// Drop the live connection for `id`, if any; the caller shuts the
    /// transport down. Answers whether one was dropped.
    pub fn drop_connection(&mut self, id: &str) -> (r: bool)
        requires
            old(self).wf(),
        ensures
            final(self).wf(),
            final(self).config@ == old(self).config@,
            r == (old(self).conn(id@) is Some),
            final(self).conn(id@) is None,
            forall|other: Seq<char>|
                other != id@ ==> #[trigger] final(self).conn(other) == old(self).conn(other),
    {
        match self.find_conn_index(id) {
            Some(i) => {
                let ghost oldcs = self.conns();
                self.connections.remove(i);
                proof {
                    assert(final(self).conns() =~= oldcs.remove(i as int));
                    assert forall|j: int|
                        (i as int) < j < oldcs.len() implies (#[trigger] oldcs[j]).id != oldcs[
                        i as int].id by {}
                    lemma_conn_of_remove(oldcs, i as int, id@);
                    assert forall|other: Seq<char>| other != id@ implies #[trigger] conn_of(
                        final(self).conns(),
                        other,
                    ) == conn_of(oldcs, other) by {
                        lemma_conn_of_remove(oldcs, i as int, other);
                    }
                    assert forall|a: int, b: int|
                        0 <= a < b < final(self).conns().len() implies (
                    #[trigger] final(self).conns()[a]).id != (
                    #[trigger] final(self).conns()[b]).id by {
                        let olda = if a < i as int { a } else { a + 1 };
                        let oldb = if b < i as int { b } else { b + 1 };
                        assert(final(self).conns()[a] == oldcs[olda]);
                        assert(final(self).conns()[b] == oldcs[oldb]);
                    }
                }
                true
            },
            None => false,
        }
    }

    /// Record a fresh connection for `id`, with empty caches, replacing
    /// any earlier one.
    pub fn register_connection(&mut self, id: &str)
        requires
            old(self).wf(),
        ensures
            final(self).wf(),
            final(self).config@ == old(self).config@,
            final(self).conn(id@) == Some(
                McpConnectionV {
                    id: id@,
                    tools_cache: Seq::empty(),
                    resources_cache: Seq::empty(),
                    last_error: None,
                },
            ),
            forall|other: Seq<char>|
                other != id@ ==> #[trigger] final(self).conn(other) == old(self).conn(other),
    {
        self.drop_connection(id);
        let ghost midreg = *self;
        let ghost mid = self.conns();
        let fresh = McpConnection {
            id: id.to_owned(),
            tools_cache: Vec::new(),
            resources_cache: Vec::new(),
            last_error: None,
        };
        let ghost fv = fresh@;
        self.connections.push(fresh);
        proof {
            assert(fv.tools_cache =~= Seq::<JsonVal>::empty());
            assert(fv.resources_cache =~= Seq::<JsonVal>::empty());
            assert(final(self).conns() =~= mid.push(fv));
            assert forall|j: int| 0 <= j < mid.len() implies (#[trigger] mid[j]).id != fv.id by {
                if mid[j].id == id@ {
                    assert forall|m: int| 0 <= m < j implies (#[trigger] mid[m]).id != id@ by {}
                    lemma_conn_of_skip(mid, id@, j);
                    let rest = mid.subrange(j, mid.len() as int);
                    assert(rest[0] == mid[j]);
                }
            }
            lemma_conn_of_push(mid, fv, id@);
            assert forall|other: Seq<char>| other != id@ implies #[trigger] final(self).conn(
                other,
            ) == old(self).conn(other) by {
                lemma_conn_of_push(mid, fv, other);
                assert(midreg.conn(other) == conn_of(mid, other));
            }
            assert forall|a: int, b: int|
                0 <= a < b < final(self).conns().len() implies (
            #[trigger] final(self).conns()[a]).id != (#[trigger] final(self).conns()[b]).id by {
                if b == mid.len() {
                    assert(final(self).conns()[a] == mid[a]);
                } else {
                    assert(final(self).conns()[a] == mid[a]);
                    assert(final(self).conns()[b] == mid[b]);
                }
            }
        }
    }

    /// Remove a server's configuration and drop its connection. Unknown
    /// ids succeed as a no-op. Answers whether a connection was dropped,
    /// so the caller can shut the transport down.
    pub fn remove_server(&mut self, id: &str) -> (r: Result<bool, String>)
        requires
            old(self).wf(),
        ensures
            final(self).wf(),
            r is Ok,
            final(self).config@ == old(self).config@.filter(
                |s: McpServerConfigV| s.id != id@,
            ),
            final(self).conn(id@) is None,
            r == Ok::<bool, String>(old(self).conn(id@) is Some),
            forall|other: Seq<char>|
                other != id@ ==> #[trigger] final(self).conn(other) == old(self).conn(other),
    {
        let ghost oldc = self.config@;
        let mut kept: Vec<McpServerConfig> = Vec::new();
        let mut i: usize = 0;
        proof {
            assert(oldc.subrange(0, 0).filter(|s: McpServerConfigV| s.id != id@)
                =~= kept@.map_values(|s: McpServerConfig| s@));
        }
        while i < self.config.servers.len()
            invariant
                i <= self.config.servers@.len(),
                oldc == self.config@,
                kept@.map_values(|s: McpServerConfig| s@) == oldc.subrange(0, i as int).filter(
                    |s: McpServerConfigV| s.id != id@,
                ),
            decreases self.config.servers@.len() - i,
        {
            let ghost pre = kept@.map_values(|s: McpServerConfig| s@);
            let keep = !strutil::eq_str(self.config.servers[i].id.as_str(), id);
            if keep {
                kept.push(self.config.servers[i].dup());
                proof {
                    assert(kept@.map_values(|s: McpServerConfig| s@) =~= pre.push(
                        oldc[i as int],
                    ));
                }
            }
            i += 1;
            proof {
                let prefix = oldc.subrange(0, i as int);
                assert(prefix.drop_last() =~= oldc.subrange(0, i - 1));
                assert(prefix.last() == oldc[i - 1]);
                reveal_with_fuel(Seq::filter, 2);
                assert(kept@.map_values(|s: McpServerConfig| s@) =~= prefix.filter(
                    |s: McpServerConfigV| s.id != id@,
                ));
            }
        }
        proof {
            assert(oldc.subrange(0, i as int) =~= oldc);
        }
        self.config.servers = kept;
        let had = self.drop_connection(id);
        Ok(had)
    }

    /// Drop a live connection; unknown ids succeed as a no-op. Answers
    /// whether a connection was dropped.
    pub fn disconnect(&mut self, id: &str) -> (r: Result<bool, String>)
        requires
            old(self).wf(),
        ensures
            final(self).wf(),
            final(self).config@ == old(self).config@,
            r == Ok::<bool, String>(old(self).conn(id@) is Some),
            final(self).conn(id@) is None,
            forall|other: Seq<char>|
                other != id@ ==> #[trigger] final(self).conn(other) == old(self).conn(other),
    {
        let had = self.drop_connection(id);
        Ok(had)
    }
}


// ---------------------------------------------------------------------------
// Status and the listing / invocation checks
// ---------------------------------------------------------------------------

/// What `status` reports for an id: connected with its cache sizes and
/// last error, or unconnected with zero counts.
pub open spec fn status_of(cs: Seq<McpConnectionV>, id: Seq<char>) -> McpServerStatusV {
    match conn_of(cs, id) {
        Some(c) => McpServerStatusV {
            id,
            connected: true,
            last_error: c.last_error,
            tools_cached: c.tools_cache.len(),
            resources_cached: c.resources_cache.len(),
        },
        None => McpServerStatusV {
            id,
            connected: false,
            last_error: None,
            tools_cached: 0,
            resources_cached: 0,
        },
    }
}

impl McpRegistry {
    /// Build the status entry for one id.
    fn status_one(&self, id: String) -> (r: McpServerStatus)
        ensures
            r@ == status_of(self.conns(), id@),
    {
        match self.find_conn_index(id.as_str()) {
            Some(i) => {
                let c = &self.connections[i];
                let r = McpServerStatus {
                    id,
                    connected: true,
                    last_error: dup_opt_string(&c.last_error),
                    tools_cached: c.tools_cache.len(),
                    resources_cached: c.resources_cache.len(),
                };
                proof {
                    broadcast use crate::json::group_json_view;

                }
                r
            },
            None => McpServerStatus {
                id,
                connected: false,
                last_error: None,
                tools_cached: 0,
                resources_cached: 0,
            },
        }
    }

    /// Report per-server status: one entry for the asked id, or one per
    /// configured server in order.
    pub fn status(&self, id: Option<String>) -> (r: Vec<McpServerStatus>)
        ensures
            match id {
                Some(x) => r@.map_values(|st: McpServerStatus| st@) == seq![
                    status_of(self.conns(), x@),
                ],
                None => r@.map_values(|st: McpServerStatus| st@) == Seq::new(
                    self.config@.len(),
                    |i: int| status_of(self.conns(), self.config@[i].id),
                ),
            },
    {
        let mut out: Vec<McpServerStatus> = Vec::new();
        match id {
            Some(x) => {
                out.push(self.status_one(x));
                proof {
                    assert(out@.map_values(|st: McpServerStatus| st@) =~= seq![out@[0]@]);
                }
            },
            None => {
                let mut i: usize = 0;
                while i < self.config.servers.len()
                    invariant
                        i <= self.config@.len(),
                        out@.len() == i,
                        forall|j: int|
                            0 <= j < i ==> (#[trigger] out@[j])@ == status_of(
                                self.conns(),
                                self.config@[j].id,
                            ),
                    decreases self.config@.len() - i,
                {
                    let sid = self.config.servers[i].id.clone();
                    out.push(self.status_one(sid));
                    i += 1;
                }
                proof {
                    assert(out@.map_values(|st: McpServerStatus| st@) =~= Seq::new(
                        self.config@.len(),
                        |i: int| status_of(self.conns(), self.config@[i].id),
                    ));
                }
            },
        }
        out
    }

    /// The allowlist recorded for a server: the tool list or the resource
    /// list, an absent list read as empty.
    pub open spec fn allowlist_of(&self, id: Seq<char>, tools: bool) -> Option<Seq<Seq<char>>> {
        match self.server(id) {
            Some(s) => Some(
                match (if tools {
                    s.tool_allowlist
                } else {
                    s.resource_allowlist
                }) {
                    Some(l) => l,
                    None => Seq::empty(),
                },
            ),
            None => None,
        }
    }

    /// Fetch a server's allowlist, empty when none is configured.
    fn get_server_allowlist(&self, id: &str, tools: bool) -> (r: Result<Vec<String>, String>)
        ensures
            match r {
                Ok(l) => self.allowlist_of(id@, tools) == Some(l.deep_view()),
                Err(e) => self.server(id@) is None && e@ == "Server not found"@,
            },
    {
        match self.find_server_index(id) {
            None => Err("Server not found".to_owned()),
            Some(i) => {
                let s = &self.config.servers[i];
                let list = if tools {
                    dup_opt_strings(&s.tool_allowlist)
                } else {
                    dup_opt_strings(&s.resource_allowlist)
                };
                match list {
                    Some(l) => Ok(l),
                    None => {
                        let l: Vec<String> = Vec::new();
                        proof {
                            assert(l.deep_view() =~= Seq::<Seq<char>>::empty());
                        }
                        Ok(l)
                    },
                }
            },
        }
    }

    /// Begin a listing call: the server must exist and be connected; the
    /// caller then issues the remote request and hands the result to the
    /// matching `finish`. Answers the allowlist to filter with.
    pub fn listing_prepare(&self, id: &str, tools: bool) -> (r: Result<Vec<String>, String>)
        ensures
            match r {
                Ok(l) => self.allowlist_of(id@, tools) == Some(l.deep_view()) && self.conn(id@)
                    is Some,
                Err(e) => {
                    ||| (self.server(id@) is None && e@ == "Server not found"@)
                    ||| (self.server(id@) is Some && self.conn(id@) is None && e@
                        == "Server not connected"@)
                },
            },
    {
        let allowlist = match self.get_server_allowlist(id, tools) {
            Ok(l) => l,
            Err(e) => {
                return Err(e);
            },
        };
        match self.find_conn_index(id) {
            Some(_) => Ok(allowlist),
            None => Err("Server not connected".to_owned()),
        }
    }

    /// Finish a listing call: extract the array under `key`, filter it by
    /// the allowlist on `field`, cache the filtered list for the
    /// connection, and answer it.
    pub fn listing_finish(
        &mut self,
        id: &str,
        tools: bool,
        allowlist: &Vec<String>,
        result: &JsonValue,
        key: &str,
        field: &str,
    ) -> (r: Result<Vec<JsonValue>, String>)
        requires
            old(self).wf(),
        ensures
            final(self).wf(),
            final(self).config@ == old(self).config@,
            match r {
                Ok(items) => {
                    let filtered = apply_allowlist_spec(
                        extract_list_spec(result@, key@),
                        allowlist.deep_view(),
                        field@,
                    );
                    &&& old(self).conn(id@) is Some
                    &&& view_arr(items@) == filtered
                    &&& final(self).conn(id@) == Some(
                        if tools {
                            McpConnectionV {
                                tools_cache: filtered,
                                ..old(self).conn(id@)->Some_0
                            }
                        } else {
                            McpConnectionV {
                                resources_cache: filtered,
                                ..old(self).conn(id@)->Some_0
                            }
                        },
                    )
                    &&& forall|other: Seq<char>|
                        other != id@ ==> #[trigger] final(self).conn(other) == old(self).conn(
                            other,
                        )
                },
                Err(e) => old(self).conn(id@) is None && e@ == "Server not connected"@
                    && *final(self) == *old(self),
            },
    {
        let i = match self.find_conn_index(id) {
            Some(i) => i,
            None => {
                return Err("Server not connected".to_owned());
            },
        };
        let extracted = extract_list(result, key);
        let filtered = apply_allowlist_by_field(extracted, allowlist, field);
        let cache_copy = dup_values(&filtered);
        let ghost oldcs = self.conns();
        let old_conn = self.connections.remove(i);
        let new_conn = if tools {
            McpConnection {
                id: old_conn.id,
                tools_cache: cache_copy,
                resources_cache: old_conn.resources_cache,
                last_error: old_conn.last_error,
            }
        } else {
            McpConnection {
                id: old_conn.id,
                tools_cache: old_conn.tools_cache,
                resources_cache: cache_copy,
                last_error: old_conn.last_error,
            }
        };
        let ghost nv = new_conn@;
        self.connections.insert(i, new_conn);
        proof {
            assert(final(self).conns() =~= oldcs.update(i as int, nv));
            lemma_conn_of_update(oldcs, i as int, nv, id@);
            assert forall|other: Seq<char>| other != id@ implies #[trigger] final(self).conn(
                other,
            ) == old(self).conn(other) by {
                lemma_conn_of_update(oldcs, i as int, nv, other);
            }
            assert forall|a: int, b: int|
                0 <= a < b < final(self).conns().len() implies (
            #[trigger] final(self).conns()[a]).id != (#[trigger] final(self).conns()[b]).id by {
                assert(final(self).conns()[a].id == oldcs[a].id);
                assert(final(self).conns()[b].id == oldcs[b].id);
            }
        }
        Ok(filtered)
    }

    /// Re-validate allowlist membership before forwarding an invocation:
    /// defence in depth even when listing was bypassed. Answers the
    /// request parameters to forward.
    pub fn invoke_check(
        &self,
        id: &str,
        name: &str,
        arguments: Option<JsonValue>,
        tools: bool,
    ) -> (r: Result<JsonValue, String>)
        ensures
            match r {
                Ok(params) => {
                    &&& self.server(id@) is Some
                    &&& (self.allowlist_of(id@, tools)->Some_0.len() == 0 || self.allowlist_of(
                        id@,
                        tools,
                    )->Some_0.contains(name@))
                    &&& self.conn(id@) is Some
                    &&& params@ == (if tools {
                        JsonVal::Obj(
                            Seq::empty().push(("name"@, JsonVal::Str(name@))).push(
                                (
                                    "arguments"@,
                                    match arguments {
                                        Some(a) => a@,
                                        None => JsonVal::Null,
                                    },
                                ),
                            ),
                        )
                    } else {
                        JsonVal::Obj(Seq::empty().push(("uri"@, JsonVal::Str(name@))))
                    })
                },
                Err(e) => {
                    ||| (self.server(id@) is None && e@ == "Server not found"@)
                    ||| (self.server(id@) is Some && self.allowlist_of(id@, tools)->Some_0.len()
                        > 0 && !self.allowlist_of(id@, tools)->Some_0.contains(name@) && e@ == (
                    if tools {
                        "Tool not allowed"@
                    } else {
                        "Resource not allowed"@
                    }))
                    ||| (self.server(id@) is Some && self.conn(id@) is None && e@
                        == "Server not connected"@)
                },
            },
    {
        broadcast use crate::json::group_json_view;

        let ghost av = match arguments {
            Some(ref a) => a@,
            None => JsonVal::Null,
        };
        let allowlist = match self.get_server_allowlist(id, tools) {
            Ok(l) => l,
            Err(e) => {
                return Err(e);
            },
        };
        if allowlist.len() > 0 && !list_contains(&allowlist, name) {
            proof {
                assert(allowlist.deep_view().len() > 0);
            }
            if tools {
                return Err("Tool not allowed".to_owned());
            } else {
                return Err("Resource not allowed".to_owned());
            }
        }
        proof {
            if allowlist.len() == 0 {
                assert(allowlist.deep_view().len() == 0);
            }
        }
        match self.find_conn_index(id) {
            Some(_) => {},
            None => {
                return Err("Server not connected".to_owned());
            },
        }
        if tools {
            let mut fields: Vec<(String, JsonValue)> = Vec::new();
            fields.push(("name".to_owned(), JsonValue::Str(name.to_owned())));
            match arguments {
                Some(a) => fields.push(("arguments".to_owned(), a)),
                None => fields.push(("arguments".to_owned(), JsonValue::Null)),
            }
            let params = JsonValue::Obj(fields);
            proof {
                crate::json::lemma_view_obj_len(params->Obj_0@);
                crate::json::lemma_view_obj_index(params->Obj_0@, 0);
                crate::json::lemma_view_obj_index(params->Obj_0@, 1);
                assert(params->Obj_0@[1].1@ == av);
                assert(params@->Obj_0 =~= Seq::empty().push(
                    ("name"@, JsonVal::Str(name@)),
                ).push(("arguments"@, av)));
                assert(params@ == JsonVal::Obj(
                    Seq::empty().push(("name"@, JsonVal::Str(name@))).push(
                        ("arguments"@, av),
                    ),
                ));
            }
            Ok(params)
        } else {
            let mut fields: Vec<(String, JsonValue)> = Vec::new();
            fields.push(("uri".to_owned(), JsonValue::Str(name.to_owned())));
            let params = JsonValue::Obj(fields);
            proof {
                crate::json::lemma_view_obj_len(params->Obj_0@);
                crate::json::lemma_view_obj_index(params->Obj_0@, 0);
                assert(params@->Obj_0 =~= Seq::empty().push(("uri"@, JsonVal::Str(name@))));
                assert(params@ == JsonVal::Obj(
                    Seq::empty().push(("uri"@, JsonVal::Str(name@))),
                ));
                assert(self.server(id@) is Some);
                assert(self.conn(id@) is Some);
                assert(self.allowlist_of(id@, tools)->Some_0.len() == 0 || self.allowlist_of(
                    id@,
                    tools,
                )->Some_0.contains(name@));
            }
            Ok(params)
        }
    }
}

/// Copy a list of JSON values, keeping every view.
pub fn dup_values(items: &Vec<JsonValue>) -> (r: Vec<JsonValue>)
    ensures
        view_arr(r@) == view_arr(items@),
{
    broadcast use crate::json::group_json_view;

    let mut out: Vec<JsonValue> = Vec::new();
    let mut i: usize = 0;
    while i < items.len()
        invariant
            i <= items@.len(),
            out@.len() == i,
            forall|j: int| 0 <= j < i ==> (#[trigger] out@[j])@ == items@[j]@,
        decreases items@.len() - i,
    {
        out.push(items[i].deep_clone());
        i += 1;
    }
    proof {
        assert(view_arr(out@) =~= view_arr(items@));
    }
    out
}


// ---------------------------------------------------------------------------
// Connecting
// ---------------------------------------------------------------------------

/// What opening a transport needs: everything the configuration dictates.
#[derive(Debug)]
pub enum ConnectPlan {
    Stdio {
        command: String,
        args: Vec<String>,
        cwd: Option<String>,
        env: Option<Vec<(String, String)>>,
    },
    Http { url: String, headers: Option<Vec<(String, String)>> },
}

impl McpRegistry {
    /// Validate a connect request: the server must exist and be enabled,
    /// a stdio server needs a command, an HTTP server a url. The caller
    /// opens the transport and then records it with
    /// `register_connection`.
    pub fn connect_plan(&self, id: &str) -> (r: Result<ConnectPlan, String>)
        ensures
            match r {
                Ok(plan) => {
                    let s = self.server(id@)->Some_0;
                    &&& self.server(id@) is Some
                    &&& s.enabled
                    &&& match plan {
                        ConnectPlan::Stdio { command, args, cwd, env } => s.transport
                            is Stdio && s.command == Some(command@) && args.deep_view() == (
                        match s.args {
                            Some(a) => a,
                            None => Seq::empty(),
                        }) && cwd.deep_view() == s.cwd && env.deep_view() == s.env,
                        ConnectPlan::Http { url, headers } => s.transport is HttpSse && s.url
                            == Some(url@) && headers.deep_view() == s.headers,
                    }
                },
                Err(e) => {
                    ||| (self.server(id@) is None && e@ == "Server not found"@)
                    ||| (self.server(id@) is Some && !self.server(id@)->Some_0.enabled && e@
                        == "Server is disabled"@)
                    ||| (self.server(id@) is Some && self.server(id@)->Some_0.enabled
                        && self.server(id@)->Some_0.transport is Stdio && self.server(
                        id@,
                    )->Some_0.command is None && e@ == "Missing command"@)
                    ||| (self.server(id@) is Some && self.server(id@)->Some_0.enabled
                        && self.server(id@)->Some_0.transport is HttpSse && self.server(
                        id@,
                    )->Some_0.url is None && e@ == "Missing url"@)
                },
            },
    {
        let i = match self.find_server_index(id) {
            Some(i) => i,
            None => {
                return Err("Server not found".to_owned());
            },
        };
        let server = &self.config.servers[i];
        if !server.enabled {
            return Err("Server is disabled".to_owned());
        }
        match server.transport {
            McpTransport::Stdio => {
                let command = match &server.command {
                    Some(c) => c.clone(),
                    None => {
                        return Err("Missing command".to_owned());
                    },
                };
                let args = match &server.args {
                    Some(a) => dup_strings(a),
                    None => Vec::new(),
                };
                proof {
                    assert(args.deep_view() =~~= (match self.server(id@)->Some_0.args {
                        Some(a) => a,
                        None => Seq::<Seq<char>>::empty(),
                    }));
                }
                Ok(
                    ConnectPlan::Stdio {
                        command,
                        args,
                        cwd: dup_opt_string(&server.cwd),
                        env: dup_opt_pairs(&server.env),
                    },
                )
            },
            McpTransport::HttpSse => {
                let url = match &server.url {
                    Some(u) => u.clone(),
                    None => {
                        return Err("Missing url".to_owned());
                    },
                };
                Ok(ConnectPlan::Http { url, headers: dup_opt_pairs(&server.headers) })
            },
        }
    }
}

/// The configuration shipped by default: one remote search server over
/// HTTP, enabled, with no allowlists.
pub fn default_tavily_config() -> (r: McpConfig)
    ensures
        r@.len() == 1,
        r@[0].id == "tavily"@,
        r@[0].name == "Tavily MCP (Remote)"@,
        r@[0].enabled,
        r@[0].transport is HttpSse,
        r@[0].command is None,
        r@[0].args is None,
        r@[0].cwd is None,
        r@[0].env is None,
        r@[0].url == Some("https://mcp.tavily.com/mcp/?tavilyApiKey=<your-api-key>"@),
        r@[0].headers is None,
        r@[0].tool_allowlist is None,
        r@[0].resource_allowlist is None,
{
    let server = McpServerConfig {
        id: "tavily".to_owned(),
        name: "Tavily MCP (Remote)".to_owned(),
        enabled: true,
        transport: McpTransport::HttpSse,
        command: None,
        args: None,
        cwd: None,
        env: None,
        url: Some("https://mcp.tavily.com/mcp/?tavilyApiKey=<your-api-key>".to_owned()),
        headers: None,
        tool_allowlist: None,
        resource_allowlist: None,
    };
    let mut servers: Vec<McpServerConfig> = Vec::new();
    servers.push(server);
    McpConfig { servers }
}

// ---------------------------------------------------------------------------
// Importing configurations from JSON
// ---------------------------------------------------------------------------

/// The transport named by a JSON value: `stdio` and `local` are stdio;
/// `http_sse`, `http` and `sse` are HTTP; the match folds case.
pub open spec fn transport_of(v: Option<JsonVal>) -> Option<McpTransport> {
    match v {
        Some(JsonVal::Str(s)) => {
            let lower = s.map_values(|c: char| strutil::ascii_lower(c));
            if lower == "stdio"@ || lower == "local"@ {
                Some(McpTransport::Stdio)
            } else if lower == "http_sse"@ || lower == "http"@ || lower == "sse"@ {
                Some(McpTransport::HttpSse)
            } else {
                None
            }
        },
        _ => None,
    }
}

/// Parse a transport name.
pub fn parse_transport(v: Option<&JsonValue>) -> (r: Option<McpTransport>)
    ensures
        r == transport_of(match v {
            Some(x) => Some(x@),
            None => None,
        }),
{
    let x = match v {
        Some(x) => x,
        None => {
            return None;
        },
    };
    let s = match x.as_str() {
        Some(s) => s,
        None => {
            return None;
        },
    };
    let lower = strutil::to_ascii_lower(s.as_str());
    if strutil::eq_str(lower.as_str(), "stdio") || strutil::eq_str(lower.as_str(), "local") {
        Some(McpTransport::Stdio)
    } else if strutil::eq_str(lower.as_str(), "http_sse") || strutil::eq_str(
        lower.as_str(),
        "http",
    ) || strutil::eq_str(lower.as_str(), "sse") {
        Some(McpTransport::HttpSse)
    } else {
        None
    }
}

/// The strings among an array's elements, in order.
pub open spec fn string_items(items: Seq<JsonVal>) -> Seq<Seq<char>>
    decreases items.len(),
{
    if items.len() == 0 {
        Seq::empty()
    } else {
        let rest = string_items(items.subrange(1, items.len() as int));
        match items[0] {
            JsonVal::Str(s) => seq![s].add(rest),
            _ => rest,
        }
    }
}

/// The string list a JSON value carries: the string elements of an array
/// (none meaning absent), or a single string as a one-element list.
pub open spec fn string_list_of(v: Option<JsonVal>) -> Option<Seq<Seq<char>>> {
    match v {
        Some(JsonVal::Arr(items)) => {
            let list = string_items(items);
            if list.len() == 0 {
                None
            } else {
                Some(list)
            }
        },
        Some(JsonVal::Str(s)) => Some(seq![s]),
        _ => None,
    }
}

/// Parse an optional string list.
pub fn parse_string_list(v: Option<&JsonValue>) -> (r: Option<Vec<String>>)
    ensures
        r.deep_view() == string_list_of(match v {
            Some(x) => Some(x@),
            None => None,
        }),
{
    broadcast use crate::json::group_json_view;

    let x = match v {
        Some(x) => x,
        None => {
            return None;
        },
    };
    match x {
        JsonValue::Arr(items) => {
            let ghost iv = crate::json::view_arr(items@);
            let mut out: Vec<String> = Vec::new();
            let mut i: usize = 0;
            proof {
                assert(iv.subrange(0, iv.len() as int) =~= iv);
                assert(out@.map_values(|t: String| t@) =~= Seq::<Seq<char>>::empty());
            }
            while i < items.len()
                invariant
                    i <= items@.len(),
                    iv == crate::json::view_arr(items@),
                    out@.map_values(|t: String| t@).add(
                        string_items(iv.subrange(i as int, iv.len() as int)),
                    ) == string_items(iv),
                decreases items@.len() - i,
            {
                let ghost pre = out@.map_values(|t: String| t@);
                let ghost rem = iv.subrange(i as int, iv.len() as int);
                proof {
                    assert(rem[0] == iv[i as int]);
                    assert(rem.subrange(1, rem.len() as int) =~= iv.subrange(
                        i + 1,
                        iv.len() as int,
                    ));
                }
                match &items[i] {
                    JsonValue::Str(sv) => {
                        out.push(sv.clone());
                        proof {
                            assert(out@.map_values(|t: String| t@) =~= pre.push(
                                out@.last()@,
                            ));
                            let rest2 = string_items(iv.subrange(i + 1, iv.len() as int));
                            assert(pre.push(out@.last()@).add(rest2) =~= pre.add(
                                seq![out@.last()@].add(rest2),
                            ));
                        }
                    },
                    _ => {},
                }
                i += 1;
            }
            proof {
                assert(iv.subrange(i as int, iv.len() as int).len() == 0);
                assert(out@.map_values(|t: String| t@).add(Seq::<Seq<char>>::empty())
                    =~= out@.map_values(|t: String| t@));
            }
            if out.len() == 0 {
                proof {
                    assert(out@.map_values(|t: String| t@).len() == 0);
                }
                None
            } else {
                proof {
                    assert(Some(out).deep_view() =~~= Some::<Seq<Seq<char>>>(
                        string_items(iv),
                    ));
                }
                Some(out)
            }
        },
        JsonValue::Str(sv) => {
            let mut out: Vec<String> = Vec::new();
            out.push(sv.clone());
            proof {
                assert(Some(out).deep_view() =~~= Some::<Seq<Seq<char>>>(seq![sv@]));
            }
            Some(out)
        },
        _ => None,
    }
}

/// The string-valued fields of an object, in order.
pub open spec fn string_fields(fs: Seq<(Seq<char>, JsonVal)>) -> Seq<(Seq<char>, Seq<char>)>
    decreases fs.len(),
{
    if fs.len() == 0 {
        Seq::empty()
    } else {
        let rest = string_fields(fs.subrange(1, fs.len() as int));
        match fs[0].1 {
            JsonVal::Str(s) => seq![(fs[0].0, s)].add(rest),
            _ => rest,
        }
    }
}

/// The string map a JSON value carries: the string-valued fields of an
/// object, none meaning absent.
pub open spec fn string_map_of(v: Option<JsonVal>) -> Option<Seq<(Seq<char>, Seq<char>)>> {
    match v {
        Some(JsonVal::Obj(fs)) => {
            let map = string_fields(fs);
            if map.len() == 0 {
                None
            } else {
                Some(map)
            }
        },
        _ => None,
    }
}

/// Parse an optional string map.
pub fn parse_string_map(v: Option<&JsonValue>) -> (r: Option<Vec<(String, String)>>)
    ensures
        r.deep_view() == string_map_of(match v {
            Some(x) => Some(x@),
            None => None,
        }),
{
    broadcast use crate::json::group_json_view;

    let x = match v {
        Some(x) => x,
        None => {
            return None;
        },
    };
    match x {
        JsonValue::Obj(fs) => {
            let ghost fv = crate::json::view_obj(fs@);
            let mut out: Vec<(String, String)> = Vec::new();
            let mut i: usize = 0;
            proof {
                assert(fv.subrange(0, fv.len() as int) =~= fv);
                assert(out.deep_view() =~= Seq::<(Seq<char>, Seq<char>)>::empty());
            }
            while i < fs.len()
                invariant
                    i <= fs@.len(),
                    fv == crate::json::view_obj(fs@),
                    out.deep_view().add(
                        string_fields(fv.subrange(i as int, fv.len() as int)),
                    ) == string_fields(fv),
                decreases fs@.len() - i,
            {
                let ghost pre = out.deep_view();
                let ghost rem = fv.subrange(i as int, fv.len() as int);
                proof {
                    assert(rem[0] == fv[i as int]);
                    assert(rem.subrange(1, rem.len() as int) =~= fv.subrange(
                        i + 1,
                        fv.len() as int,
                    ));
                }
                match &fs[i].1 {
                    JsonValue::Str(sv) => {
                        let pair = (fs[i].0.clone(), sv.clone());
                        out.push(pair);
                        proof {
                            assert(out.deep_view() =~= pre.push(
                                (fv[i as int].0, fv[i as int].1->Str_0),
                            ));
                            let rest2 = string_fields(fv.subrange(i + 1, fv.len() as int));
                            assert(pre.push((fv[i as int].0, fv[i as int].1->Str_0)).add(rest2)
                                =~= pre.add(
                                seq![(fv[i as int].0, fv[i as int].1->Str_0)].add(rest2),
                            ));
                        }
                    },
                    _ => {},
                }
                i += 1;
            }
            proof {
                assert(fv.subrange(i as int, fv.len() as int).len() == 0);
                assert(out.deep_view().add(Seq::<(Seq<char>, Seq<char>)>::empty())
                    =~= out.deep_view());
            }
            if out.len() == 0 {
                proof {
                    assert(out.deep_view().len() == 0);
                }
                None
            } else {
                proof {
                    assert(Some(out).deep_view() =~~= Some::<Seq<(Seq<char>, Seq<char>)>>(
                        string_fields(fv),
                    ));
                }
                Some(out)
            }
        },
        _ => None,
    }
}


// ---------------------------------------------------------------------------
// Server descriptions in JSON
// ---------------------------------------------------------------------------

/// The string a field holds, absent when it is missing or not a string.
pub open spec fn opt_str_of(v: Option<JsonVal>) -> Option<Seq<char>> {
    match v {
        Some(JsonVal::Str(s)) => Some(s),
        _ => None,
    }
}

/// Read an optional string field.
fn read_opt_str(v: Option<&JsonValue>) -> (r: Option<String>)
    ensures
        r.deep_view() == opt_str_of(match v {
            Some(x) => Some(x@),
            None => None,
        }),
{
    match v {
        Some(JsonValue::Str(sv)) => Some(sv.clone()),
        _ => None,
    }
}

/// A permissive server description: `id` required, `name` defaulting to
/// the id, `enabled` defaulting to true, the transport under `transport`
/// or `type`, every other field optional.
pub open spec fn object_server_of(v: JsonVal) -> Option<McpServerConfigV> {
    match get_spec(v, "id"@) {
        Some(JsonVal::Str(id)) => {
            let name = match get_spec(v, "name"@) {
                Some(JsonVal::Str(n)) => n,
                _ => id,
            };
            let enabled = match get_spec(v, "enabled"@) {
                Some(JsonVal::Bool(b)) => b,
                _ => true,
            };
            let tv = match get_spec(v, "transport"@) {
                Some(x) => Some(x),
                None => get_spec(v, "type"@),
            };
            match transport_of(tv) {
                Some(t) => Some(
                    McpServerConfigV {
                        id,
                        name,
                        enabled,
                        transport: t,
                        command: opt_str_of(get_spec(v, "command"@)),
                        args: string_list_of(get_spec(v, "args"@)),
                        cwd: opt_str_of(get_spec(v, "cwd"@)),
                        env: string_map_of(get_spec(v, "env"@)),
                        url: opt_str_of(get_spec(v, "url"@)),
                        headers: string_map_of(get_spec(v, "headers"@)),
                        tool_allowlist: string_list_of(get_spec(v, "tool_allowlist"@)),
                        resource_allowlist: string_list_of(get_spec(v, "resource_allowlist"@)),
                    },
                ),
                None => None,
            }
        },
        _ => None,
    }
}

/// Build a server from a permissive object description.
pub fn build_server_from_object(v: &JsonValue) -> (r: Option<McpServerConfig>)
    ensures
        match r {
            Some(c) => object_server_of(v@) == Some(c@),
            None => object_server_of(v@) is None,
        },
{
    let id = match v.get("id") {
        Some(JsonValue::Str(sv)) => sv.clone(),
        _ => {
            return None;
        },
    };
    let name = match v.get("name") {
        Some(JsonValue::Str(sv)) => sv.clone(),
        _ => id.clone(),
    };
    let enabled = match v.get("enabled") {
        Some(JsonValue::Bool(b)) => *b,
        _ => true,
    };
    let tfield = match v.get("transport") {
        Some(x) => Some(x),
        None => v.get("type"),
    };
    let transport = match parse_transport(tfield) {
        Some(t) => t,
        None => {
            return None;
        },
    };
    let c = McpServerConfig {
        id,
        name,
        enabled,
        transport,
        command: read_opt_str(v.get("command")),
        args: parse_string_list(v.get("args")),
        cwd: read_opt_str(v.get("cwd")),
        env: parse_string_map(v.get("env")),
        url: read_opt_str(v.get("url")),
        headers: parse_string_map(v.get("headers")),
        tool_allowlist: parse_string_list(v.get("tool_allowlist")),
        resource_allowlist: parse_string_list(v.get("resource_allowlist")),
    };
    Some(c)
}

/// A legacy map entry: the key is the id, the transport defaults to HTTP.
pub open spec fn legacy_server_of(key: Seq<char>, v: JsonVal) -> McpServerConfigV {
    McpServerConfigV {
        id: key,
        name: match get_spec(v, "name"@) {
            Some(JsonVal::Str(n)) => n,
            _ => key,
        },
        enabled: match get_spec(v, "enabled"@) {
            Some(JsonVal::Bool(b)) => b,
            _ => true,
        },
        transport: match transport_of(
            match get_spec(v, "transport"@) {
                Some(x) => Some(x),
                None => get_spec(v, "type"@),
            },
        ) {
            Some(t) => t,
            None => McpTransport::HttpSse,
        },
        command: opt_str_of(get_spec(v, "command"@)),
        args: string_list_of(get_spec(v, "args"@)),
        cwd: opt_str_of(get_spec(v, "cwd"@)),
        env: string_map_of(get_spec(v, "env"@)),
        url: opt_str_of(get_spec(v, "url"@)),
        headers: string_map_of(get_spec(v, "headers"@)),
        tool_allowlist: string_list_of(get_spec(v, "tool_allowlist"@)),
        resource_allowlist: string_list_of(get_spec(v, "resource_allowlist"@)),
    }
}

/// Build a server from a legacy `mcpServers` map entry.
pub fn build_server_from_legacy_map(key: &str, v: &JsonValue) -> (r: McpServerConfig)
    ensures
        r@ == legacy_server_of(key@, v@),
{
    let name = match v.get("name") {
        Some(JsonValue::Str(sv)) => sv.clone(),
        _ => key.to_owned(),
    };
    let enabled = match v.get("enabled") {
        Some(JsonValue::Bool(b)) => *b,
        _ => true,
    };
    let tfield = match v.get("transport") {
        Some(x) => Some(x),
        None => v.get("type"),
    };
    let transport = match parse_transport(tfield) {
        Some(t) => t,
        None => McpTransport::HttpSse,
    };
    McpServerConfig {
        id: key.to_owned(),
        name,
        enabled,
        transport,
        command: read_opt_str(v.get("command")),
        args: parse_string_list(v.get("args")),
        cwd: read_opt_str(v.get("cwd")),
        env: parse_string_map(v.get("env")),
        url: read_opt_str(v.get("url")),
        headers: parse_string_map(v.get("headers")),
        tool_allowlist: parse_string_list(v.get("tool_allowlist")),
        resource_allowlist: parse_string_list(v.get("resource_allowlist")),
    }
}

/// Where a server description is looked for inside a pasted payload: the
/// first element of an array, the first entry of a `servers` array, the
/// first entry of a legacy `mcpServers` map, or the object itself. The
/// search gives up beyond a fixed nesting depth.
pub open spec fn server_from_value_rec(v: JsonVal, fuel: nat) -> Option<McpServerConfigV>
    decreases fuel,
{
    if fuel == 0 {
        None
    } else {
        match v {
            JsonVal::Arr(items) => if items.len() > 0 {
                server_from_value_rec(items[0], (fuel - 1) as nat)
            } else {
                None
            },
            JsonVal::Obj(fs) => {
                match get_spec(v, "servers"@) {
                    Some(JsonVal::Arr(items)) => if items.len() > 0 {
                        server_from_value_rec(items[0], (fuel - 1) as nat)
                    } else {
                        None
                    },
                    _ => {
                        let legacy = match get_spec(v, "mcpServers"@) {
                            Some(JsonVal::Obj(mfs)) => if mfs.len() > 0 && mfs[0].1 is Obj {
                                Some(legacy_server_of(mfs[0].0, mfs[0].1))
                            } else {
                                None
                            },
                            _ => None,
                        };
                        match legacy {
                            Some(c) => Some(c),
                            None => object_server_of(v),
                        }
                    },
                }
            },
            _ => None,
        }
    }
}

/// The nesting depth up to which a pasted payload is searched.
pub open spec fn server_from_value_spec(v: JsonVal) -> Option<McpServerConfigV> {
    server_from_value_rec(v, 64)
}

fn server_from_value_fuel(v: &JsonValue, fuel: u32) -> (r: Option<McpServerConfig>)
    ensures
        match r {
            Some(c) => server_from_value_rec(v@, fuel as nat) == Some(c@),
            None => server_from_value_rec(v@, fuel as nat) is None,
        },
    decreases fuel,
{
    broadcast use crate::json::group_json_view;

    if fuel == 0 {
        return None;
    }
    match v {
        JsonValue::Arr(items) => {
            if items.len() > 0 {
                proof {
                    crate::json::lemma_view_arr_len(items@);
                    crate::json::lemma_view_arr_index(items@, 0);
                }
                server_from_value_fuel(&items[0], fuel - 1)
            } else {
                proof {
                    crate::json::lemma_view_arr_len(items@);
                }
                None
            }
        },
        JsonValue::Obj(_) => {
            match v.get("servers") {
                Some(sv) => {
                    match sv {
                        JsonValue::Arr(items) => {
                            proof {
                                crate::json::lemma_view_arr_len(items@);
                            }
                            if items.len() > 0 {
                                proof {
                                    crate::json::lemma_view_arr_index(items@, 0);
                                }
                                return server_from_value_fuel(&items[0], fuel - 1);
                            } else {
                                return None;
                            }
                        },
                        _ => {},
                    }
                },
                None => {},
            }
            match v.get("mcpServers") {
                Some(mv) => {
                    match mv {
                        JsonValue::Obj(mfs) => {
                            if mfs.len() > 0 {
                                proof {
                                    crate::json::lemma_view_obj_index(mfs@, 0);
                                }
                                match &mfs[0].1 {
                                    JsonValue::Obj(_) => {
                                        let c = build_server_from_legacy_map(
                                            mfs[0].0.as_str(),
                                            &mfs[0].1,
                                        );
                                        return Some(c);
                                    },
                                    _ => {},
                                }
                            }
                        },
                        _ => {},
                    }
                },
                None => {},
            }
            build_server_from_object(v)
        },
        _ => None,
    }
}

/// Find one server description inside a pasted configuration payload.
pub fn parse_mcp_server_from_value(v: &JsonValue) -> (r: Option<McpServerConfig>)
    ensures
        match r {
            Some(c) => server_from_value_spec(v@) == Some(c@),
            None => server_from_value_spec(v@) is None,
        },
{
    server_from_value_fuel(v, 64)
}

} // verus!
